//! Device instructions and their wire form.

use vstd::prelude::*;

verus! {

/// A position in device space: `x` first, then `y`.
#[derive(Clone, Copy, Debug, PartialEq, Eq, Structural)]
pub struct Point(pub u8, pub u8);

/// One action of the drawing head.
#[derive(Clone, Copy, Debug, PartialEq, Eq, Structural)]
pub enum Instrcution {
    /// Ends the stream; sent once, after the last path.
    EOF,
    /// Lifts the pen and travels to the point.
    MoveTo(Point),
    /// Draws a straight line from where the pen is to the point.
    DrawLine(Point),
}

/// The byte that opens a transmission, before the first record: `d`.
pub const HANDSHAKE: u8 = 100;

/// Opcode of the record that ends the stream.
pub const OP_END: u8 = 0;

/// Opcode of a pen-up move.
pub const OP_MOVE: u8 = 1;

/// Opcode of a drawn line.
pub const OP_LINE: u8 = 2;

/// The three bytes that stand for an instruction on the wire.
pub open spec fn record(i: Instrcution) -> Seq<u8> {
    match i {
        Instrcution::EOF => seq![OP_END, 0u8, 0u8],
        Instrcution::MoveTo(p) => seq![OP_MOVE, p.0, p.1],
        Instrcution::DrawLine(p) => seq![OP_LINE, p.0, p.1],
    }
}

impl Instrcution {
    /// Encodes the instruction as opcode, x, y.
    pub fn to_bytes(&self) -> (bytes: [u8; 3])
        ensures
            bytes@ == record(*self),
    {
        let bytes = match self {
            Instrcution::EOF => [OP_END, 0, 0],
            Instrcution::MoveTo(p) => [OP_MOVE, p.0, p.1],
            Instrcution::DrawLine(p) => [OP_LINE, p.0, p.1],
        };
        assert(bytes@ =~= record(*self));
        bytes
    }
}

/// The bytes of a list of instructions: their records, one after another.
pub open spec fn wire(list: Seq<Instrcution>) -> Seq<u8>
    decreases list.len(),
{
    if list.len() == 0 {
        Seq::empty()
    } else {
        record(list[0]) + wire(list.drop_first())
    }
}

/// The instruction that a record stands for. The record that ends the
/// stream carries no point: its coordinates are zero.
pub open spec fn instruction_of(op: u8, x: u8, y: u8) -> Option<Instrcution> {
    if op == OP_END && x == 0 && y == 0 {
        Some(Instrcution::EOF)
    } else if op == OP_MOVE {
        Some(Instrcution::MoveTo(Point(x, y)))
    } else if op == OP_LINE {
        Some(Instrcution::DrawLine(Point(x, y)))
    } else {
        None
    }
}

/// The instructions that `bytes` are the records of; `None` where `bytes`
/// are not a whole number of records, or one of them stands for nothing.
pub open spec fn unwired(bytes: Seq<u8>) -> Option<Seq<Instrcution>>
    decreases bytes.len(),
{
    if bytes.len() == 0 {
        Some(Seq::empty())
    } else if bytes.len() < 3 {
        None
    } else {
        match (instruction_of(bytes[0], bytes[1], bytes[2]), unwired(bytes.skip(3))) {
            (Some(first), Some(rest)) => Some(seq![first] + rest),
            _ => None,
        }
    }
}

/// A list of records is three bytes for each instruction.
pub proof fn lemma_wire_len(list: Seq<Instrcution>)
    ensures
        wire(list).len() == 3 * list.len(),
    decreases list.len(),
{
    if list.len() > 0 {
        lemma_wire_len(list.drop_first());
    }
}

/// The record of the instruction at `i` stands at byte `3 * i`.
pub proof fn lemma_wire_record(list: Seq<Instrcution>, i: int)
    requires
        0 <= i < list.len(),
    ensures
        wire(list).len() == 3 * list.len(),
        wire(list).subrange(3 * i, 3 * i + 3) == record(list[i]),
    decreases list.len(),
{
    lemma_wire_len(list);
    lemma_wire_len(list.drop_first());
    if i == 0 {
        assert(wire(list).subrange(0, 3) =~= record(list[0]));
    } else {
        lemma_wire_record(list.drop_first(), i - 1);
        assert(wire(list).subrange(3 * i, 3 * i + 3) =~= wire(list.drop_first()).subrange(
            3 * (i - 1),
            3 * (i - 1) + 3,
        ));
    }
}

/// Decoding the records of a list of instructions gives the list back.
pub proof fn lemma_round_trip(list: Seq<Instrcution>)
    ensures
        unwired(wire(list)) == Some(list),
    decreases list.len(),
{
    if list.len() > 0 {
        let rest = list.drop_first();
        lemma_round_trip(rest);
        assert(wire(list).skip(3) =~= wire(rest));
        assert(seq![list[0]] + rest =~= list);
    }
}

/// Only the records of a list decode to it.
pub proof fn lemma_decoded_from(bytes: Seq<u8>)
    requires
        unwired(bytes) is Some,
    ensures
        wire(unwired(bytes)->Some_0) == bytes,
    decreases bytes.len(),
{
    if bytes.len() > 0 {
        let first = instruction_of(bytes[0], bytes[1], bytes[2])->Some_0;
        let rest = unwired(bytes.skip(3))->Some_0;
        lemma_decoded_from(bytes.skip(3));
        assert((seq![first] + rest).drop_first() =~= rest);
        assert(record(first) + bytes.skip(3) =~= bytes);
    }
}

/// Writes the records of a list of instructions.
pub fn serialize(list: &[Instrcution]) -> (bytes: Vec<u8>)
    ensures
        bytes@ == wire(list@),
{
    let mut bytes: Vec<u8> = Vec::new();
    let mut i: usize = 0;
    assert(list@.skip(0) =~= list@);
    while i < list.len()
        invariant
            i <= list.len(),
            bytes@ + wire(list@.skip(i as int)) == wire(list@),
        decreases list.len() - i,
    {
        let r = list[i].to_bytes();
        proof {
            let rest = list@.skip(i as int);
            assert(rest.drop_first() =~= list@.skip(i + 1));
            assert(bytes@.push(r[0]).push(r[1]).push(r[2]) + wire(list@.skip(i + 1)) =~= bytes@
                + wire(rest));
        }
        bytes.push(r[0]);
        bytes.push(r[1]);
        bytes.push(r[2]);
        i += 1;
    }
    assert(bytes@ + Seq::<u8>::empty() =~= bytes@);
    bytes
}

/// Reads one record.
pub fn decode_record(op: u8, x: u8, y: u8) -> (r: Option<Instrcution>)
    ensures
        r == instruction_of(op, x, y),
{
    if op == OP_END && x == 0 && y == 0 {
        Some(Instrcution::EOF)
    } else if op == OP_MOVE {
        Some(Instrcution::MoveTo(Point(x, y)))
    } else if op == OP_LINE {
        Some(Instrcution::DrawLine(Point(x, y)))
    } else {
        None
    }
}

/// A decoded list as a sequence.
pub open spec fn decoded(r: Option<Vec<Instrcution>>) -> Option<Seq<Instrcution>> {
    match r {
        Some(v) => Some(v@),
        None => None,
    }
}

/// Reads a list of instructions back from its records.
pub fn deserialize(bytes: &[u8]) -> (r: Option<Vec<Instrcution>>)
    ensures
        decoded(r) == unwired(bytes@),
{
    let mut list: Vec<Instrcution> = Vec::new();
    let mut i: usize = 0;
    assert(bytes@.skip(0) =~= bytes@);
    assert(list@ + Seq::<Instrcution>::empty() =~= list@);
    while i < bytes.len()
        invariant
            i <= bytes.len(),
            unwired(bytes@) == match unwired(bytes@.skip(i as int)) {
                Some(rest) => Some(list@ + rest),
                None => None,
            },
        decreases bytes.len() - i,
    {
        if bytes.len() - i < 3 {
            return None;
        }
        let ghost tail = bytes@.skip(i as int);
        proof {
            assert(tail.skip(3) =~= bytes@.skip(i + 3));
        }
        match decode_record(bytes[i], bytes[i + 1], bytes[i + 2]) {
            None => { return None; },
            Some(instruction) => {
                proof {
                    if let Some(rest) = unwired(bytes@.skip(i + 3)) {
                        assert(list@.push(instruction) + rest =~= list@ + (seq![instruction]
                            + rest));
                    }
                }
                list.push(instruction);
            },
        }
        i += 3;
    }
    assert(list@ + Seq::<Instrcution>::empty() =~= list@);
    Some(list)
}

} // verus!
