//! The path compiler: from the tokens of one path to device instructions.

use crate::ascii::{
    COMMA, LOWER_H, LOWER_L, LOWER_M, LOWER_V, LOWER_Z, UPPER_H, UPPER_L, UPPER_M, UPPER_V,
    UPPER_Z,
};
use crate::decimal::{decimal_of, digits_end, numeral, Decimal};
use crate::error::CompileError;
use crate::instruction::{Instrcution, Point};
use crate::quantize::{quantize, quantized, FULL_SCALE};
use crate::tokens::{cut, split, tokens};
use vstd::prelude::*;
use vstd::slice::slice_subrange;
use vstd::utf8::encode_utf8;

verus! {

/// The command in force: what the next operand means.
#[derive(Clone, Copy, Debug, PartialEq, Eq, Structural)]
pub enum State {
    /// Move to an absolute position.
    MoveTo,
    /// Line to an absolute position.
    DrawLine,
    /// Move by an offset.
    MoveToR,
    /// Line by an offset.
    DrawLineR,
    /// Vertical line to an absolute height.
    DrawVertical,
    /// Vertical line by an offset.
    DrawVerticalR,
    /// Horizontal line to an absolute position.
    DrawHorizontal,
    /// Horizontal line by an offset.
    DrawHorizontalR,
}

/// What a command letter asks for.
#[derive(Clone, Copy, Debug, PartialEq, Eq, Structural)]
pub enum Command {
    /// Puts a command in force for the operands that follow.
    Mode(State),
    /// Draws back to where the path started.
    ClosePath,
}

/// The command that the letter `b` names.
pub open spec fn letter(b: u8) -> Option<Command> {
    if b == UPPER_M {
        Some(Command::Mode(State::MoveTo))
    } else if b == LOWER_M {
        Some(Command::Mode(State::MoveToR))
    } else if b == UPPER_L {
        Some(Command::Mode(State::DrawLine))
    } else if b == LOWER_L {
        Some(Command::Mode(State::DrawLineR))
    } else if b == UPPER_H {
        Some(Command::Mode(State::DrawHorizontal))
    } else if b == LOWER_H {
        Some(Command::Mode(State::DrawHorizontalR))
    } else if b == UPPER_V {
        Some(Command::Mode(State::DrawVertical))
    } else if b == LOWER_V {
        Some(Command::Mode(State::DrawVerticalR))
    } else if b == UPPER_Z || b == LOWER_Z {
        Some(Command::ClosePath)
    } else {
        None
    }
}

/// The command that a token is, if it is one: a token of one letter.
pub open spec fn command_of(tok: Seq<u8>) -> Option<Command> {
    if tok.len() == 1 {
        letter(tok[0])
    } else {
        None
    }
}

/// Tells a command letter from an operand.
pub fn command(tok: &[u8]) -> (r: Option<Command>)
    ensures
        r == command_of(tok@),
{
    if tok.len() != 1 {
        return None;
    }
    let b = tok[0];
    if b == UPPER_M {
        Some(Command::Mode(State::MoveTo))
    } else if b == LOWER_M {
        Some(Command::Mode(State::MoveToR))
    } else if b == UPPER_L {
        Some(Command::Mode(State::DrawLine))
    } else if b == LOWER_L {
        Some(Command::Mode(State::DrawLineR))
    } else if b == UPPER_H {
        Some(Command::Mode(State::DrawHorizontal))
    } else if b == LOWER_H {
        Some(Command::Mode(State::DrawHorizontalR))
    } else if b == UPPER_V {
        Some(Command::Mode(State::DrawVertical))
    } else if b == LOWER_V {
        Some(Command::Mode(State::DrawVerticalR))
    } else if b == UPPER_Z || b == LOWER_Z {
        Some(Command::ClosePath)
    } else {
        None
    }
}

/// The index of the first comma at or after `from`, or the length of `s`.
pub open spec fn comma_index(s: Seq<u8>, from: int) -> int
    decreases s.len() - from,
{
    if 0 <= from < s.len() && s[from] != COMMA {
        comma_index(s, from + 1)
    } else {
        from
    }
}

/// The numbers that an operand writes, in units of the last decimal place.
pub enum Numbers {
    /// A single number.
    One(int),
    /// A pair: x, then y.
    Two(int, int),
}

/// Reads an operand: one numeral, or two with a comma between them. The
/// first comma parts the two.
pub open spec fn numbers_of(tok: Seq<u8>) -> Option<Numbers> {
    let comma = comma_index(tok, 0);
    if comma == tok.len() {
        match decimal_of(tok) {
            Some(n) => Some(Numbers::One(n)),
            None => None,
        }
    } else {
        match (decimal_of(tok.subrange(0, comma)), decimal_of(tok.subrange(comma + 1, tok.len() as int))) {
            (Some(x), Some(y)) => Some(Numbers::Two(x, y)),
            _ => None,
        }
    }
}

/// An operand as it was read.
#[derive(Clone, Copy, Debug, PartialEq, Eq)]
pub enum Operand {
    /// A single number.
    One(Decimal),
    /// A pair: x, then y.
    Two(Decimal, Decimal),
}

impl View for Operand {
    type V = Numbers;

    open spec fn view(&self) -> Numbers {
        match self {
            Operand::One(n) => Numbers::One(n@),
            Operand::Two(x, y) => Numbers::Two(x@, y@),
        }
    }
}

/// Reads an operand token.
pub fn operand(tok: &[u8]) -> (r: Option<Operand>)
    ensures
        match r {
            Some(o) => numbers_of(tok@) == Some(o@),
            None => numbers_of(tok@) is None,
        },
{
    let mut comma: usize = 0;
    while comma < tok.len() && tok[comma] != COMMA
        invariant
            comma <= tok.len(),
            comma_index(tok@, 0) == comma_index(tok@, comma as int),
        decreases tok.len() - comma,
    {
        comma += 1;
    }
    if comma == tok.len() {
        match Decimal::from_bytes(tok) {
            Some(n) => Some(Operand::One(n)),
            None => None,
        }
    } else {
        let first = Decimal::from_bytes(slice_subrange(tok, 0, comma));
        let second = Decimal::from_bytes(slice_subrange(tok, comma + 1, tok.len()));
        match (first, second) {
            (Some(x), Some(y)) => Some(Operand::Two(x, y)),
            _ => None,
        }
    }
}

impl State {
    /// Whether operands are single numbers while the command is in force.
    pub open spec fn takes_one(self) -> bool {
        self is DrawHorizontal || self is DrawHorizontalR || self is DrawVertical
            || self is DrawVerticalR
    }

    /// Whether the command draws along the y axis only.
    pub open spec fn is_vertical(self) -> bool {
        self is DrawVertical || self is DrawVerticalR
    }
}

/// The device coordinates of the operand `tok` under the command `state`.
/// A single number is scaled along the axis that the command varies and
/// comes first; of a pair, x is scaled by the width and y by the height.
pub open spec fn scaled(state: State, tok: Seq<u8>, width: int, height: int) -> Result<
    (u8, u8),
    CompileError,
> {
    match numbers_of(tok) {
        Some(Numbers::One(n)) if state.takes_one() => {
            let dimension = if state.is_vertical() { height } else { width };
            if dimension == 0 {
                Err(CompileError::InvalidViewbox)
            } else {
                Ok((quantized(n, dimension) as u8, 0u8))
            }
        },
        Some(Numbers::Two(x, y)) if !state.takes_one() => {
            if width == 0 || height == 0 {
                Err(CompileError::InvalidViewbox)
            } else {
                Ok((quantized(x, width) as u8, quantized(y, height) as u8))
            }
        },
        _ => Err(CompileError::UnparseableCoordinate),
    }
}

/// Reads and scales the operand `tok` under the command `state`.
pub fn scale(state: State, tok: &[u8], width: Decimal, height: Decimal) -> (r: Result<
    (u8, u8),
    CompileError,
>)
    ensures
        r == scaled(state, tok@, width@, height@),
{
    let single = match state {
        State::DrawHorizontal | State::DrawHorizontalR | State::DrawVertical
        | State::DrawVerticalR => true,
        _ => false,
    };
    match operand(tok) {
        Some(Operand::One(n)) => {
            if !single {
                return Err(CompileError::UnparseableCoordinate);
            }
            let dimension = match state {
                State::DrawVertical | State::DrawVerticalR => height,
                _ => width,
            };
            match quantize(n, dimension) {
                Ok(x) => Ok((x, 0)),
                Err(e) => Err(e),
            }
        },
        Some(Operand::Two(x, y)) => {
            if single {
                return Err(CompileError::UnparseableCoordinate);
            }
            let qx = quantize(x, width);
            let qy = quantize(y, height);
            match (qx, qy) {
                (Ok(x), Ok(y)) => Ok((x, y)),
                _ => Err(CompileError::InvalidViewbox),
            }
        },
        None => Err(CompileError::UnparseableCoordinate),
    }
}

/// The sum of two device coordinates, held to the device's range.
pub open spec fn saturating_sum(a: u8, b: u8) -> u8 {
    if a + b > FULL_SCALE {
        FULL_SCALE
    } else {
        (a + b) as u8
    }
}

/// The instruction that an operand gives under the command `state`, and the
/// command in force after it. `x` and `y` are the operand in device
/// coordinates; a single number comes as `x`. `lp` is the point reached
/// before, if there is one.
pub open spec fn created(state: State, x: u8, y: u8, lp: Option<Point>) -> Result<
    (Instrcution, State),
    CompileError,
> {
    match (state, lp) {
        (State::MoveTo, _) => Ok((Instrcution::MoveTo(Point(x, y)), State::DrawLine)),
        (State::DrawLine, _) => Ok((Instrcution::DrawLine(Point(x, y)), State::DrawLine)),
        (State::MoveToR, None) => Ok((Instrcution::MoveTo(Point(x, y)), State::DrawLineR)),
        (State::MoveToR, Some(p)) => Ok(
            (
                Instrcution::MoveTo(Point(saturating_sum(p.0, x), saturating_sum(p.1, y))),
                State::DrawLineR,
            ),
        ),
        (State::DrawLineR, Some(p)) => Ok(
            (
                Instrcution::DrawLine(Point(saturating_sum(p.0, x), saturating_sum(p.1, y))),
                State::DrawLineR,
            ),
        ),
        (State::DrawHorizontal, Some(p)) => Ok(
            (Instrcution::DrawLine(Point(x, p.1)), State::DrawHorizontal),
        ),
        (State::DrawHorizontalR, Some(p)) => Ok(
            (Instrcution::DrawLine(Point(saturating_sum(p.0, x), p.1)), State::DrawHorizontalR),
        ),
        (State::DrawVertical, Some(p)) => Ok(
            (Instrcution::DrawLine(Point(p.0, x)), State::DrawVertical),
        ),
        (State::DrawVerticalR, Some(p)) => Ok(
            (Instrcution::DrawLine(Point(p.0, saturating_sum(p.1, x))), State::DrawVerticalR),
        ),
        (_, None) => Err(CompileError::MissingStartPoint),
    }
}

/// The value behind an optional reference.
pub open spec fn copied(lp: Option<&Point>) -> Option<Point> {
    match lp {
        Some(p) => Some(*p),
        None => None,
    }
}

/// How far a path has been compiled.
#[derive(Clone, Copy, Debug, PartialEq, Eq)]
pub struct Cursor {
    /// The command in force.
    pub state: State,
    /// The first point of the path, to which closing the path draws.
    pub start_point: Option<Point>,
    /// The point reached last, from which offsets count.
    pub current_point: Option<Point>,
}

impl Cursor {
    /// The cursor at the head of every path.
    pub open spec fn fresh() -> Cursor {
        Cursor { state: State::MoveTo, start_point: None, current_point: None }
    }

    /// The cursor after `made` was emitted for an operand, with `state` in
    /// force from then on.
    pub open spec fn recorded(self, made: Instrcution, state: State) -> Cursor {
        match made.point() {
            Some(p) => Cursor {
                state,
                start_point: if self.start_point is None {
                    Some(p)
                } else {
                    self.start_point
                },
                current_point: Some(p),
            },
            None => Cursor { state, ..self },
        }
    }

    /// The cursor at the head of a path: a move to an absolute position
    /// is in force, and no point has been reached.
    pub fn new() -> (r: Cursor)
        ensures
            r == Cursor::fresh(),
    {
        Cursor { state: State::MoveTo, start_point: None, current_point: None }
    }
}

/// One step of the compiler: what the token `tok` does to the cursor, and
/// the instruction that it emits, if any.
pub open spec fn stepped(at: Cursor, tok: Seq<u8>, width: int, height: int) -> Result<
    (Cursor, Option<Instrcution>),
    CompileError,
> {
    match command_of(tok) {
        Some(Command::Mode(state)) => Ok((Cursor { state, ..at }, None)),
        Some(Command::ClosePath) => match at.start_point {
            Some(p) => Ok((at, Some(Instrcution::DrawLine(p)))),
            None => Err(CompileError::MissingStartPoint),
        },
        None => match scaled(at.state, tok, width, height) {
            Err(e) => Err(e),
            Ok((x, y)) => match created(at.state, x, y, at.current_point) {
                Err(e) => Err(e),
                Ok((made, state)) => Ok((at.recorded(made, state), Some(made))),
            },
        },
    }
}

/// The instructions `out`, followed by those that the tokens `toks` emit
/// from the cursor `at` on; the first fault ends the run.
pub open spec fn run(
    at: Cursor,
    toks: Seq<Seq<u8>>,
    width: int,
    height: int,
    out: Seq<Instrcution>,
) -> Result<Seq<Instrcution>, CompileError>
    decreases toks.len(),
{
    if toks.len() == 0 {
        Ok(out)
    } else {
        match stepped(at, toks[0], width, height) {
            Err(e) => Err(e),
            Ok((next, made)) => run(
                next,
                toks.drop_first(),
                width,
                height,
                match made {
                    Some(i) => out.push(i),
                    None => out,
                },
            ),
        }
    }
}

/// The instructions of the path `path` in a document of the given width
/// and height.
pub open spec fn compiled(path: Seq<u8>, width: int, height: int) -> Result<
    Seq<Instrcution>,
    CompileError,
> {
    run(Cursor::fresh(), tokens(path, false), width, height, Seq::empty())
}

/// A result with its instructions as a sequence.
pub open spec fn listed(r: Result<Vec<Instrcution>, CompileError>) -> Result<
    Seq<Instrcution>,
    CompileError,
> {
    match r {
        Ok(v) => Ok(v@),
        Err(e) => Err(e),
    }
}

/// Takes one token: a command letter or an operand.
pub fn step(at: Cursor, tok: &[u8], width: Decimal, height: Decimal) -> (r: Result<
    (Cursor, Option<Instrcution>),
    CompileError,
>)
    ensures
        r == stepped(at, tok@, width@, height@),
{
    match command(tok) {
        Some(Command::Mode(state)) => Ok(
            (
                Cursor { state, start_point: at.start_point, current_point: at.current_point },
                None,
            ),
        ),
        Some(Command::ClosePath) => match at.start_point {
            Some(p) => Ok((at, Some(Instrcution::DrawLine(p)))),
            None => Err(CompileError::MissingStartPoint),
        },
        None => {
            let (x, y) = match scale(at.state, tok, width, height) {
                Ok(pair) => pair,
                Err(e) => { return Err(e); },
            };
            let mut state = at.state;
            let made = match Instrcution::create(&mut state, x, y, at.current_point.as_ref()) {
                Ok(made) => made,
                Err(e) => { return Err(e); },
            };
            let next = match made {
                Instrcution::EOF => Cursor {
                    state,
                    start_point: at.start_point,
                    current_point: at.current_point,
                },
                Instrcution::MoveTo(p) | Instrcution::DrawLine(p) => Cursor {
                    state,
                    start_point: if at.start_point.is_none() {
                        Some(p)
                    } else {
                        at.start_point
                    },
                    current_point: Some(p),
                },
            };
            Ok((next, Some(made)))
        },
    }
}

/// Compiles the bytes of one path.
pub fn compile(path: &[u8], width: Decimal, height: Decimal) -> (r: Result<
    Vec<Instrcution>,
    CompileError,
>)
    ensures
        listed(r) == compiled(path@, width@, height@),
{
    let spans = split(path, false);
    let ghost toks = tokens(path@, false);
    let mut out: Vec<Instrcution> = Vec::new();
    let mut at = Cursor::new();
    let mut i: usize = 0;
    assert(toks.skip(0) =~= toks);
    while i < spans.len()
        invariant
            i <= spans.len(),
            toks == cut(path@, spans@),
            forall|k: int|
                0 <= k < spans.len() ==> (#[trigger] spans[k]).0 < spans[k].1 <= path.len(),
            compiled(path@, width@, height@) == run(at, toks.skip(i as int), width@, height@, out@),
        decreases spans.len() - i,
    {
        let (from, to) = spans[i];
        let tok = slice_subrange(path, from, to);
        proof {
            assert(toks.skip(i as int)[0] == tok@);
            assert(toks.skip(i as int).drop_first() =~= toks.skip(i + 1));
        }
        match step(at, tok, width, height) {
            Err(e) => { return Err(e); },
            Ok((next, made)) => {
                at = next;
                if let Some(instruction) = made {
                    out.push(instruction);
                }
            },
        }
        i += 1;
    }
    Ok(out)
}

impl Instrcution {
    /// The point that the instruction goes to.
    pub open spec fn point(self) -> Option<Point> {
        match self {
            Instrcution::EOF => None,
            Instrcution::MoveTo(p) => Some(p),
            Instrcution::DrawLine(p) => Some(p),
        }
    }

    /// Compiles one path of a document of the given width and height.
    pub fn parse_path(x: &str, width: Decimal, height: Decimal) -> (r: Result<
        Vec<Self>,
        CompileError,
    >)
        ensures
            listed(r) == compiled(encode_utf8(x@), width@, height@),
    {
        compile(x.as_bytes(), width, height)
    }

    /// Makes the instruction for one operand, and puts in force the command
    /// that follows: after a move, further operands draw lines.
    pub fn create(state: &mut State, x: u8, y: u8, lp: Option<&Point>) -> (r: Result<
        Self,
        CompileError,
    >)
        ensures
            match created(*old(state), x, y, copied(lp)) {
                Ok((made, next)) => r == Ok::<Self, CompileError>(made) && *final(state) == next,
                Err(e) => r == Err::<Self, CompileError>(e) && *final(state) == *old(state),
            },
    {
        match *state {
            State::MoveTo => {
                *state = State::DrawLine;
                Ok(Self::MoveTo(Point(x, y)))
            },
            State::DrawLine => Ok(Self::DrawLine(Point(x, y))),
            State::MoveToR => {
                *state = State::DrawLineR;
                let p = match lp {
                    Some(v) => Point(v.0.saturating_add(x), v.1.saturating_add(y)),
                    None => Point(x, y),
                };
                Ok(Self::MoveTo(p))
            },
            State::DrawLineR => match lp {
                Some(v) => Ok(Self::DrawLine(Point(v.0.saturating_add(x), v.1.saturating_add(y)))),
                None => Err(CompileError::MissingStartPoint),
            },
            State::DrawVertical => match lp {
                Some(v) => Ok(Self::DrawLine(Point(v.0, x))),
                None => Err(CompileError::MissingStartPoint),
            },
            State::DrawVerticalR => match lp {
                Some(v) => Ok(Self::DrawLine(Point(v.0, v.1.saturating_add(x)))),
                None => Err(CompileError::MissingStartPoint),
            },
            State::DrawHorizontal => match lp {
                Some(v) => Ok(Self::DrawLine(Point(x, v.1))),
                None => Err(CompileError::MissingStartPoint),
            },
            State::DrawHorizontalR => match lp {
                Some(v) => Ok(Self::DrawLine(Point(v.0.saturating_add(x), v.1))),
                None => Err(CompileError::MissingStartPoint),
            },
        }
    }
}

impl State {
    /// Whether the command draws lines to operands that are pairs.
    pub open spec fn is_line(self) -> bool {
        self is DrawLine || self is DrawLineR
    }

    /// Whether the command starts from the point reached before.
    pub open spec fn needs_point(self) -> bool {
        self is DrawLineR || self.takes_one()
    }
}

/// Whether the token `tok` writes a pair of numbers.
pub open spec fn is_pair(tok: Seq<u8>) -> bool {
    numbers_of(tok) matches Some(Numbers::Two(_, _))
}

/// What can be read as an operand is no command letter.
pub proof fn lemma_operand_is_no_letter(tok: Seq<u8>)
    requires
        numbers_of(tok) is Some,
    ensures
        command_of(tok) is None,
{
    if tok.len() == 1 && letter(tok[0]) is Some {
        assert(comma_index(tok, 0) == 1) by {
            reveal_with_fuel(comma_index, 2);
        }
        assert(digits_end(tok, 0) == 0);
        assert(numeral(tok) is None);
    }
}

/// While a line command is in force, a pair of numbers gives one line and
/// leaves the command in force. A line by an offset needs the point that
/// the offset counts from, and scaling needs a width and a height.
pub proof fn lemma_line_mode_persists(at: Cursor, tok: Seq<u8>, width: int, height: int)
    requires
        at.state.is_line(),
        at.state is DrawLineR ==> at.current_point is Some,
        is_pair(tok),
        width != 0,
        height != 0,
    ensures
        stepped(at, tok, width, height) matches Ok((next, Some(made))) && made is DrawLine
            && next.state == at.state && next.current_point is Some,
{
    lemma_operand_is_no_letter(tok);
}

/// While a line command is in force, pairs of numbers that follow one
/// another give one line each: no command letter is needed between them.
pub proof fn lemma_line_mode_repeats(
    at: Cursor,
    toks: Seq<Seq<u8>>,
    width: int,
    height: int,
    out: Seq<Instrcution>,
)
    requires
        at.state.is_line(),
        at.state is DrawLineR ==> at.current_point is Some,
        forall|i: int| 0 <= i < toks.len() ==> is_pair(#[trigger] toks[i]),
        width != 0,
        height != 0,
    ensures
        run(at, toks, width, height, out) matches Ok(all) && all.len() == out.len() + toks.len()
            && all.take(out.len() as int) == out && forall|i: int|
            out.len() <= i < all.len() ==> #[trigger] all[i] is DrawLine,
    decreases toks.len(),
{
    if toks.len() == 0 {
        assert(out.take(out.len() as int) =~= out);
    } else {
        lemma_line_mode_persists(at, toks[0], width, height);
        let (next, made) = stepped(at, toks[0], width, height)->Ok_0;
        let longer = out.push(made->Some_0);
        let rest = toks.drop_first();
        assert forall|i: int| 0 <= i < rest.len() implies is_pair(#[trigger] rest[i]) by {
            assert(rest[i] == toks[i + 1]);
        }
        lemma_line_mode_repeats(next, rest, width, height, longer);
        let all = run(at, toks, width, height, out)->Ok_0;
        assert(all.take(out.len() as int) =~= longer.take(out.len() as int));
        assert(longer.take(out.len() as int) =~= out);
        assert(all[out.len() as int] == longer[out.len() as int]);
    }
}

/// Closing a path that has no first point fails.
pub proof fn lemma_close_needs_start(at: Cursor, tok: Seq<u8>, width: int, height: int)
    requires
        command_of(tok) == Some(Command::ClosePath),
        at.start_point is None,
    ensures
        stepped(at, tok, width, height) == Err::<(Cursor, Option<Instrcution>), CompileError>(
            CompileError::MissingStartPoint,
        ),
{
}

/// A line by an offset, and a horizontal or vertical line, fail where no
/// point was reached before.
pub proof fn lemma_line_needs_point(state: State, x: u8, y: u8)
    requires
        state.needs_point(),
    ensures
        created(state, x, y, None) == Err::<(Instrcution, State), CompileError>(
            CompileError::MissingStartPoint,
        ),
{
}

/// An operand that can be read and scaled fails under a command that
/// starts from the point reached before, where there is no such point.
pub proof fn lemma_operand_needs_point(at: Cursor, tok: Seq<u8>, width: int, height: int)
    requires
        at.state.needs_point(),
        at.current_point is None,
        scaled(at.state, tok, width, height) is Ok,
    ensures
        stepped(at, tok, width, height) == Err::<(Cursor, Option<Instrcution>), CompileError>(
            CompileError::MissingStartPoint,
        ),
{
    lemma_operand_is_no_letter(tok);
}

/// The command in force before the token at `k`, where command letters
/// alone stand before it: the command of the letter just before it, or
/// `state` where there is none.
pub open spec fn in_force(state: State, toks: Seq<Seq<u8>>, k: int) -> State {
    if k > 0 {
        match command_of(toks[k - 1]) {
            Some(Command::Mode(mode)) => mode,
            _ => state,
        }
    } else {
        state
    }
}

proof fn lemma_letters_reach_no_point(
    at: Cursor,
    toks: Seq<Seq<u8>>,
    k: int,
    width: int,
    height: int,
    out: Seq<Instrcution>,
)
    requires
        0 <= k < toks.len(),
        forall|i: int| 0 <= i < k ==> command_of(#[trigger] toks[i]) matches Some(Command::Mode(_)),
    ensures
        run(at, toks, width, height, out) == run(
            Cursor { state: in_force(at.state, toks, k), ..at },
            toks.skip(k),
            width,
            height,
            out,
        ),
    decreases k,
{
    if k == 0 {
        assert(toks.skip(0) =~= toks);
    } else {
        let before = k - 1;
        lemma_letters_reach_no_point(at, toks, before, width, height, out);
        let then = Cursor { state: in_force(at.state, toks, before), ..at };
        assert(toks.skip(before)[0] == toks[before]);
        assert(toks.skip(before).drop_first() =~= toks.skip(k));
    }
}

/// A path that closes before it has reached a point fails: where command
/// letters alone stand before the letter that closes the path.
pub proof fn lemma_close_before_any_point(
    toks: Seq<Seq<u8>>,
    k: int,
    width: int,
    height: int,
)
    requires
        0 <= k < toks.len(),
        forall|i: int| 0 <= i < k ==> command_of(#[trigger] toks[i]) matches Some(Command::Mode(_)),
        command_of(toks[k]) == Some(Command::ClosePath),
    ensures
        run(Cursor::fresh(), toks, width, height, Seq::empty()) == Err::<
            Seq<Instrcution>,
            CompileError,
        >(CompileError::MissingStartPoint),
{
    lemma_letters_reach_no_point(Cursor::fresh(), toks, k, width, height, Seq::empty());
    assert(toks.skip(k)[0] == toks[k]);
}

/// A path whose first operand stands under a command that starts from the
/// point reached before fails, if the operand can be read and scaled.
pub proof fn lemma_line_before_any_point(
    toks: Seq<Seq<u8>>,
    k: int,
    width: int,
    height: int,
)
    requires
        0 <= k < toks.len(),
        forall|i: int| 0 <= i < k ==> command_of(#[trigger] toks[i]) matches Some(Command::Mode(_)),
        in_force(State::MoveTo, toks, k).needs_point(),
        scaled(in_force(State::MoveTo, toks, k), toks[k], width, height) is Ok,
    ensures
        run(Cursor::fresh(), toks, width, height, Seq::empty()) == Err::<
            Seq<Instrcution>,
            CompileError,
        >(CompileError::MissingStartPoint),
{
    lemma_letters_reach_no_point(Cursor::fresh(), toks, k, width, height, Seq::empty());
    lemma_operand_is_no_letter(toks[k]);
    assert(toks.skip(k)[0] == toks[k]);
}

/// A path never holds the instruction that ends the stream.
pub proof fn lemma_path_does_not_end_the_stream(
    at: Cursor,
    toks: Seq<Seq<u8>>,
    width: int,
    height: int,
    out: Seq<Instrcution>,
)
    requires
        run(at, toks, width, height, out) is Ok,
        forall|i: int| 0 <= i < out.len() ==> out[i] != Instrcution::EOF,
    ensures
        forall|i: int|
            0 <= i < run(at, toks, width, height, out)->Ok_0.len() ==> run(
                at,
                toks,
                width,
                height,
                out,
            )->Ok_0[i] != Instrcution::EOF,
    decreases toks.len(),
{
    if toks.len() > 0 {
        let (next, made) = stepped(at, toks[0], width, height)->Ok_0;
        let longer = match made {
            Some(i) => out.push(i),
            None => out,
        };
        lemma_path_does_not_end_the_stream(next, toks.drop_first(), width, height, longer);
    }
}

} // verus!
