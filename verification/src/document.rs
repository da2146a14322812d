//! A whole drawing: every path of a document, and the end of the stream.

use crate::error::CompileError;
use crate::instruction::{lemma_wire_record, wire, Instrcution, OP_END};
use crate::path::{compiled, lemma_path_does_not_end_the_stream, listed, Cursor};
use crate::tokens::tokens;
use crate::viewbox::{parse_viewbox, viewbox_of};
use vstd::prelude::*;
use vstd::utf8::encode_utf8;

verus! {

/// The instructions `out`, followed by those of each path in turn; the first
/// fault ends the run.
pub open spec fn joined(paths: Seq<Seq<u8>>, width: int, height: int, out: Seq<Instrcution>) -> Result<
    Seq<Instrcution>,
    CompileError,
>
    decreases paths.len(),
{
    if paths.len() == 0 {
        Ok(out)
    } else {
        match compiled(paths[0], width, height) {
            Err(e) => Err(e),
            Ok(more) => joined(paths.drop_first(), width, height, out + more),
        }
    }
}

/// The instructions of a document with the viewbox `viewbox` and the paths
/// `paths`: those of the paths in their order, then the end of the stream.
/// A faulty viewbox is reported before any path is looked at.
pub open spec fn drawing(viewbox: Seq<u8>, paths: Seq<Seq<u8>>) -> Result<
    Seq<Instrcution>,
    CompileError,
> {
    match viewbox_of(viewbox) {
        Err(e) => Err(e),
        Ok((width, height)) => match joined(paths, width, height, Seq::empty()) {
            Err(e) => Err(e),
            Ok(all) => Ok(all.push(Instrcution::EOF)),
        },
    }
}

/// The bytes of each of a list of texts.
pub open spec fn texts(paths: Seq<String>) -> Seq<Seq<u8>> {
    Seq::new(paths.len(), |i: int| encode_utf8(paths[i]@))
}

impl Instrcution {
    /// Compiles a document from its viewbox and the data of its paths.
    pub fn from_parts(viewbox: &str, paths: &[String]) -> (r: Result<Vec<Self>, CompileError>)
        ensures
            listed(r) == drawing(encode_utf8(viewbox@), texts(paths@)),
    {
        let (width, height) = match parse_viewbox(viewbox) {
            Ok(size) => size,
            Err(e) => { return Err(e); },
        };
        let ghost all = texts(paths@);
        let mut out: Vec<Self> = Vec::new();
        let mut i: usize = 0;
        assert(all.skip(0) =~= all);
        while i < paths.len()
            invariant
                i <= paths.len(),
                all == texts(paths@),
                viewbox_of(encode_utf8(viewbox@)) == Ok::<(int, int), CompileError>(
                    (width@, height@),
                ),
                joined(all, width@, height@, Seq::empty()) == joined(
                    all.skip(i as int),
                    width@,
                    height@,
                    out@,
                ),
            decreases paths.len() - i,
        {
            proof {
                assert(all.skip(i as int)[0] == encode_utf8(paths[i as int]@));
                assert(all.skip(i as int).drop_first() =~= all.skip(i + 1));
            }
            let path = paths[i].as_str();
            let mut more = match Self::parse_path(path, width, height) {
                Ok(more) => more,
                Err(e) => {
                    assert(compiled(all.skip(i as int)[0], width@, height@) == Err::<
                        Seq<Instrcution>,
                        CompileError,
                    >(e));
                    return Err(e);
                },
            };
            assert(compiled(all.skip(i as int)[0], width@, height@) == Ok::<
                Seq<Instrcution>,
                CompileError,
            >(more@));
            out.append(&mut more);
            i += 1;
        }
        out.push(Instrcution::EOF);
        Ok(out)
    }
}

proof fn lemma_joined_does_not_end_the_stream(
    paths: Seq<Seq<u8>>,
    width: int,
    height: int,
    out: Seq<Instrcution>,
)
    requires
        joined(paths, width, height, out) is Ok,
        forall|i: int| 0 <= i < out.len() ==> out[i] != Instrcution::EOF,
    ensures
        forall|i: int|
            0 <= i < joined(paths, width, height, out)->Ok_0.len() ==> joined(
                paths,
                width,
                height,
                out,
            )->Ok_0[i] != Instrcution::EOF,
    decreases paths.len(),
{
    if paths.len() > 0 {
        let more = compiled(paths[0], width, height)->Ok_0;
        lemma_path_does_not_end_the_stream(
            Cursor::fresh(),
            tokens(paths[0], false),
            width,
            height,
            Seq::empty(),
        );
        lemma_joined_does_not_end_the_stream(paths.drop_first(), width, height, out + more);
    }
}

/// A drawing ends the stream once, with its last instruction, however many
/// paths it has; on the wire that is the last record, three zero bytes,
/// and no other record has its opcode.
pub proof fn lemma_stream_ends_once(viewbox: Seq<u8>, paths: Seq<Seq<u8>>)
    requires
        drawing(viewbox, paths) is Ok,
    ensures
        ({
            let all = drawing(viewbox, paths)->Ok_0;
            let bytes = wire(all);
            &&& all.len() >= 1
            &&& all.last() == Instrcution::EOF
            &&& forall|i: int| 0 <= i < all.len() - 1 ==> all[i] != Instrcution::EOF
            &&& bytes.len() == 3 * all.len()
            &&& bytes.subrange(bytes.len() - 3, bytes.len() as int) == seq![0u8, 0u8, 0u8]
            &&& forall|i: int| 0 <= i < all.len() - 1 ==> #[trigger] bytes[3 * i] != OP_END
        }),
{
    let (width, height) = viewbox_of(viewbox)->Ok_0;
    lemma_joined_does_not_end_the_stream(paths, width, height, Seq::empty());
    let all = drawing(viewbox, paths)->Ok_0;
    let bytes = wire(all);
    lemma_wire_record(all, all.len() - 1);
    assert forall|i: int| 0 <= i < all.len() - 1 implies #[trigger] bytes[3 * i] != OP_END by {
        lemma_wire_record(all, i);
        assert(bytes.subrange(3 * i, 3 * i + 3)[0] == bytes[3 * i]);
    }
}

} // verus!
