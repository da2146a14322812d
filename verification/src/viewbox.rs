//! The viewbox: four numbers that give a document its width and height.

use crate::decimal::{clamped, decimal_of, Decimal};
use crate::error::CompileError;
use crate::tokens::{split, tokens};
use vstd::prelude::*;
use vstd::slice::slice_subrange;
use vstd::utf8::encode_utf8;

verus! {

/// The width and height that the viewbox `s` declares. Its first four
/// tokens, parted by white space or commas, are read as `x1 y1 x2 y2`; the
/// width is `x2 - x1` and the height `y2 - y1`, each held within the limit
/// of a [`Decimal`]. What follows the fourth token is not looked at.
pub open spec fn viewbox_of(s: Seq<u8>) -> Result<(int, int), CompileError> {
    let toks = tokens(s, true);
    if toks.len() < 4 {
        Err(CompileError::MalformedViewbox)
    } else {
        match (decimal_of(toks[0]), decimal_of(toks[1]), decimal_of(toks[2]), decimal_of(toks[3])) {
            (Some(x1), Some(y1), Some(x2), Some(y2)) => Ok((clamped(x2 - x1), clamped(y2 - y1))),
            _ => Err(CompileError::MalformedViewbox),
        }
    }
}

/// A parsed viewbox with its numbers in units of the last decimal place.
pub open spec fn sized(r: Result<(Decimal, Decimal), CompileError>) -> Result<
    (int, int),
    CompileError,
> {
    match r {
        Ok((width, height)) => Ok((width@, height@)),
        Err(e) => Err(e),
    }
}

/// Reads the width and height of a document from its viewbox.
pub fn parse_viewbox(x: &str) -> (r: Result<(Decimal, Decimal), CompileError>)
    ensures
        sized(r) == viewbox_of(encode_utf8(x@)),
{
    let s = x.as_bytes();
    let spans = split(s, true);
    if spans.len() < 4 {
        return Err(CompileError::MalformedViewbox);
    }
    proof {
        let toks = tokens(s@, true);
        assert(toks.len() == spans.len());
        assert(toks[0] == s@.subrange(spans[0].0 as int, spans[0].1 as int));
        assert(toks[1] == s@.subrange(spans[1].0 as int, spans[1].1 as int));
        assert(toks[2] == s@.subrange(spans[2].0 as int, spans[2].1 as int));
        assert(toks[3] == s@.subrange(spans[3].0 as int, spans[3].1 as int));
    }
    let x1 = Decimal::from_bytes(slice_subrange(s, spans[0].0, spans[0].1));
    let y1 = Decimal::from_bytes(slice_subrange(s, spans[1].0, spans[1].1));
    let x2 = Decimal::from_bytes(slice_subrange(s, spans[2].0, spans[2].1));
    let y2 = Decimal::from_bytes(slice_subrange(s, spans[3].0, spans[3].1));
    match (x1, y1, x2, y2) {
        (Some(x1), Some(y1), Some(x2), Some(y2)) => Ok(
            (x2.saturating_sub(x1), y2.saturating_sub(y1)),
        ),
        _ => Err(CompileError::MalformedViewbox),
    }
}

} // verus!
