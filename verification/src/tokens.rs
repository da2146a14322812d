//! Cutting text into tokens.

use crate::ascii::{CARRIAGE_RETURN, COMMA, FORM_FEED, LINE_FEED, SPACE, TAB};
use vstd::prelude::*;

verus! {

pub open spec fn is_space(b: u8) -> bool {
    b == SPACE || b == TAB || b == LINE_FEED || b == FORM_FEED || b == CARRIAGE_RETURN
}

/// Whether `b` stands between tokens: white space does, and so does a comma
/// where `commas` is set.
pub open spec fn is_gap(b: u8, commas: bool) -> bool {
    is_space(b) || (commas && b == COMMA)
}

/// The index of the first gap byte at or after `from`, or the length of `s`.
pub open spec fn token_end(s: Seq<u8>, from: int, commas: bool) -> int
    decreases s.len() - from,
{
    if 0 <= from < s.len() && !is_gap(s[from], commas) {
        token_end(s, from + 1, commas)
    } else {
        from
    }
}

pub proof fn lemma_token_end_bounds(s: Seq<u8>, from: int, commas: bool)
    requires
        0 <= from <= s.len(),
    ensures
        from <= token_end(s, from, commas) <= s.len(),
        from < s.len() && !is_gap(s[from], commas) ==> from < token_end(s, from, commas),
    decreases s.len() - from,
{
    if from < s.len() && !is_gap(s[from], commas) {
        lemma_token_end_bounds(s, from + 1, commas);
    }
}

/// The tokens of `s` that start at or after `from`: the longest runs of
/// bytes that are no gaps, in the order in which they stand.
pub open spec fn tokens_from(s: Seq<u8>, from: int, commas: bool) -> Seq<Seq<u8>>
    decreases s.len() - from,
{
    if from < 0 || from >= s.len() {
        Seq::empty()
    } else if is_gap(s[from], commas) {
        tokens_from(s, from + 1, commas)
    } else {
        let end = token_end(s, from, commas);
        proof {
            lemma_token_end_bounds(s, from, commas);
        }
        seq![s.subrange(from, end)] + tokens_from(s, end, commas)
    }
}

/// The tokens of `s`.
pub open spec fn tokens(s: Seq<u8>, commas: bool) -> Seq<Seq<u8>> {
    tokens_from(s, 0, commas)
}

/// The pieces of `s` that the index pairs `spans` mark.
pub open spec fn cut(s: Seq<u8>, spans: Seq<(usize, usize)>) -> Seq<Seq<u8>> {
    Seq::new(spans.len(), |i: int| s.subrange(spans[i].0 as int, spans[i].1 as int))
}

fn gap(b: u8, commas: bool) -> (r: bool)
    ensures
        r == is_gap(b, commas),
{
    b == SPACE || b == TAB || b == LINE_FEED || b == FORM_FEED || b == CARRIAGE_RETURN || (commas
        && b == COMMA)
}

/// Finds the tokens of `s`; each comes as the index of its first byte and
/// the index after its last.
pub fn split(s: &[u8], commas: bool) -> (spans: Vec<(usize, usize)>)
    ensures
        cut(s@, spans@) == tokens(s@, commas),
        forall|i: int|
            0 <= i < spans.len() ==> (#[trigger] spans[i]).0 < spans[i].1 <= s.len(),
{
    let mut spans: Vec<(usize, usize)> = Vec::new();
    let mut at: usize = 0;
    assert(cut(s@, spans@) =~= Seq::<Seq<u8>>::empty());
    while at < s.len()
        invariant
            at <= s.len(),
            tokens(s@, commas) == cut(s@, spans@) + tokens_from(s@, at as int, commas),
            forall|i: int|
                0 <= i < spans.len() ==> (#[trigger] spans[i]).0 < spans[i].1 <= s.len(),
        decreases s.len() - at,
    {
        if gap(s[at], commas) {
            at += 1;
        } else {
            let start = at;
            while at < s.len() && !gap(s[at], commas)
                invariant
                    start <= at <= s.len(),
                    token_end(s@, start as int, commas) == token_end(s@, at as int, commas),
                decreases s.len() - at,
            {
                at += 1;
            }
            proof {
                lemma_token_end_bounds(s@, start as int, commas);
                assert(cut(s@, spans@.push((start, at))) =~= cut(s@, spans@) + seq![
                    s@.subrange(start as int, at as int),
                ]);
            }
            spans.push((start, at));
        }
    }
    assert(cut(s@, spans@) + Seq::<Seq<u8>>::empty() =~= cut(s@, spans@));
    spans
}

} // verus!
