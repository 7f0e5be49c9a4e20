//! Small operations on text that the protocol modules share.

use crate::search::{lemma_position, position};
use vstd::prelude::*;
use vstd::string::*;

verus! {

/// The value of a list of texts that may be absent.
pub open spec fn texts_view(list: Option<Vec<String>>) -> Option<Seq<Seq<char>>> {
    match list {
        Some(texts) => Some(texts.deep_view()),
        None => None,
    }
}

/// Whether a text holds a space.
pub fn has_space(text: &str) -> (found: bool)
    ensures
        found == text@.contains(' '),
{
    proof {
        crate::search::lemma_position_bounds(text@, ' ');
    }
    find_char(text, ' ') < text.unicode_len()
}

/// Whether two pieces of text hold the same characters.
pub fn same_text(a: &str, b: &str) -> (same: bool)
    ensures
        same == (a@ == b@),
{
    let left = String::from_str(a);
    let right = String::from_str(b);
    left == right
}

/// The index of the first `c` in `s`, counted in characters, or the number of
/// characters of `s` where it holds none.
pub fn find_char(s: &str, c: char) -> (at: usize)
    ensures
        at == position(s@, c),
        at <= s@.len(),
{
    let len = s.unicode_len();
    let mut at: usize = 0;
    let mut found = false;
    for x in it: s.chars()
        invariant
            it.seq() == s@,
            len == s@.len(),
            !found ==> at == it.index(),
            found ==> at < s@.len() && s@[at as int] == c,
            forall|j: int| 0 <= j < at ==> s@[j] != c,
    {
        if !found {
            if x == c {
                found = true;
            } else {
                at = at + 1;
            }
        }
    }
    proof {
        lemma_position(s@, c, at as int);
    }
    at
}

} // verus!
