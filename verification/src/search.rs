//! Finding the first occurrence of a value in a sequence.

use vstd::prelude::*;

verus! {

/// The index of the first `x` in `s`, or the length of `s` where it holds
/// none.
pub open spec fn position<T>(s: Seq<T>, x: T) -> int
    decreases s.len(),
{
    if s.len() == 0 {
        0
    } else if s[0] == x {
        0
    } else {
        1 + position(s.drop_first(), x)
    }
}

/// `position` is the one index before which no `x` stands and at which, if it
/// lies inside `s`, an `x` stands.
pub proof fn lemma_position<T>(s: Seq<T>, x: T, r: int)
    requires
        0 <= r <= s.len(),
        forall|j: int| 0 <= j < r ==> s[j] != x,
        r < s.len() ==> s[r] == x,
    ensures
        position(s, x) == r,
    decreases s.len(),
{
    if s.len() == 0 {
    } else if s[0] == x {
    } else {
        let rest = s.drop_first();
        assert forall|j: int| 0 <= j < r - 1 implies rest[j] != x by {
            assert(rest[j] == s[j + 1]);
        }
        lemma_position(rest, x, r - 1);
    }
}

/// What `position` returns lies between 0 and the length, no `x` stands
/// before it, and an `x` stands at it unless it is the length.
pub proof fn lemma_position_bounds<T>(s: Seq<T>, x: T)
    ensures
        0 <= position(s, x) <= s.len(),
        forall|j: int| 0 <= j < position(s, x) ==> s[j] != x,
        position(s, x) < s.len() ==> s[position(s, x)] == x,
        position(s, x) < s.len() <==> s.contains(x),
    decreases s.len(),
{
    if s.len() == 0 {
    } else if s[0] == x {
    } else {
        let rest = s.drop_first();
        lemma_position_bounds(rest, x);
        assert forall|j: int| 0 <= j < position(s, x) implies s[j] != x by {
            if j > 0 {
                assert(rest[j - 1] == s[j]);
            }
        }
        if s.contains(x) {
            let i = choose|i: int| 0 <= i < s.len() && s[i] == x;
            assert(rest[i - 1] == x);
        }
        if rest.contains(x) {
            let i = choose|i: int| 0 <= i < rest.len() && rest[i] == x;
            assert(s[i + 1] == x);
        }
    }
}

/// `s` with its first `x` taken out; `s` itself where it holds none.
pub open spec fn without<T>(s: Seq<T>, x: T) -> Seq<T> {
    if position(s, x) < s.len() {
        s.remove(position(s, x))
    } else {
        s
    }
}

/// Taking a value out of a sequence that holds nothing twice leaves a
/// sequence that holds nothing twice, holds the value no more, and holds
/// every other value that it held.
pub proof fn lemma_without<T>(s: Seq<T>, x: T)
    requires
        s.no_duplicates(),
    ensures
        without(s, x).no_duplicates(),
        !without(s, x).contains(x),
        forall|y: T| y != x ==> (without(s, x).contains(y) <==> s.contains(y)),
        s.contains(x) ==> without(s, x).len() == s.len() - 1,
        !s.contains(x) ==> without(s, x) == s,
{
    lemma_position_bounds(s, x);
    let at = position(s, x);
    if at < s.len() {
        let t = s.remove(at);
        assert forall|i: int, j: int| 0 <= i < t.len() && 0 <= j < t.len() && i != j implies t[i]
            != t[j] by {
            let a = if i < at { i } else { i + 1 };
            let b = if j < at { j } else { j + 1 };
            assert(t[i] == s[a] && t[j] == s[b]);
        }
        if t.contains(x) {
            let i = choose|i: int| 0 <= i < t.len() && t[i] == x;
            let a = if i < at { i } else { i + 1 };
            assert(t[i] == s[a]);
        }
        assert forall|y: T| y != x implies (t.contains(y) <==> s.contains(y)) by {
            if t.contains(y) {
                let i = choose|i: int| 0 <= i < t.len() && t[i] == y;
                let a = if i < at { i } else { i + 1 };
                assert(t[i] == s[a]);
            }
            if s.contains(y) {
                let a = choose|a: int| 0 <= a < s.len() && s[a] == y;
                let i = if a < at { a } else { a - 1 };
                assert(t[i] == s[a]);
            }
        }
    }
}

} // verus!
