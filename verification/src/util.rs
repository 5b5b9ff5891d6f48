//! Small shared helpers.

use vstd::prelude::*;
use vstd::utf8::{decode_utf8, valid_utf8};

verus! {

/// The position of the first `c` in `s` at or after `from`, or `s.len()`
/// where there is none.
pub open spec fn first_of(s: Seq<char>, c: char, from: int) -> int
    decreases s.len() - from,
{
    if from >= s.len() || from < 0 {
        s.len() as int
    } else if s[from] == c {
        from
    } else {
        first_of(s, c, from + 1)
    }
}

/// `first_of` lies in `[from, s.len()]`, holds `c` when in bounds, and no
/// `c` comes before it.
pub proof fn lemma_first_of(s: Seq<char>, c: char, from: int)
    requires
        0 <= from <= s.len(),
    ensures
        from <= first_of(s, c, from) <= s.len(),
        first_of(s, c, from) < s.len() ==> s[first_of(s, c, from)] == c,
        forall|j: int| from <= j < first_of(s, c, from) ==> s[j] != c,
    decreases s.len() - from,
{
    if from < s.len() && s[from] != c {
        lemma_first_of(s, c, from + 1);
    }
}

/// A `c` at `i` with none before it from `from` on is `first_of(s, c, from)`.
pub proof fn lemma_first_of_at(s: Seq<char>, c: char, from: int, i: int)
    requires
        0 <= from <= i < s.len(),
        s[i] == c,
        forall|j: int| from <= j < i ==> s[j] != c,
    ensures
        first_of(s, c, from) == i,
    decreases i - from,
{
    if from < i {
        lemma_first_of_at(s, c, from + 1, i);
    }
}

/// With no `c` in `[from, s.len())`, `first_of(s, c, from)` is `s.len()`.
pub proof fn lemma_first_of_none(s: Seq<char>, c: char, from: int)
    requires
        0 <= from <= s.len(),
        forall|j: int| from <= j < s.len() ==> s[j] != c,
    ensures
        first_of(s, c, from) == s.len(),
    decreases s.len() - from,
{
    if from < s.len() {
        lemma_first_of_none(s, c, from + 1);
    }
}

/// A `filter_map` whose function never drops an item keeps the length.
pub proof fn lemma_filter_map_all_some<A, B>(s: Seq<A>, f: spec_fn(A) -> Option<B>)
    requires
        forall|x: A| #[trigger] f(x) is Some,
    ensures
        s.filter_map(f).len() == s.len(),
    decreases s.len(),
{
    if s.len() > 0 {
        lemma_filter_map_all_some(s.drop_last(), f);
        assert(f(s.last()) is Some);
    }
}

/// An item that a `filter_map` keeps is among its results.
pub proof fn lemma_filter_map_keeps<A, B>(s: Seq<A>, f: spec_fn(A) -> Option<B>, m: int)
    requires
        0 <= m < s.len(),
        f(s[m]) is Some,
    ensures
        s.filter_map(f).contains(f(s[m])->0),
    decreases s.len(),
{
    let x = f(s[m])->0;
    let r = s.drop_last().filter_map(f);
    if m == s.len() - 1 {
        assert(s.filter_map(f) == r + seq![x]);
        assert((r + seq![x])[r.len() as int] == x);
    } else {
        lemma_filter_map_keeps(s.drop_last(), f, m);
        assert(s.drop_last()[m] == s[m]);
        let i = choose|i: int| 0 <= i < r.len() && r[i] == x;
        match f(s.last()) {
            Some(y) => {
                assert(s.filter_map(f) == r + seq![y]);
                assert((r + seq![y])[i] == x);
            },
            None => {
                assert(s.filter_map(f) == r);
            },
        }
    }
}

/// The string `String::from_utf8_lossy` makes of a byte slice: the decoded
/// characters, with each invalid sequence replaced by U+FFFD.
pub uninterp spec fn utf8_lossy(bytes: Seq<u8>) -> Seq<char>;

/// `String::from_utf8_lossy(bytes)`, owned. Assumed of it: the result is
/// `utf8_lossy(bytes)`, and for valid UTF-8 it is the decoded string itself
/// (std's documentation: valid input comes back unchanged). How invalid
/// input is replaced is left to the name.
#[verifier::external_body]
fn from_utf8_lossy_owned(bytes: &[u8]) -> (s: String)
    ensures
        s@ == utf8_lossy(bytes@),
        valid_utf8(bytes@) ==> s@ == decode_utf8(bytes@),
{
    String::from_utf8_lossy(bytes).into_owned()
}

/// Render a parent-stringtable byte slice as a `String`, lossy (OSM strings
/// are conventionally UTF-8 but not guaranteed).
pub fn lossy(bytes: &[u8]) -> (s: String)
    ensures
        s@ == utf8_lossy(bytes@),
        valid_utf8(bytes@) ==> s@ == decode_utf8(bytes@),
{
    from_utf8_lossy_owned(bytes)
}

} // verus!
