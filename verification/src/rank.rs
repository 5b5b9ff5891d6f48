//! Ranking rows the way the endpoints sort them: by a number, then by one or
//! two strings compared byte-wise, with the row's place in the unsorted table breaking
//! any remaining tie. That last tie-break is what a stable sort does, so the
//! ranking equals the order a stable sort on the first three gives.

use vstd::prelude::*;
use crate::order::{
    bytes_lt, compare_bytes, lemma_bytes_lt_asymmetric, lemma_bytes_lt_irreflexive,
    lemma_bytes_lt_total, lemma_bytes_lt_transitive, Comparison,
};

verus! {

/// What a row is ranked by: a number, then two byte strings.
pub open spec fn key_lt(a: (int, Seq<u8>, Seq<u8>), b: (int, Seq<u8>, Seq<u8>)) -> bool {
    ||| a.0 < b.0
    ||| a.0 == b.0 && bytes_lt(a.1, b.1)
    ||| a.0 == b.0 && a.1 == b.1 && bytes_lt(a.2, b.2)
}

/// Row `i` ranks before row `j`: a smaller key, or the same key and an
/// earlier position.
pub open spec fn ranks_before(keys: Seq<(int, Seq<u8>, Seq<u8>)>, i: int, j: int) -> bool {
    key_lt(keys[i], keys[j]) || (keys[i] == keys[j] && i < j)
}

/// `p` lists every position of `keys` once, in ranking order.
pub open spec fn is_ranking(keys: Seq<(int, Seq<u8>, Seq<u8>)>, p: Seq<int>) -> bool {
    &&& p.len() == keys.len()
    &&& forall|k: int| 0 <= k < p.len() ==> 0 <= #[trigger] p[k] < keys.len()
    &&& forall|a: int, b: int|
        0 <= a < b < p.len() ==> ranks_before(keys, #[trigger] p[a], #[trigger] p[b])
    &&& forall|i: int| 0 <= i < keys.len() ==> #[trigger] p.contains(i)
}

/// The positions of `keys` in ranking order (the unique `p` with
/// `is_ranking(keys, p)`; see `lemma_ranking_unique` and `rank_order`).
pub open spec fn ranking(keys: Seq<(int, Seq<u8>, Seq<u8>)>) -> Seq<int> {
    choose|p: Seq<int>| is_ranking(keys, p)
}

proof fn lemma_key_lt_irreflexive(a: (int, Seq<u8>, Seq<u8>))
    ensures
        !key_lt(a, a),
{
    lemma_bytes_lt_irreflexive(a.1);
    lemma_bytes_lt_irreflexive(a.2);
}

proof fn lemma_key_lt_transitive(
    a: (int, Seq<u8>, Seq<u8>),
    b: (int, Seq<u8>, Seq<u8>),
    c: (int, Seq<u8>, Seq<u8>),
)
    requires
        key_lt(a, b),
        key_lt(b, c),
    ensures
        key_lt(a, c),
{
    if a.0 == b.0 && b.0 == c.0 {
        if bytes_lt(a.1, b.1) && bytes_lt(b.1, c.1) {
            lemma_bytes_lt_transitive(a.1, b.1, c.1);
        } else if a.1 == b.1 && b.1 == c.1 {
            lemma_bytes_lt_transitive(a.2, b.2, c.2);
        }
    }
}

proof fn lemma_key_lt_total(a: (int, Seq<u8>, Seq<u8>), b: (int, Seq<u8>, Seq<u8>))
    ensures
        a == b || key_lt(a, b) || key_lt(b, a),
{
    lemma_bytes_lt_total(a.1, b.1);
    lemma_bytes_lt_total(a.2, b.2);
}

/// Ranking is a strict order: transitive ...
pub proof fn lemma_ranks_before_transitive(
    keys: Seq<(int, Seq<u8>, Seq<u8>)>,
    i: int,
    j: int,
    k: int,
)
    requires
        ranks_before(keys, i, j),
        ranks_before(keys, j, k),
    ensures
        ranks_before(keys, i, k),
{
    if key_lt(keys[i], keys[j]) && key_lt(keys[j], keys[k]) {
        lemma_key_lt_transitive(keys[i], keys[j], keys[k]);
    }
}

/// ... irreflexive ...
pub proof fn lemma_ranks_before_irreflexive(keys: Seq<(int, Seq<u8>, Seq<u8>)>, i: int)
    ensures
        !ranks_before(keys, i, i),
{
    lemma_key_lt_irreflexive(keys[i]);
}

/// ... and total on distinct positions.
pub proof fn lemma_ranks_before_total(keys: Seq<(int, Seq<u8>, Seq<u8>)>, i: int, j: int)
    requires
        i != j,
    ensures
        ranks_before(keys, i, j) || ranks_before(keys, j, i),
{
    lemma_key_lt_total(keys[i], keys[j]);
}

/// There is at most one ranking of a key sequence.
pub proof fn lemma_ranking_unique(
    keys: Seq<(int, Seq<u8>, Seq<u8>)>,
    p1: Seq<int>,
    p2: Seq<int>,
)
    requires
        is_ranking(keys, p1),
        is_ranking(keys, p2),
    ensures
        p1 == p2,
{
    if p1 != p2 {
        assert(!(p1 =~= p2));
        let k = choose|k: int| 0 <= k < p1.len() && p1[k] != p2[k];
        // the first difference
        let first = choose|f: int|
            0 <= f < p1.len() && p1[f] != p2[f] && forall|g: int| 0 <= g < f ==> p1[g] == p2[g];
        assert(exists|f: int|
            0 <= f < p1.len() && p1[f] != p2[f] && forall|g: int| 0 <= g < f ==> p1[g] == p2[g])
            by {
            lemma_first_difference(p1, p2, k);
        }
        let x = p1[first];
        let y = p2[first];
        assert(p2.contains(x));
        assert(p1.contains(y));
        let m = choose|m: int| 0 <= m < p2.len() && p2[m] == x;
        let n = choose|n: int| 0 <= n < p1.len() && p1[n] == y;
        if m < first {
            assert(p1[m] == x);
            lemma_ranks_before_irreflexive(keys, x);
        } else if n < first {
            assert(p2[n] == y);
            lemma_ranks_before_irreflexive(keys, y);
        } else {
            assert(m != first);
            assert(n != first);
            assert(ranks_before(keys, p2[first], p2[m]));
            assert(ranks_before(keys, p1[first], p1[n]));
            lemma_ranks_before_transitive(keys, x, y, x);
            lemma_ranks_before_irreflexive(keys, x);
        }
    }
}

proof fn lemma_first_difference(p1: Seq<int>, p2: Seq<int>, k: int)
    requires
        0 <= k < p1.len(),
        p1[k] != p2[k],
    ensures
        exists|f: int|
            0 <= f < p1.len() && p1[f] != p2[f] && forall|g: int| 0 <= g < f ==> p1[g] == p2[g],
    decreases k,
{
    if forall|g: int| 0 <= g < k ==> p1[g] == p2[g] {
    } else {
        let g = choose|g: int| 0 <= g < k && p1[g] != p2[g];
        lemma_first_difference(p1, p2, g);
    }
}

/// `p` ranks the first `n` positions of `keys`.
pub open spec fn is_prefix_ranking(keys: Seq<(int, Seq<u8>, Seq<u8>)>, n: int, p: Seq<int>) -> bool {
    &&& p.len() == n
    &&& forall|k: int| 0 <= k < p.len() ==> 0 <= #[trigger] p[k] < n
    &&& forall|a: int, b: int|
        0 <= a < b < p.len() ==> ranks_before(keys, #[trigger] p[a], #[trigger] p[b])
    &&& forall|i: int| 0 <= i < n ==> #[trigger] p.contains(i)
}

/// Where `x` goes in the ranked `q`, searching from `k`: the first position
/// whose entry ranks after `x`.
spec fn insert_pos(keys: Seq<(int, Seq<u8>, Seq<u8>)>, q: Seq<int>, x: int, k: int) -> int
    decreases q.len() - k,
{
    if k >= q.len() || k < 0 {
        k
    } else if ranks_before(keys, x, q[k]) {
        k
    } else {
        insert_pos(keys, q, x, k + 1)
    }
}

proof fn lemma_insert_pos(keys: Seq<(int, Seq<u8>, Seq<u8>)>, q: Seq<int>, x: int, k: int)
    requires
        0 <= k <= q.len(),
    ensures
        k <= insert_pos(keys, q, x, k) <= q.len(),
        forall|a: int| k <= a < insert_pos(keys, q, x, k) ==> !ranks_before(keys, x, #[trigger] q[a]),
        insert_pos(keys, q, x, k) < q.len() ==> ranks_before(keys, x, q[insert_pos(keys, q, x, k)]),
    decreases q.len() - k,
{
    if k < q.len() && !ranks_before(keys, x, q[k]) {
        lemma_insert_pos(keys, q, x, k + 1);
    }
}

proof fn lemma_prefix_ranking_exists(keys: Seq<(int, Seq<u8>, Seq<u8>)>, n: int)
    requires
        0 <= n <= keys.len(),
    ensures
        exists|p: Seq<int>| is_prefix_ranking(keys, n, p),
    decreases n,
{
    if n == 0 {
        assert(is_prefix_ranking(keys, 0, Seq::<int>::empty()));
    } else {
        let x = n - 1;
        lemma_prefix_ranking_exists(keys, x);
        let q = choose|p: Seq<int>| is_prefix_ranking(keys, x, p);
        lemma_insert_pos(keys, q, x, 0);
        let pos = insert_pos(keys, q, x, 0);
        let p = q.subrange(0, pos) + seq![x] + q.subrange(pos, q.len() as int);
        assert(p.len() == n);
        assert forall|a: int| 0 <= a < p.len() implies #[trigger] p[a] == (if a < pos {
            q[a]
        } else if a == pos {
            x
        } else {
            q[a - 1]
        }) by {}
        assert forall|a: int| 0 <= a < pos implies ranks_before(keys, #[trigger] q[a], x) by {
            assert(q[a] < x);
            assert(!ranks_before(keys, x, q[a]));
            lemma_ranks_before_total(keys, q[a], x);
        }
        assert forall|a: int, b: int| 0 <= a < b < p.len() implies ranks_before(
            keys,
            #[trigger] p[a],
            #[trigger] p[b],
        ) by {
            if b < pos {
                assert(ranks_before(keys, q[a], q[b]));
            } else if b == pos {
                assert(ranks_before(keys, q[a], x));
            } else if a < pos {
                assert(ranks_before(keys, q[a], q[b - 1]));
            } else if a == pos {
                if b - 1 > pos {
                    assert(ranks_before(keys, q[pos], q[b - 1]));
                    lemma_ranks_before_transitive(keys, x, q[pos], q[b - 1]);
                }
            } else {
                assert(ranks_before(keys, q[a - 1], q[b - 1]));
            }
        }
        assert forall|k: int| 0 <= k < p.len() implies 0 <= #[trigger] p[k] < n by {}
        assert forall|i: int| 0 <= i < n implies #[trigger] p.contains(i) by {
            if i == x {
                assert(p[pos] == x);
            } else {
                assert(q.contains(i));
                let k = choose|k: int| 0 <= k < q.len() && q[k] == i;
                if k < pos {
                    assert(p[k] == i);
                } else {
                    assert(p[k + 1] == i);
                }
            }
        }
        assert(is_prefix_ranking(keys, n, p));
    }
}

/// Every key sequence has its ranking.
pub proof fn lemma_ranking_exists(keys: Seq<(int, Seq<u8>, Seq<u8>)>)
    ensures
        is_ranking(keys, ranking(keys)),
{
    let n = keys.len() as int;
    lemma_prefix_ranking_exists(keys, n);
    let p = choose|p: Seq<int>| is_prefix_ranking(keys, n, p);
    assert(is_ranking(keys, p));
}

/// A ranking key over borrowed strings.
pub struct SortKey<'a> {
    pub primary: u128,
    pub first: &'a [u8],
    pub second: &'a [u8],
}

impl<'a> SortKey<'a> {
    pub open spec fn view(&self) -> (int, Seq<u8>, Seq<u8>) {
        (self.primary as int, self.first@, self.second@)
    }
}

/// The keys' views.
pub open spec fn key_views<'a>(keys: Seq<SortKey<'a>>) -> Seq<(int, Seq<u8>, Seq<u8>)> {
    Seq::new(keys.len(), |i: int| keys[i].view())
}

/// The positions of `s`, as mathematical integers.
pub open spec fn positions(s: Seq<usize>) -> Seq<int> {
    Seq::new(s.len(), |i: int| s[i] as int)
}

/// Every pair of entries of `s` is in ranking order.
pub open spec fn ranked(keys: Seq<(int, Seq<u8>, Seq<u8>)>, s: Seq<usize>) -> bool {
    &&& forall|k: int| 0 <= k < s.len() ==> #[trigger] s[k] < keys.len()
    &&& forall|a: int, b: int|
        0 <= a < b < s.len() ==> ranks_before(keys, #[trigger] s[a] as int, #[trigger] s[b] as int)
}

fn key_less(a: &SortKey, b: &SortKey) -> (r: Comparison)
    ensures
        (r == Comparison::Less) == key_lt(a.view(), b.view()),
        (r == Comparison::Equal) == (a.view() == b.view()),
        (r == Comparison::Greater) == key_lt(b.view(), a.view()),
{
    proof {
        lemma_key_lt_irreflexive(a.view());
        lemma_bytes_lt_irreflexive(a.first@);
        lemma_bytes_lt_irreflexive(a.second@);
        lemma_bytes_lt_irreflexive(b.first@);
        lemma_bytes_lt_irreflexive(b.second@);
    }
    if a.primary < b.primary {
        return Comparison::Less;
    }
    if a.primary > b.primary {
        return Comparison::Greater;
    }
    let c1 = compare_bytes(a.first, b.first);
    if c1 != Comparison::Equal {
        proof {
            if c1 == Comparison::Less {
                lemma_bytes_lt_asymmetric(a.first@, b.first@);
            } else {
                lemma_bytes_lt_asymmetric(b.first@, a.first@);
            }
        }
        return c1;
    }
    let c2 = compare_bytes(a.second, b.second);
    proof {
        if c2 == Comparison::Less {
            lemma_bytes_lt_asymmetric(a.second@, b.second@);
        } else if c2 == Comparison::Greater {
            lemma_bytes_lt_asymmetric(b.second@, a.second@);
        }
    }
    c2
}

fn before(keys: &Vec<SortKey>, i: usize, j: usize) -> (r: bool)
    requires
        i < keys.len(),
        j < keys.len(),
    ensures
        r == ranks_before(key_views(keys@), i as int, j as int),
{
    let c = key_less(&keys[i], &keys[j]);
    match c {
        Comparison::Less => true,
        Comparison::Greater => false,
        Comparison::Equal => i < j,
    }
}

fn merge(keys: &Vec<SortKey>, l: Vec<usize>, r: Vec<usize>) -> (out: Vec<usize>)
    requires
        ranked(key_views(keys@), l@),
        ranked(key_views(keys@), r@),
        forall|x: usize| !(l@.contains(x) && r@.contains(x)),
    ensures
        out@.len() == l@.len() + r@.len(),
        ranked(key_views(keys@), out@),
        forall|x: usize| out@.contains(x) <==> (l@.contains(x) || r@.contains(x)),
{
    let ghost kv = key_views(keys@);
    let mut out: Vec<usize> = Vec::new();
    let mut i: usize = 0;
    let mut j: usize = 0;
    while i < l.len() || j < r.len()
        invariant
            kv == key_views(keys@),
            ranked(kv, l@),
            ranked(kv, r@),
            forall|x: usize| !(l@.contains(x) && r@.contains(x)),
            i <= l@.len(),
            j <= r@.len(),
            out@.len() == i + j,
            ranked(kv, out@),
            forall|x: usize|
                out@.contains(x) <==> (l@.subrange(0, i as int).contains(x) || r@.subrange(
                    0,
                    j as int,
                ).contains(x)),
            forall|a: int, m: int|
                0 <= a < out@.len() && i <= m < l@.len() ==> ranks_before(
                    kv,
                    #[trigger] out@[a] as int,
                    #[trigger] l@[m] as int,
                ),
            forall|a: int, m: int|
                0 <= a < out@.len() && j <= m < r@.len() ==> ranks_before(
                    kv,
                    #[trigger] out@[a] as int,
                    #[trigger] r@[m] as int,
                ),
        decreases l@.len() + r@.len() - i - j,
    {
        let take_left = if i < l.len() {
            if j < r.len() {
                before(keys, l[i], r[j])
            } else {
                true
            }
        } else {
            false
        };
        let ghost old_out = out@;
        assert(forall|x: usize|
            old_out.contains(x) <==> (l@.subrange(0, i as int).contains(x) || r@.subrange(
                0,
                j as int,
            ).contains(x)));
        let ghost old_i = i;
        let ghost old_j = j;
        if take_left {
            let x = l[i];
            proof {
                if j < r@.len() {
                    assert forall|m: int| j <= m < r@.len() implies ranks_before(
                        kv,
                        x as int,
                        #[trigger] r@[m] as int,
                    ) by {
                        if m > j {
                            lemma_ranks_before_transitive(kv, x as int, r@[j as int] as int, r@[m] as int);
                        }
                    }
                }
                assert(l@.subrange(0, i + 1) =~= l@.subrange(0, i as int).push(x));
            }
            out.push(x);
            i = i + 1;
        } else {
            let x = r[j];
            proof {
                if i < l@.len() {
                    assert(l@.contains(l@[i as int]));
                    assert(r@.contains(x));
                    lemma_ranks_before_total(kv, l@[i as int] as int, x as int);
                    assert forall|m: int| i <= m < l@.len() implies ranks_before(
                        kv,
                        x as int,
                        #[trigger] l@[m] as int,
                    ) by {
                        if m > i {
                            lemma_ranks_before_transitive(kv, x as int, l@[i as int] as int, l@[m] as int);
                        }
                    }
                }
                assert(r@.subrange(0, j + 1) =~= r@.subrange(0, j as int).push(x));
            }
            out.push(x);
            j = j + 1;
        }
        proof {
            let pushed = out@[out@.len() - 1];
            assert(out@ =~= old_out.push(pushed));
            assert forall|x: usize| out@.contains(x) <==> (old_out.contains(x) || x == pushed) by {
                if out@.contains(x) {
                    let k = choose|k: int| 0 <= k < out@.len() && out@[k] == x;
                    if k < old_out.len() {
                        assert(old_out[k] == x);
                    }
                }
                if old_out.contains(x) {
                    let k = choose|k: int| 0 <= k < old_out.len() && old_out[k] == x;
                    assert(out@[k] == x);
                }
            }
            assert forall|x: usize| l@.subrange(0, i as int).contains(x) <==> (l@.subrange(0, old_i as int).contains(x) || (i != old_i && x == pushed)) by {
                if i != old_i {
                    assert(l@.subrange(0, i as int) =~= l@.subrange(0, old_i as int).push(pushed));
                    if l@.subrange(0, i as int).contains(x) {
                        let k = choose|k: int| 0 <= k < i && l@.subrange(0, i as int)[k] == x;
                        if k < old_i {
                            assert(l@.subrange(0, old_i as int)[k] == x);
                        }
                    }
                    if l@.subrange(0, old_i as int).contains(x) {
                        let k = choose|k: int| 0 <= k < old_i && l@.subrange(0, old_i as int)[k] == x;
                        assert(l@.subrange(0, i as int)[k] == x);
                    }
                    assert(l@.subrange(0, i as int)[old_i as int] == pushed);
                }
            }
            assert forall|x: usize| r@.subrange(0, j as int).contains(x) <==> (r@.subrange(0, old_j as int).contains(x) || (j != old_j && x == pushed)) by {
                if j != old_j {
                    assert(r@.subrange(0, j as int) =~= r@.subrange(0, old_j as int).push(pushed));
                    if r@.subrange(0, j as int).contains(x) {
                        let k = choose|k: int| 0 <= k < j && r@.subrange(0, j as int)[k] == x;
                        if k < old_j {
                            assert(r@.subrange(0, old_j as int)[k] == x);
                        }
                    }
                    if r@.subrange(0, old_j as int).contains(x) {
                        let k = choose|k: int| 0 <= k < old_j && r@.subrange(0, old_j as int)[k] == x;
                        assert(r@.subrange(0, j as int)[k] == x);
                    }
                    assert(r@.subrange(0, j as int)[old_j as int] == pushed);
                }
            }
            assert((i != old_i) != (j != old_j));
            assert forall|x: usize|
                out@.contains(x) <==> (l@.subrange(0, i as int).contains(x) || r@.subrange(
                    0,
                    j as int,
                ).contains(x)) by {
                assert(old_out.contains(x) <==> (l@.subrange(0, old_i as int).contains(x) || r@.subrange(
                    0,
                    old_j as int,
                ).contains(x)));
            }
            assert forall|a: int, b: int| 0 <= a < b < out@.len() implies ranks_before(
                kv,
                #[trigger] out@[a] as int,
                #[trigger] out@[b] as int,
            ) by {
                if b < old_out.len() {
                    assert(out@[a] == old_out[a]);
                    assert(out@[b] == old_out[b]);
                } else {
                    assert(out@[a] == old_out[a]);
                }
            }
        }
    }
    assert(l@.subrange(0, i as int) =~= l@);
    assert(r@.subrange(0, j as int) =~= r@);
    out
}

fn sort_positions(keys: &Vec<SortKey>, idx: Vec<usize>) -> (out: Vec<usize>)
    requires
        forall|k: int| 0 <= k < idx@.len() ==> #[trigger] idx@[k] < keys@.len(),
        idx@.no_duplicates(),
    ensures
        out@.len() == idx@.len(),
        ranked(key_views(keys@), out@),
        forall|x: usize| out@.contains(x) <==> idx@.contains(x),
    decreases idx@.len(),
{
    if idx.len() <= 1 {
        return idx;
    }
    let mut left = idx;
    let mid = left.len() / 2;
    let ghost whole = left@;
    let right = left.split_off(mid);
    proof {
        assert(left@ =~= whole.subrange(0, mid as int));
        assert(right@ =~= whole.subrange(mid as int, whole.len() as int));
        assert forall|x: usize| !(left@.contains(x) && right@.contains(x)) by {
            if left@.contains(x) && right@.contains(x) {
                let a = choose|a: int| 0 <= a < left@.len() && left@[a] == x;
                let b = choose|b: int| 0 <= b < right@.len() && right@[b] == x;
                assert(whole[a] == whole[mid + b]);
            }
        }
        assert forall|x: usize| whole.contains(x) <==> (left@.contains(x) || right@.contains(x)) by {
            if whole.contains(x) {
                let a = choose|a: int| 0 <= a < whole.len() && whole[a] == x;
                if a < mid {
                    assert(left@[a] == x);
                } else {
                    assert(right@[a - mid] == x);
                }
            }
            if right@.contains(x) {
                let b = choose|b: int| 0 <= b < right@.len() && right@[b] == x;
                assert(whole[mid + b] == x);
            }
            if left@.contains(x) {
                let b = choose|b: int| 0 <= b < left@.len() && left@[b] == x;
                assert(whole[b] == x);
            }
        }
    }
    let sl = sort_positions(keys, left);
    let sr = sort_positions(keys, right);
    merge(keys, sl, sr)
}

/// The positions of `keys` in ranking order.
pub fn rank_order(keys: &Vec<SortKey>) -> (p: Vec<usize>)
    ensures
        is_ranking(key_views(keys@), positions(p@)),
        positions(p@) == ranking(key_views(keys@)),
{
    let mut idx: Vec<usize> = Vec::new();
    let mut n: usize = 0;
    while n < keys.len()
        invariant
            n <= keys@.len(),
            idx@.len() == n,
            forall|k: int| 0 <= k < n ==> #[trigger] idx@[k] == k,
        decreases keys@.len() - n,
    {
        idx.push(n);
        n = n + 1;
    }
    assert(idx@.no_duplicates());
    let p = sort_positions(keys, idx);
    let ghost kv = key_views(keys@);
    let ghost ps = positions(p@);
    proof {
        assert forall|i: int| 0 <= i < kv.len() implies #[trigger] ps.contains(i) by {
            assert(idx@[i] == i);
            assert(idx@.contains(i as usize));
            assert(p@.contains(i as usize));
            let k = choose|k: int| 0 <= k < p@.len() && p@[k] == i as usize;
            assert(ps[k] == i);
        }
        assert forall|a: int, b: int| 0 <= a < b < ps.len() implies ranks_before(
            kv,
            #[trigger] ps[a],
            #[trigger] ps[b],
        ) by {
            assert(ranks_before(kv, p@[a] as int, p@[b] as int));
        }
        assert forall|k: int| 0 <= k < ps.len() implies 0 <= #[trigger] ps[k] < kv.len() by {
            assert(p@[k] < keys@.len());
        }
        assert(is_ranking(kv, ps));
        lemma_ranking_unique(kv, ps, ranking(kv));
    }
    p
}

} // verus!

verus! {

/// A row that can be copied with the same view.
pub trait Duplicate: View + Sized {
    fn duplicate(&self) -> (r: Self)
        ensures
            r@ == self@,
    ;
}

/// The views of a sequence of rows.
pub open spec fn views<R: View>(s: Seq<R>) -> Seq<R::V> {
    Seq::new(s.len(), |i: int| s[i]@)
}

/// `rows` in the order of the positions `p`, reversed when `desc`.
pub open spec fn arranged<V>(rows: Seq<V>, p: Seq<int>, desc: bool) -> Seq<V> {
    let asc = Seq::new(p.len(), |k: int| rows[p[k]]);
    if desc {
        asc.reverse()
    } else {
        asc
    }
}

/// Rows arranged by their ranking come in rank order (ascending: no row
/// ranks below an earlier one; descending: none above), and each row of the
/// input is there exactly once: the table is a reordering of its rows.
pub proof fn lemma_arranged_in_rank_order<V>(
    rows: Seq<V>,
    rank: spec_fn(V) -> (int, Seq<u8>, Seq<u8>),
    desc: bool,
)
    ensures
        ({
            let keys = Seq::new(rows.len(), |i: int| rank(rows[i]));
            let out = arranged(rows, ranking(keys), desc);
            &&& out.len() == rows.len()
            &&& forall|a: int, b: int|
                0 <= a < b < out.len() ==> if desc {
                    !key_lt(rank(#[trigger] out[a]), rank(#[trigger] out[b]))
                } else {
                    !key_lt(rank(out[b]), rank(out[a]))
                }
            &&& forall|i: int| 0 <= i < rows.len() ==> out.contains(#[trigger] rows[i])
            &&& forall|k: int| 0 <= k < out.len() ==> rows.contains(#[trigger] out[k])
        }),
{
    let keys = Seq::new(rows.len(), |i: int| rank(rows[i]));
    lemma_ranking_exists(keys);
    let p = ranking(keys);
    let n = rows.len() as int;
    let out = arranged(rows, p, desc);
    assert forall|a: int, b: int| 0 <= a < b < n implies !key_lt(keys[p[b]], keys[p[a]]) by {
        assert(ranks_before(keys, p[a], p[b]));
        if key_lt(keys[p[b]], keys[p[a]]) {
            if key_lt(keys[p[a]], keys[p[b]]) {
                lemma_key_lt_transitive(keys[p[a]], keys[p[b]], keys[p[a]]);
            }
            lemma_key_lt_irreflexive(keys[p[a]]);
        }
    }
    assert forall|a: int, b: int| 0 <= a < b < out.len() implies (if desc {
        !key_lt(rank(#[trigger] out[a]), rank(#[trigger] out[b]))
    } else {
        !key_lt(rank(out[b]), rank(out[a]))
    }) by {
        if desc {
            assert(out[a] == rows[p[n - 1 - a]]);
            assert(out[b] == rows[p[n - 1 - b]]);
            assert(!key_lt(keys[p[n - 1 - a]], keys[p[n - 1 - b]]));
        } else {
            assert(out[a] == rows[p[a]]);
            assert(out[b] == rows[p[b]]);
        }
    }
    assert forall|i: int| 0 <= i < rows.len() implies out.contains(#[trigger] rows[i]) by {
        assert(p.contains(i));
        let k = choose|k: int| 0 <= k < p.len() && p[k] == i;
        if desc {
            assert(out[n - 1 - k] == rows[i]);
        } else {
            assert(out[k] == rows[i]);
        }
    }
    assert forall|k: int| 0 <= k < out.len() implies rows.contains(#[trigger] out[k]) by {
        if desc {
            assert(out[k] == rows[p[n - 1 - k]]);
        } else {
            assert(out[k] == rows[p[k]]);
        }
    }
}

/// Sorting is reversible: the descending table is the ascending one read
/// backwards.
pub proof fn lemma_descending_reverses_ascending<V>(rows: Seq<V>, p: Seq<int>)
    ensures
        arranged(rows, p, true) == arranged(rows, p, false).reverse(),
        arranged(rows, p, true).reverse() == arranged(rows, p, false),
{
    assert(arranged(rows, p, false).reverse().reverse() =~= arranged(rows, p, false));
}

/// The sum of a sequence of integers.
pub open spec fn sum_of(s: Seq<int>) -> int
    decreases s.len(),
{
    if s.len() == 0 {
        0
    } else {
        sum_of(s.drop_last()) + s.last()
    }
}

/// A sum of non-negative terms is at least each of its terms.
pub proof fn lemma_sum_term_bound(s: Seq<int>, m: int)
    requires
        0 <= m < s.len(),
        forall|i: int| 0 <= i < s.len() ==> s[i] >= 0,
    ensures
        0 <= s[m] <= sum_of(s),
    decreases s.len(),
{
    if m < s.len() - 1 {
        lemma_sum_term_bound(s.drop_last(), m);
    } else {
        lemma_sum_nonneg(s.drop_last());
    }
}

proof fn lemma_sum_nonneg(s: Seq<int>)
    requires
        forall|i: int| 0 <= i < s.len() ==> s[i] >= 0,
    ensures
        sum_of(s) >= 0,
    decreases s.len(),
{
    if s.len() > 0 {
        lemma_sum_nonneg(s.drop_last());
    }
}

proof fn lemma_sum_remove(s: Seq<int>, m: int)
    requires
        0 <= m < s.len(),
    ensures
        sum_of(s) == sum_of(s.remove(m)) + s[m],
    decreases s.len(),
{
    if m < s.len() - 1 {
        lemma_sum_remove(s.drop_last(), m);
        assert(s.remove(m).drop_last() =~= s.drop_last().remove(m));
        assert(s.remove(m).last() == s.last());
    } else {
        assert(s.remove(m) =~= s.drop_last());
    }
}

/// Reordering by a permutation keeps the sum.
pub proof fn lemma_sum_permuted(vals: Seq<int>, p: Seq<int>)
    requires
        p.len() == vals.len(),
        forall|k: int| 0 <= k < p.len() ==> 0 <= #[trigger] p[k] < vals.len(),
        forall|a: int, b: int| 0 <= a < b < p.len() ==> #[trigger] p[a] != #[trigger] p[b],
        forall|i: int| 0 <= i < vals.len() ==> #[trigger] p.contains(i),
    ensures
        sum_of(Seq::new(p.len(), |k: int| vals[p[k]])) == sum_of(vals),
    decreases vals.len(),
{
    let n = vals.len() as int;
    let permuted = Seq::new(p.len(), |k: int| vals[p[k]]);
    if n == 0 {
        assert(permuted =~= Seq::<int>::empty());
    } else {
        assert(p.contains(n - 1));
        let m = choose|m: int| 0 <= m < p.len() && p[m] == n - 1;
        let q = p.remove(m);
        let rest = vals.drop_last();
        assert forall|k: int| 0 <= k < q.len() implies 0 <= #[trigger] q[k] < rest.len() by {
            if k < m {
                assert(q[k] == p[k]);
                assert(p[k] != p[m]);
            } else {
                assert(q[k] == p[k + 1]);
                assert(p[m] != p[k + 1]);
            }
        }
        assert forall|a: int, b: int| 0 <= a < b < q.len() implies #[trigger] q[a] != #[trigger] q[b] by {
            let pa = if a < m { a } else { a + 1 };
            let pb = if b < m { b } else { b + 1 };
            assert(q[a] == p[pa]);
            assert(q[b] == p[pb]);
        }
        assert forall|i: int| 0 <= i < rest.len() implies #[trigger] q.contains(i) by {
            assert(p.contains(i));
            let k = choose|k: int| 0 <= k < p.len() && p[k] == i;
            assert(k != m);
            if k < m {
                assert(q[k] == i);
            } else {
                assert(q[k - 1] == i);
            }
        }
        lemma_sum_permuted(rest, q);
        lemma_sum_remove(permuted, m);
        assert(permuted.remove(m) =~= Seq::new(q.len(), |k: int| rest[q[k]]));
        assert(sum_of(vals) == sum_of(rest) + vals[n - 1]);
    }
}

/// Arranging rows by their ranking keeps the sum of any per-row quantity.
pub proof fn lemma_arranged_sum<V>(
    rows: Seq<V>,
    keys: Seq<(int, Seq<u8>, Seq<u8>)>,
    desc: bool,
    f: spec_fn(V) -> int,
)
    requires
        keys.len() == rows.len(),
    ensures
        sum_of(Seq::new(rows.len(), |k: int| f(arranged(rows, ranking(keys), desc)[k]))) == sum_of(
            Seq::new(rows.len(), |i: int| f(rows[i])),
        ),
{
    lemma_ranking_exists(keys);
    let p = ranking(keys);
    let n = rows.len() as int;
    let vals = Seq::new(rows.len(), |i: int| f(rows[i]));
    let q = if desc { p.reverse() } else { p };
    assert forall|a: int, b: int| 0 <= a < b < n implies #[trigger] p[a] != #[trigger] p[b] by {
        assert(ranks_before(keys, p[a], p[b]));
        lemma_ranks_before_irreflexive(keys, p[a]);
    }
    assert forall|a: int, b: int| 0 <= a < b < n implies #[trigger] q[a] != #[trigger] q[b] by {
        if desc {
            assert(q[a] == p[n - 1 - a]);
            assert(q[b] == p[n - 1 - b]);
            assert(p[n - 1 - b] != p[n - 1 - a]);
        }
    }
    assert forall|k: int| 0 <= k < n implies 0 <= #[trigger] q[k] < n by {
        if desc {
            assert(q[k] == p[n - 1 - k]);
        }
    }
    assert forall|i: int| 0 <= i < n implies #[trigger] q.contains(i) by {
        assert(p.contains(i));
        let k = choose|k: int| 0 <= k < p.len() && p[k] == i;
        if desc {
            assert(q[n - 1 - k] == i);
        }
    }
    lemma_sum_permuted(vals, q);
    assert(Seq::new(rows.len(), |k: int| f(arranged(rows, p, desc)[k])) =~= Seq::new(
        q.len(),
        |k: int| vals[q[k]],
    ));
}

/// Copies of `rows` in the order of the positions `p`, reversed when `desc`.
pub fn arrange<R: Duplicate>(rows: &Vec<R>, p: &Vec<usize>, desc: bool) -> (out: Vec<R>)
    requires
        forall|k: int| 0 <= k < p@.len() ==> #[trigger] p@[k] < rows@.len(),
    ensures
        views(out@) == arranged(views(rows@), positions(p@), desc),
{
    let ghost target = arranged(views(rows@), positions(p@), desc);
    let mut out: Vec<R> = Vec::new();
    let n = p.len();
    let mut k: usize = 0;
    while k < n
        invariant
            n == p@.len(),
            k <= n,
            forall|m: int| 0 <= m < p@.len() ==> #[trigger] p@[m] < rows@.len(),
            target == arranged(views(rows@), positions(p@), desc),
            target.len() == n,
            out@.len() == k,
            forall|m: int| 0 <= m < k ==> #[trigger] out@[m]@ == target[m],
        decreases n - k,
    {
        let at = if desc { p[n - 1 - k] } else { p[k] };
        out.push(rows[at].duplicate());
        k = k + 1;
    }
    assert(views(out@) =~= target);
    out
}

} // verus!
