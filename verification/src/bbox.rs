//! Bbox-clipped object-index sets and the together-counts recomputed from
//! them. Clipping the postings against the box is the sidecar's work; what
//! is counted here is how many entities two clipped sets share.

use vstd::prelude::*;

verus! {

/// Every entry is smaller than the next: ascending and deduplicated.
pub open spec fn strictly_increasing(s: Seq<u64>) -> bool {
    forall|i: int, j: int| 0 <= i < j < s.len() ==> #[trigger] s[i] < #[trigger] s[j]
}

/// How many entries of `a` also occur in `b`.
pub open spec fn common_count(a: Seq<u64>, b: Seq<u64>) -> nat
    decreases a.len(),
{
    if a.len() == 0 {
        0
    } else {
        common_count(a.drop_last(), b) + if b.contains(a.last()) {
            1nat
        } else {
            0nat
        }
    }
}

proof fn lemma_common_count_le(a: Seq<u64>, b: Seq<u64>)
    ensures
        common_count(a, b) <= a.len(),
    decreases a.len(),
{
    if a.len() > 0 {
        lemma_common_count_le(a.drop_last(), b);
    }
}

proof fn lemma_common_count_step(a: Seq<u64>, b: Seq<u64>, i: int)
    requires
        0 <= i < a.len(),
    ensures
        common_count(a.take(i + 1), b) == common_count(a.take(i), b) + if b.contains(a[i]) {
            1nat
        } else {
            0nat
        },
{
    assert(a.take(i + 1).drop_last() =~= a.take(i));
}

proof fn lemma_common_count_push(a: Seq<u64>, b: Seq<u64>, x: u64)
    requires
        strictly_increasing(a),
        !b.contains(x),
    ensures
        common_count(a, b.push(x)) == common_count(a, b) + if a.contains(x) {
            1nat
        } else {
            0nat
        },
    decreases a.len(),
{
    if a.len() > 0 {
        let y = a.last();
        let rest = a.drop_last();
        assert(strictly_increasing(rest));
        lemma_common_count_push(rest, b, x);
        assert(b.push(x).contains(y) == (b.contains(y) || y == x)) by {
            if b.push(x).contains(y) {
                let k = choose|k: int| 0 <= k < b.push(x).len() && b.push(x)[k] == y;
                if k < b.len() {
                    assert(b[k] == y);
                }
            }
            if b.contains(y) {
                let k = choose|k: int| 0 <= k < b.len() && b[k] == y;
                assert(b.push(x)[k] == y);
            }
            if y == x {
                assert(b.push(x)[b.len() as int] == y);
            }
        }
        assert(a.contains(x) == (rest.contains(x) || y == x)) by {
            if a.contains(x) {
                let k = choose|k: int| 0 <= k < a.len() && a[k] == x;
                if k < rest.len() {
                    assert(rest[k] == x);
                }
            }
            if rest.contains(x) {
                let k = choose|k: int| 0 <= k < rest.len() && rest[k] == x;
                assert(a[k] == x);
            }
        }
        if y == x {
            if rest.contains(x) {
                let k = choose|k: int| 0 <= k < rest.len() && rest[k] == x;
                assert(a[k] < a[a.len() - 1]);
            }
        }
    }
}

/// Counting the entries two ascending, deduplicated lists share does not
/// depend on which comes first.
pub proof fn lemma_common_count_symmetric(a: Seq<u64>, b: Seq<u64>)
    requires
        strictly_increasing(a),
        strictly_increasing(b),
    ensures
        common_count(a, b) == common_count(b, a),
    decreases b.len(),
{
    if b.len() == 0 {
        lemma_common_count_empty(a);
        assert(b =~= Seq::<u64>::empty());
    } else {
        let x = b.last();
        let rest = b.drop_last();
        assert(strictly_increasing(rest));
        assert(!rest.contains(x)) by {
            if rest.contains(x) {
                let k = choose|k: int| 0 <= k < rest.len() && rest[k] == x;
                assert(b[k] < b[b.len() - 1]);
            }
        }
        lemma_common_count_symmetric(a, rest);
        assert(rest.push(x) =~= b);
        lemma_common_count_push(a, rest, x);
        assert(common_count(a, b) == common_count(a, rest) + if a.contains(x) { 1nat } else { 0nat });
        assert(common_count(b, a) == common_count(rest, a) + if a.contains(x) { 1nat } else { 0nat });
    }
}

proof fn lemma_common_count_empty(a: Seq<u64>)
    ensures
        common_count(a, Seq::empty()) == 0,
    decreases a.len(),
{
    if a.len() > 0 {
        lemma_common_count_empty(a.drop_last());
    }
}

/// The together-count of two clipped set triples is the same either way
/// round, and at most either side's object count, so both fractions built
/// on it stay within `[0, 1]`.
pub proof fn lemma_together_symmetric_and_bounded(
    a: (Seq<u64>, Seq<u64>, Seq<u64>),
    b: (Seq<u64>, Seq<u64>, Seq<u64>),
)
    requires
        clipped_wf(a.0, a.1, a.2),
        clipped_wf(b.0, b.1, b.2),
    ensures
        together_spec(a, b) == together_spec(b, a),
        0 <= together_spec(a, b) <= a.0.len() + a.1.len() + a.2.len(),
        together_spec(a, b) <= b.0.len() + b.1.len() + b.2.len(),
{
    lemma_common_count_symmetric(a.0, b.0);
    lemma_common_count_symmetric(a.1, b.1);
    lemma_common_count_symmetric(a.2, b.2);
    lemma_common_count_le(a.0, b.0);
    lemma_common_count_le(a.1, b.1);
    lemma_common_count_le(a.2, b.2);
    lemma_common_count_le(b.0, a.0);
    lemma_common_count_le(b.1, a.1);
    lemma_common_count_le(b.2, a.2);
}

/// Entries of `a` from position `i` on lie above all of `b`, so they add
/// nothing to the common count.
proof fn lemma_common_count_above(a: Seq<u64>, b: Seq<u64>, i: int, k: int)
    requires
        0 <= i <= k <= a.len(),
        i < a.len(),
        strictly_increasing(a),
        forall|m: int| 0 <= m < b.len() ==> #[trigger] b[m] < a[i],
    ensures
        common_count(a.take(k), b) == common_count(a.take(i), b),
    decreases k - i,
{
    if k > i {
        lemma_common_count_above(a, b, i, k - 1);
        lemma_common_count_step(a, b, k - 1);
        if b.contains(a[k - 1]) {
            let m = choose|m: int| 0 <= m < b.len() && b[m] == a[k - 1];
            assert(b[m] < a[i]);
            if k - 1 > i {
                assert(a[i] < a[k - 1]);
            }
        }
    }
}

/// `|a ∩ b|` for two ascending, deduplicated lists, by a two-pointer merge
/// in `O(len a + len b)`.
fn intersect_count(a: &Vec<u64>, b: &Vec<u64>) -> (n: u64)
    requires
        strictly_increasing(a@),
        strictly_increasing(b@),
    ensures
        n == common_count(a@, b@),
{
    let mut i: usize = 0;
    let mut j: usize = 0;
    let mut n: u64 = 0;
    proof {
        lemma_common_count_le(a@, b@);
    }
    while i < a.len() && j < b.len()
        invariant
            strictly_increasing(a@),
            strictly_increasing(b@),
            i <= a@.len(),
            j <= b@.len(),
            n == common_count(a@.take(i as int), b@),
            n <= i,
            forall|m: int| 0 <= m < j ==> i < a@.len() ==> #[trigger] b@[m] < a@[i as int],
        decreases a@.len() + b@.len() - i - j,
    {
        proof {
            lemma_common_count_step(a@, b@, i as int);
        }
        if a[i] < b[j] {
            proof {
                if b@.contains(a@[i as int]) {
                    let m = choose|m: int| 0 <= m < b@.len() && b@[m] == a@[i as int];
                    if m < j {
                    } else if m > j {
                        assert(b@[j as int] < b@[m]);
                    }
                }
            }
            i = i + 1;
            proof {
                assert forall|m: int| 0 <= m < j && i < a@.len() implies #[trigger] b@[m] < a@[i as int] by {
                    assert(b@[m] < a@[i - 1]);
                    assert(a@[i - 1] < a@[i as int]);
                }
            }
        } else if a[i] > b[j] {
            j = j + 1;
        } else {
            assert(b@.contains(a@[i as int])) by {
                assert(b@[j as int] == a@[i as int]);
            }
            n = n + 1;
            i = i + 1;
            j = j + 1;
            proof {
                assert forall|m: int| 0 <= m < j && i < a@.len() implies #[trigger] b@[m] < a@[i as int] by {
                    if m < j - 1 {
                        assert(b@[m] < a@[i - 1]);
                    }
                    assert(a@[i - 1] < a@[i as int]);
                }
            }
        }
    }
    proof {
        if i < a@.len() {
            lemma_common_count_above(a@, b@, i as int, a@.len() as int);
        }
        assert(a@.take(a@.len() as int) =~= a@);
    }
    n
}

/// Bbox-clipped postings for one `(key, value)`, one sorted list per type.
pub struct ValueBboxIndices {
    pub nodes: Vec<u64>,
    pub ways: Vec<u64>,
    pub relations: Vec<u64>,
}

/// A key's bbox-clipped object-index sets, one ascending and deduplicated
/// list per type.
pub struct KeyBboxIndices {
    pub nodes: Vec<u64>,
    pub ways: Vec<u64>,
    pub relations: Vec<u64>,
}

/// Three lists are ascending and deduplicated, and their lengths add up
/// within a `usize`.
pub open spec fn clipped_wf(nodes: Seq<u64>, ways: Seq<u64>, relations: Seq<u64>) -> bool {
    &&& strictly_increasing(nodes)
    &&& strictly_increasing(ways)
    &&& strictly_increasing(relations)
    &&& nodes.len() + ways.len() + relations.len() <= usize::MAX
}

/// How many entities two clipped set triples share, type by type.
pub open spec fn together_spec(
    a: (Seq<u64>, Seq<u64>, Seq<u64>),
    b: (Seq<u64>, Seq<u64>, Seq<u64>),
) -> int {
    (common_count(a.0, b.0) + common_count(a.1, b.1) + common_count(a.2, b.2)) as int
}

fn check_increasing(s: &Vec<u64>) -> (r: bool)
    ensures
        r == strictly_increasing(s@),
{
    let mut i: usize = 1;
    if s.len() == 0 {
        return true;
    }
    while i < s.len()
        invariant
            1 <= i <= s@.len(),
            forall|x: int, y: int| 0 <= x < y < i ==> #[trigger] s@[x] < #[trigger] s@[y],
        decreases s@.len() - i,
    {
        if s[i - 1] >= s[i] {
            return false;
        }
        proof {
            assert forall|x: int, y: int| 0 <= x < y < i + 1 implies #[trigger] s@[x] < #[trigger] s@[y] by {
                if y == i && x < i - 1 {
                    assert(s@[x] < s@[i - 1]);
                }
            }
        }
        i = i + 1;
    }
    true
}

fn lengths_fit(a: usize, b: usize, c: usize) -> (r: bool)
    ensures
        r == (a + b + c <= usize::MAX),
{
    match a.checked_add(b) {
        Some(ab) => ab.checked_add(c).is_some(),
        None => false,
    }
}

impl ValueBboxIndices {
    /// The three lists as sequences.
    pub open spec fn lists(&self) -> (Seq<u64>, Seq<u64>, Seq<u64>) {
        (self.nodes@, self.ways@, self.relations@)
    }

    /// Ascending, deduplicated lists whose lengths add up within a `usize`.
    pub open spec fn wf(&self) -> bool {
        clipped_wf(self.nodes@, self.ways@, self.relations@)
    }

    /// Whether the lists are ascending and deduplicated and their lengths add
    /// up within a `usize`.
    pub fn is_well_formed(&self) -> (r: bool)
        ensures
            r == self.wf(),
    {
        check_increasing(&self.nodes) && check_increasing(&self.ways) && check_increasing(
            &self.relations,
        ) && lengths_fit(self.nodes.len(), self.ways.len(), self.relations.len())
    }

    /// Objects in scope for this tag (the `to_fraction`/`from_fraction`
    /// denominator).
    pub fn total(&self) -> (t: u64)
        requires
            self.nodes@.len() + self.ways@.len() + self.relations@.len() <= usize::MAX,
        ensures
            t == self.nodes@.len() + self.ways@.len() + self.relations@.len(),
    {
        (self.nodes.len() + self.ways.len() + self.relations.len()) as u64
    }
}

impl KeyBboxIndices {
    /// The three lists as sequences.
    pub open spec fn lists(&self) -> (Seq<u64>, Seq<u64>, Seq<u64>) {
        (self.nodes@, self.ways@, self.relations@)
    }

    /// Ascending, deduplicated lists whose lengths add up within a `usize`.
    pub open spec fn wf(&self) -> bool {
        clipped_wf(self.nodes@, self.ways@, self.relations@)
    }

    /// Whether the lists are ascending and deduplicated and their lengths add
    /// up within a `usize`.
    pub fn is_well_formed(&self) -> (r: bool)
        ensures
            r == self.wf(),
    {
        check_increasing(&self.nodes) && check_increasing(&self.ways) && check_increasing(
            &self.relations,
        ) && lengths_fit(self.nodes.len(), self.ways.len(), self.relations.len())
    }

    /// Total objects in scope for this key (the `to_fraction`/`from_fraction`
    /// denominator).
    pub fn total(&self) -> (t: u64)
        requires
            self.nodes@.len() + self.ways@.len() + self.relations@.len() <= usize::MAX,
        ensures
            t == self.nodes@.len() + self.ways@.len() + self.relations@.len(),
    {
        (self.nodes.len() + self.ways.len() + self.relations.len()) as u64
    }
}

fn together_of(
    an: &Vec<u64>,
    aw: &Vec<u64>,
    ar: &Vec<u64>,
    bn: &Vec<u64>,
    bw: &Vec<u64>,
    br: &Vec<u64>,
) -> (n: u64)
    requires
        clipped_wf(an@, aw@, ar@),
        clipped_wf(bn@, bw@, br@),
    ensures
        n == together_spec((an@, aw@, ar@), (bn@, bw@, br@)),
{
    proof {
        lemma_common_count_le(an@, bn@);
        lemma_common_count_le(aw@, bw@);
        lemma_common_count_le(ar@, br@);
    }
    intersect_count(an, bn) + intersect_count(aw, bw) + intersect_count(ar, br)
}

/// Together-count for two specific tags, bbox-clipped: entities carrying both
/// `(key, value)` tags, restricted per type since an entity's type must match
/// on both sides to co-occur.
pub fn tag_together_count_in_bbox(a: &ValueBboxIndices, b: &ValueBboxIndices) -> (n: u64)
    requires
        a.wf(),
        b.wf(),
    ensures
        n == together_spec(a.lists(), b.lists()),
{
    together_of(&a.nodes, &a.ways, &a.relations, &b.nodes, &b.ways, &b.relations)
}

/// Together-count for two keys, bbox-clipped: entities carrying both keys
/// (with any value), restricted per type.
pub fn key_together_count_in_bbox(a: &KeyBboxIndices, b: &KeyBboxIndices) -> (n: u64)
    requires
        a.wf(),
        b.wf(),
    ensures
        n == together_spec(a.lists(), b.lists()),
{
    together_of(&a.nodes, &a.ways, &a.relations, &b.nodes, &b.ways, &b.relations)
}

} // verus!
