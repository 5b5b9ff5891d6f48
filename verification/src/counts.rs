//! Per-type object counts, the fraction denominators, and taginfo's 4-place
//! fractions.

use vstd::prelude::*;
use osmflat::Osm;
use crate::archive::object_counts;

verus! {

/// Per-type object counts for one key, one tag or one scope.
#[derive(Clone, Copy, Debug, PartialEq, Eq, Structural)]
pub struct TypeCounts {
    pub nodes: u64,
    pub ways: u64,
    pub relations: u64,
}

impl TypeCounts {
    /// Objects of every type together.
    pub open spec fn spec_all(self) -> int {
        self.nodes + self.ways + self.relations
    }

    /// The counts add up without leaving `u64`.
    pub open spec fn fits(self) -> bool {
        self.spec_all() <= u64::MAX
    }
}

/// `nodes + ways + relations`.
pub fn count_all(c: &TypeCounts) -> (n: u64)
    requires
        c.fits(),
    ensures
        n == c.spec_all(),
{
    c.nodes + c.ways + c.relations
}

/// A fraction rounded to four decimal places, held exactly as a whole
/// number of ten-thousandths (`0.2200` is `2200`).
#[derive(Clone, Copy, Debug, PartialEq, Eq, Structural)]
pub struct Fraction {
    pub ten_thousandths: u128,
}

/// `count / total` in ten-thousandths, rounded half up; 0 when `total` is 0.
pub open spec fn fraction_ticks(count: int, total: int) -> int {
    if total == 0 {
        0
    } else {
        (20000 * count + total) / (2 * total)
    }
}

/// Over one denominator, a larger count never gets a smaller fraction, and
/// a count within a `u64` gets a fraction within a `u128`.
pub proof fn lemma_fraction_monotone(a: int, b: int, total: int)
    requires
        0 <= a <= b,
        0 <= total,
    ensures
        fraction_ticks(a, total) <= fraction_ticks(b, total),
        0 <= fraction_ticks(a, total),
        b <= u64::MAX ==> fraction_ticks(b, total) <= u128::MAX,
{
    if total > 0 {
        let d = 2 * total;
        vstd::arithmetic::div_mod::lemma_div_is_ordered(20000 * a + total, 20000 * b + total, d);
        let n = 20000 * b + total;
        let t = n / d;
        assert(0 <= t <= n) by (nonlinear_arith)
            requires t == n / d, d >= 2, n >= 0;
        vstd::arithmetic::div_mod::lemma_div_pos_is_pos(20000 * a + total, d);
        if b <= u64::MAX && total > u64::MAX {
            assert(t <= 10000) by (nonlinear_arith)
                requires t == n / d, d == 2 * total, n == 20000 * b + total, b <= total, total > 0;
        }
    }
}

/// A fraction is `count / total` to the nearest ten-thousandth (ties
/// rounding up), it lies in `[0, 1]` when `count <= total`, a whole
/// denominator gives exactly 1, no count gives 0, and an empty denominator
/// gives 0.
pub proof fn lemma_fraction_rounds(count: int, total: int)
    requires
        0 <= count,
        0 <= total,
    ensures
        total == 0 ==> fraction_ticks(count, total) == 0,
        total > 0 ==> 2 * (10000 * count - fraction_ticks(count, total) * total) < total,
        total > 0 ==> 2 * (fraction_ticks(count, total) * total - 10000 * count) <= total,
        total > 0 && count <= total ==> 0 <= fraction_ticks(count, total) <= 10000,
        total > 0 && count == total ==> fraction_ticks(count, total) == 10000,
        count == 0 ==> fraction_ticks(count, total) == 0,
{
    if total > 0 {
        let t = fraction_ticks(count, total);
        let n = 20000 * count + total;
        let d = 2 * total;
        assert(t == n / d);
        assert(t * d <= n < t * d + d) by (nonlinear_arith)
            requires t == n / d, d > 0;
        assert(t >= 0) by (nonlinear_arith)
            requires t == n / d, d > 0, n >= 0;
        assert(t * d == 2 * (t * total)) by (nonlinear_arith)
            requires d == 2 * total;
        if count <= total {
            assert(t <= 10000) by (nonlinear_arith)
                requires t * d <= n, d == 2 * total, n == 20000 * count + total, count <= total, total > 0;
        }
        if count == total {
            assert(t == 10000) by (nonlinear_arith)
                requires t * d <= n < t * d + d, d == 2 * total, n == 20000 * count + total, count == total, total > 0;
        }
        if count == 0 {
            assert(t == 0) by (nonlinear_arith)
                requires t * d <= n < t * d + d, d == 2 * total, n == 20000 * count + total, count == 0, total > 0;
        }
    }
}

/// `count / total` rounded to four decimal places (taginfo's precision), and
/// 0 for an empty denominator.
pub fn fraction(count: u64, total: u64) -> (f: Fraction)
    ensures
        f.ten_thousandths == fraction_ticks(count as int, total as int),
{
    if total == 0 {
        return Fraction { ten_thousandths: 0 };
    }
    let num: u128 = 20000u128 * (count as u128) + (total as u128);
    let den: u128 = 2u128 * (total as u128);
    let q: u128 = num / den;
    Fraction { ten_thousandths: q }
}

/// The fraction denominators: per-type object counts in scope (the whole
/// archive, or what overlaps the bbox) and their sum.
#[derive(Clone, Copy, Debug, PartialEq, Eq, Structural)]
pub struct Totals {
    pub nodes: u64,
    pub ways: u64,
    pub relations: u64,
    pub objects: u64,
}

impl Totals {
    /// `objects` is the sum of the three per-type counts.
    pub open spec fn wf(self) -> bool {
        self.objects == self.nodes + self.ways + self.relations
    }

    /// The parent archive's own counts: its node, way and relation table
    /// lengths, each in its own field (a node record is 13 bytes, a way 10,
    /// a relation 5, and no table spans more than `isize::MAX` bytes).
    pub fn of(parent: &Osm) -> (t: Totals)
        ensures
            t.wf(),
            t.objects <= isize::MAX,
            t.nodes * 13 <= isize::MAX,
            t.ways * 10 <= isize::MAX,
            t.relations * 5 <= isize::MAX,
    {
        let (nodes, ways, relations) = object_counts(parent);
        Totals { nodes, ways, relations, objects: nodes + ways + relations }
    }

    /// The counts of what overlaps a bbox.
    pub fn of_clip(clip_totals: &TypeCounts) -> (t: Totals)
        requires
            clip_totals.fits(),
        ensures
            t.wf(),
            t.nodes == clip_totals.nodes,
            t.ways == clip_totals.ways,
            t.relations == clip_totals.relations,
    {
        let nodes = clip_totals.nodes;
        let ways = clip_totals.ways;
        let relations = clip_totals.relations;
        Totals { nodes, ways, relations, objects: nodes + ways + relations }
    }
}

/// A key's object counts and distinct-value total in scope.
#[derive(Clone, Copy, Debug, PartialEq, Eq, Structural)]
pub struct KeySummary {
    pub counts: TypeCounts,
    /// Distinct values with at least one occurrence in scope.
    pub distinct_values: u64,
}

/// Per-type distinct-value tallies of one key: how many of its values occur
/// on at least one node, way, relation, and object of any type.
#[derive(Clone, Copy, Debug, PartialEq, Eq, Structural)]
pub struct ValueTallies {
    pub nodes: u64,
    pub ways: u64,
    pub relations: u64,
    pub any: u64,
}

/// Which object types one value occurs on (its postings lists that are not
/// empty).
#[derive(Clone, Copy, Debug, PartialEq, Eq, Structural)]
pub struct ValuePresence {
    pub nodes: bool,
    pub ways: bool,
    pub relations: bool,
}

/// Which object types a tally counts: nodes, ways, relations, or any.
#[derive(Clone, Copy, Debug, PartialEq, Eq, Structural)]
pub enum TallyOf {
    Nodes,
    Ways,
    Relations,
    Any,
}

/// Whether a value counts for a tally.
pub open spec fn counts_for(v: ValuePresence, which: TallyOf) -> bool {
    match which {
        TallyOf::Nodes => v.nodes,
        TallyOf::Ways => v.ways,
        TallyOf::Relations => v.relations,
        TallyOf::Any => v.nodes || v.ways || v.relations,
    }
}

/// How many of `values` count for the tally `which`.
pub open spec fn count_where(values: Seq<ValuePresence>, which: TallyOf) -> nat
    decreases values.len(),
{
    if values.len() == 0 {
        0
    } else {
        count_where(values.drop_last(), which) + if counts_for(values.last(), which) {
            1nat
        } else {
            0nat
        }
    }
}

/// The tallies of a key's values, archive-wide: a value counts for a type
/// when its postings list of that type is not empty.
pub fn tally_values(values: &Vec<ValuePresence>) -> (t: ValueTallies)
    ensures
        t.nodes == count_where(values@, TallyOf::Nodes),
        t.ways == count_where(values@, TallyOf::Ways),
        t.relations == count_where(values@, TallyOf::Relations),
        t.any == count_where(values@, TallyOf::Any),
{
    let mut t = ValueTallies { nodes: 0, ways: 0, relations: 0, any: 0 };
    let mut i: usize = 0;
    while i < values.len()
        invariant
            i <= values@.len(),
            t.nodes == count_where(values@.take(i as int), TallyOf::Nodes),
            t.ways == count_where(values@.take(i as int), TallyOf::Ways),
            t.relations == count_where(values@.take(i as int), TallyOf::Relations),
            t.any == count_where(values@.take(i as int), TallyOf::Any),
            t.nodes <= i && t.ways <= i && t.relations <= i && t.any <= i,
        decreases values@.len() - i,
    {
        let v = values[i];
        proof {
            assert(values@.take(i + 1).drop_last() =~= values@.take(i as int));
            assert(values@.take(i + 1).last() == v);
        }
        if v.nodes {
            t.nodes = t.nodes + 1;
        }
        if v.ways {
            t.ways = t.ways + 1;
        }
        if v.relations {
            t.relations = t.relations + 1;
        }
        if v.nodes || v.ways || v.relations {
            t.any = t.any + 1;
        }
        i = i + 1;
    }
    assert(values@.take(values@.len() as int) =~= values@);
    t
}

} // verus!
