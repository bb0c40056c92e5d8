//! Summing code metrics, the net-contribution sign, and the synthetic
//! per-index metrics of the detailed listing.

use vstd::prelude::*;
use crate::data::CodeMetrics;

verus! {

/// The sum of `f` over the triples of `s`.
pub open spec fn sum_by(s: Seq<CodeMetrics>, f: spec_fn(CodeMetrics) -> int) -> int
    decreases s.len(),
{
    if s.len() == 0 {
        0
    } else {
        sum_by(s.drop_last(), f) + f(s.last())
    }
}

/// Total lines added over a listing.
pub open spec fn sum_additions(s: Seq<CodeMetrics>) -> int {
    sum_by(s, |m: CodeMetrics| m.additions as int)
}

/// Total lines deleted over a listing.
pub open spec fn sum_deletions(s: Seq<CodeMetrics>) -> int {
    sum_by(s, |m: CodeMetrics| m.deletions as int)
}

/// Total files changed over a listing.
pub open spec fn sum_changed_files(s: Seq<CodeMetrics>) -> int {
    sum_by(s, |m: CodeMetrics| m.changed_files as int)
}

proof fn lemma_sum_by_remove(s: Seq<CodeMetrics>, i: int, f: spec_fn(CodeMetrics) -> int)
    requires
        0 <= i < s.len(),
    ensures
        sum_by(s.remove(i), f) == sum_by(s, f) - f(s[i]),
    decreases s.len(),
{
    if i == s.len() - 1 {
        assert(s.remove(i) =~= s.drop_last());
    } else {
        assert(s.remove(i).drop_last() =~= s.drop_last().remove(i));
        assert(s.remove(i).last() == s.last());
        lemma_sum_by_remove(s.drop_last(), i, f);
        assert(s.drop_last()[i] == s[i]);
    }
}

proof fn lemma_sum_by_permutation(
    s1: Seq<CodeMetrics>,
    s2: Seq<CodeMetrics>,
    f: spec_fn(CodeMetrics) -> int,
)
    requires
        s1.to_multiset() == s2.to_multiset(),
    ensures
        sum_by(s1, f) == sum_by(s2, f),
    decreases s1.len(),
{
    s1.to_multiset_ensures();
    s2.to_multiset_ensures();
    if s1.len() == 0 {
        assert(s2.to_multiset().len() == 0);
        assert(s2.len() == 0);
    } else {
        let a = s1.last();
        assert(s1.contains(a));
        assert(s2.to_multiset().count(a) > 0);
        assert(s2.contains(a));
        let i = choose|i: int| 0 <= i < s2.len() && s2[i] == a;
        lemma_sum_by_remove(s2, i, f);
        assert(s1.drop_last() =~= s1.remove(s1.len() - 1));
        assert(s1.remove(s1.len() - 1).to_multiset() =~= s1.to_multiset().remove(a));
        assert(s2.remove(i).to_multiset() =~= s2.to_multiset().remove(a));
        lemma_sum_by_permutation(s1.drop_last(), s2.remove(i), f);
    }
}

proof fn lemma_sum_by_concat(
    s1: Seq<CodeMetrics>,
    s2: Seq<CodeMetrics>,
    f: spec_fn(CodeMetrics) -> int,
)
    ensures
        sum_by(s1 + s2, f) == sum_by(s1, f) + sum_by(s2, f),
    decreases s2.len(),
{
    if s2.len() == 0 {
        assert(s1 + s2 =~= s1);
    } else {
        assert((s1 + s2).drop_last() =~= s1 + s2.drop_last());
        assert((s1 + s2).last() == s2.last());
        lemma_sum_by_concat(s1, s2.drop_last(), f);
    }
}

/// Metrics totals are order-independent: two listings holding the same
/// triples, multiplicity included, have the same total additions, deletions
/// and changed files, whatever order the entries come in.
pub proof fn lemma_totals_order_independent(s1: Seq<CodeMetrics>, s2: Seq<CodeMetrics>)
    requires
        s1.to_multiset() == s2.to_multiset(),
    ensures
        sum_additions(s1) == sum_additions(s2),
        sum_deletions(s1) == sum_deletions(s2),
        sum_changed_files(s1) == sum_changed_files(s2),
{
    lemma_sum_by_permutation(s1, s2, |m: CodeMetrics| m.additions as int);
    lemma_sum_by_permutation(s1, s2, |m: CodeMetrics| m.deletions as int);
    lemma_sum_by_permutation(s1, s2, |m: CodeMetrics| m.changed_files as int);
}

/// Metrics totals are associative over splitting a listing: the totals of a
/// concatenation are the sums of the parts' totals, so entries may be summed
/// in any grouping.
pub proof fn lemma_totals_concat(s1: Seq<CodeMetrics>, s2: Seq<CodeMetrics>)
    ensures
        sum_additions(s1 + s2) == sum_additions(s1) + sum_additions(s2),
        sum_deletions(s1 + s2) == sum_deletions(s1) + sum_deletions(s2),
        sum_changed_files(s1 + s2) == sum_changed_files(s1) + sum_changed_files(s2),
{
    lemma_sum_by_concat(s1, s2, |m: CodeMetrics| m.additions as int);
    lemma_sum_by_concat(s1, s2, |m: CodeMetrics| m.deletions as int);
    lemma_sum_by_concat(s1, s2, |m: CodeMetrics| m.changed_files as int);
}

fn total_by_field(metrics: &Vec<CodeMetrics>, which: u8) -> (r: i64)
    requires
        metrics@.len() <= 0x7fff_ffff,
        which < 3,
    ensures
        which == 0 ==> r == sum_additions(metrics@),
        which == 1 ==> r == sum_deletions(metrics@),
        which == 2 ==> r == sum_changed_files(metrics@),
        -0x3fff_ffff_8000_0000 <= r <= 0x3fff_ffff_0000_0001,
{
    let ghost f: spec_fn(CodeMetrics) -> int = if which == 0 {
        |m: CodeMetrics| m.additions as int
    } else if which == 1 {
        |m: CodeMetrics| m.deletions as int
    } else {
        |m: CodeMetrics| m.changed_files as int
    };
    let n = metrics.len();
    let mut acc: i64 = 0;
    let mut i: usize = 0;
    while i < n
        invariant
            n == metrics@.len(),
            n <= 0x7fff_ffff,
            i <= n,
            which < 3,
            f == (if which == 0 {
                |m: CodeMetrics| m.additions as int
            } else if which == 1 {
                |m: CodeMetrics| m.deletions as int
            } else {
                |m: CodeMetrics| m.changed_files as int
            }),
            acc == sum_by(metrics@.take(i as int), f),
            -(i * 0x8000_0000) <= acc <= i * 0x7fff_ffff,
        decreases n - i,
    {
        let m = metrics[i];
        let v: i64 = if which == 0 {
            m.additions as i64
        } else if which == 1 {
            m.deletions as i64
        } else {
            m.changed_files as i64
        };
        proof {
            assert(v == f(metrics@[i as int]));
            assert(metrics@.take(i + 1).drop_last() =~= metrics@.take(i as int));
            assert(metrics@.take(i + 1).last() == metrics@[i as int]);
        }
        acc = acc + v;
        i = i + 1;
    }
    proof {
        assert(metrics@.take(n as int) =~= metrics@);
    }
    acc
}

/// Total lines added over `metrics`.
pub fn total_additions(metrics: &Vec<CodeMetrics>) -> (r: i64)
    requires
        metrics@.len() <= 0x7fff_ffff,
    ensures
        r == sum_additions(metrics@),
        -0x3fff_ffff_8000_0000 <= r <= 0x3fff_ffff_0000_0001,
{
    total_by_field(metrics, 0)
}

/// Total lines deleted over `metrics`.
pub fn total_deletions(metrics: &Vec<CodeMetrics>) -> (r: i64)
    requires
        metrics@.len() <= 0x7fff_ffff,
    ensures
        r == sum_deletions(metrics@),
        -0x3fff_ffff_8000_0000 <= r <= 0x3fff_ffff_0000_0001,
{
    total_by_field(metrics, 1)
}

/// Total files changed over `metrics`.
pub fn total_changed_files(metrics: &Vec<CodeMetrics>) -> (r: i64)
    requires
        metrics@.len() <= 0x7fff_ffff,
    ensures
        r == sum_changed_files(metrics@),
        -0x3fff_ffff_8000_0000 <= r <= 0x3fff_ffff_0000_0001,
{
    total_by_field(metrics, 2)
}

/// The synthetic metrics triple for the result at position `i`: a fixed
/// function of the position alone, standing in for measurements that are not
/// taken from real data.
pub fn mock_metrics(i: usize) -> (m: CodeMetrics)
    requires
        23 * i + 50 <= 0x7fff_ffff,
    ensures
        m.additions == 50 + 23 * (i as int),
        m.deletions == 20 + 7 * (i as int),
        m.changed_files == 3 + ((i as int) % 5),
{
    CodeMetrics {
        additions: (50 + i * 23) as i32,
        deletions: (20 + i * 7) as i32,
        changed_files: (3 + i % 5) as i32,
    }
}

} // verus!
