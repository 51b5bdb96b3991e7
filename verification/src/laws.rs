//! Laws of the library, proved from the public specifications.
use vstd::prelude::*;
use crate::decode::parses_float;
use crate::exporter::{clamp_i64, count_sum, cycle_fold};
use crate::gauges::{counted_keys, eligible, prefixed_eligible};
use crate::tree::{flat_map_of, LeafV, Tree};

verus! {

/// Flattening is a pure function of the tree: flattening the same tree a
/// second time yields an identical flat map, with no dependence on the
/// order the entries were produced in.
pub proof fn lemma_flatten_deterministic(
    t: Tree,
    m1: Map<Seq<char>, LeafV>,
    m2: Map<Seq<char>, LeafV>,
)
    requires
        m1 == flat_map_of(t),
        m2 == flat_map_of(t),
    ensures
        m1 == m2,
{
}

/// A collector driven through one whole cycle — total zeroed, then one
/// ingest per fetched source, then published — reports exactly the sum of
/// the per-source reconcile counts whenever that sum fits the gauge's
/// range. A source that fails to fetch contributes no count, so it leaves
/// the published total untouched, however many sources fail.
pub proof fn lemma_cycle_publishes_sum(counts: Seq<u64>)
    requires
        count_sum(counts) <= i64::MAX as u64,
    ensures
        cycle_fold(counts) == count_sum(counts),
        clamp_i64(cycle_fold(counts)) == count_sum(counts),
    decreases counts.len(),
{
    if counts.len() == 0 {
    } else {
        assert(count_sum(counts.drop_last()) >= 0) by {
            lemma_count_sum_nonneg(counts.drop_last());
        }
        lemma_cycle_publishes_sum(counts.drop_last());
    }
}

/// A cycle's count sum is never negative.
proof fn lemma_count_sum_nonneg(counts: Seq<u64>)
    ensures
        count_sum(counts) >= 0,
    decreases counts.len(),
{
    if counts.len() > 0 {
        lemma_count_sum_nonneg(counts.drop_last());
    }
}

/// An ignored key is not eligible and is never counted, whatever value it
/// holds and whatever gauges exist.
pub proof fn lemma_ignored_key_excluded(
    m: Map<Seq<char>, LeafV>,
    ig: Seq<Seq<char>>,
    prefix: Seq<char>,
    names: Set<Seq<char>>,
    k: Seq<char>,
)
    requires
        ig.contains(k),
    ensures
        !eligible(m, ig, k),
        !counted_keys(m, ig, prefix, names).contains(k),
{
}

/// A key holding a string that does not parse as a number contributes no
/// gauge update.
pub proof fn lemma_non_numeric_excluded(
    m: Map<Seq<char>, LeafV>,
    ig: Seq<Seq<char>>,
    prefix: Seq<char>,
    names: Set<Seq<char>>,
    k: Seq<char>,
    s: Seq<char>,
)
    requires
        m.dom().contains(k),
        m[k] == LeafV::Str(s),
        !parses_float(s),
    ensures
        !eligible(m, ig, k),
        !counted_keys(m, ig, prefix, names).contains(k),
{
}

/// When every eligible key's metric name already owns a gauge, a
/// reconciliation bounded by the reconciler's contract registers nothing:
/// the set of gauge names afterwards is exactly what it was before.
pub proof fn lemma_gauge_reuse(
    m: Map<Seq<char>, LeafV>,
    ig: Seq<Seq<char>>,
    prefix: Seq<char>,
    names0: Set<Seq<char>>,
    names1: Set<Seq<char>>,
)
    requires
        prefixed_eligible(m, ig, prefix).subset_of(names0),
        names0.subset_of(names1),
        names1.subset_of(names0.union(prefixed_eligible(m, ig, prefix))),
    ensures
        names1 == names0,
{
    assert(names1 =~= names0);
}

} // verus!
