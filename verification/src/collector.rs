//! The collection run: per-probe error taxonomy and the fan-in merge
//! that isolates failing probes from healthy ones.

use vstd::prelude::*;

use crate::kernel::KernelFacts;
use crate::memory::MemoryFacts;
use crate::network::NetworkFacts;

verus! {

/// Why one probe produced no facts.
#[derive(Debug)]
pub enum CollectError {
    /// A pseudo-file could not be read.
    IOError(String),
    /// The external enumeration utility failed to run or produced
    /// unusable output.
    SubprocessError(String),
    /// Structurally malformed raw data that prevents producing any
    /// facts for the probe.
    ParseError(String),
    /// Network aggregation could not select a primary interface.
    NoPrimaryInterface,
}

/// One collector's facts document, keyed by the collector's name in the
/// merged output.
#[derive(Debug)]
pub enum FactsDoc {
    Kernel(KernelFacts),
    Memory(MemoryFacts),
    Network(NetworkFacts),
}

/// The merged document of a run: the pairs whose collector succeeded,
/// in registration order, under their collector names.
pub open spec fn merged_of(s: Seq<(String, Result<FactsDoc, CollectError>)>) -> Seq<
    (String, FactsDoc),
>
    decreases s.len(),
{
    if s.len() == 0 {
        seq![]
    } else {
        let prev = merged_of(s.drop_last());
        match s.last().1 {
            Ok(d) => prev.push((s.last().0, d)),
            Err(_) => prev,
        }
    }
}

/// Merges per-collector results into one document: a succeeding
/// collector's output is inserted under its name, a failing collector is
/// left out entirely.
pub fn merge_collected(results: Vec<(String, Result<FactsDoc, CollectError>)>) -> (r: Vec<
    (String, FactsDoc),
>)
    ensures
        r@ == merged_of(results@),
{
    let ghost orig = results@;
    let mut rest = results;
    let mut out: Vec<(String, FactsDoc)> = Vec::new();
    let ghost mut done: int = 0;
    while rest.len() > 0
        invariant
            0 <= done <= orig.len(),
            rest@ =~= orig.skip(done),
            out@ == merged_of(orig.take(done)),
        decreases rest@.len(),
    {
        let first = rest.remove(0);
        proof {
            assert(orig.skip(done).len() > 0);
            assert(first == orig[done]);
            assert(rest@ =~= orig.skip(done + 1));
            assert(orig.take(done + 1).drop_last() =~= orig.take(done));
            assert(orig.take(done + 1).last() == orig[done]);
        }
        match first {
            (nm, Ok(d)) => {
                out.push((nm, d));
            },
            (_, Err(_)) => {},
        }
        proof {
            done = done + 1;
        }
    }
    proof {
        assert(orig.take(done) =~= orig);
    }
    out
}

/// Every merged pair comes from some succeeding collector, unchanged.
pub proof fn lemma_merged_from(s: Seq<(String, Result<FactsDoc, CollectError>)>, m: int)
    requires
        0 <= m < merged_of(s).len(),
    ensures
        exists|k: int|
            0 <= k < s.len() && (#[trigger] s[k]).1 == Ok::<FactsDoc, CollectError>(
                merged_of(s)[m].1,
            ) && s[k].0 == merged_of(s)[m].0,
    decreases s.len(),
{
    let prev = merged_of(s.drop_last());
    if m < prev.len() {
        lemma_merged_from(s.drop_last(), m);
        let k = choose|k: int|
            0 <= k < s.drop_last().len() && (#[trigger] s.drop_last()[k]).1 == Ok::<
                FactsDoc,
                CollectError,
            >(merged_of(s.drop_last())[m].1) && s.drop_last()[k].0 == merged_of(s.drop_last())[m].0;
        assert(s[k] == s.drop_last()[k]);
    } else {
        assert(s.last().1 is Ok);
        assert(s[s.len() - 1] == s.last());
    }
}

/// A succeeding collector's document is present in the merged output,
/// under its name, unchanged.
pub proof fn lemma_ok_in_merged(
    s: Seq<(String, Result<FactsDoc, CollectError>)>,
    j: int,
    doc: FactsDoc,
)
    requires
        0 <= j < s.len(),
        s[j].1 == Ok::<FactsDoc, CollectError>(doc),
    ensures
        exists|m: int|
            0 <= m < merged_of(s).len() && #[trigger] merged_of(s)[m] == (s[j].0, doc),
    decreases s.len(),
{
    let prev = merged_of(s.drop_last());
    if j == s.len() - 1 {
        assert(s.last() == s[j]);
        assert(merged_of(s) == prev.push((s.last().0, doc)));
        assert(merged_of(s)[prev.len() as int] == (s[j].0, doc));
    } else {
        assert(s.drop_last()[j] == s[j]);
        lemma_ok_in_merged(s.drop_last(), j, doc);
        let m = choose|m: int|
            0 <= m < prev.len() && #[trigger] prev[m] == (s.drop_last()[j].0, doc);
        match s.last().1 {
            Ok(d) => {
                assert(merged_of(s) == prev.push((s.last().0, d)));
                assert(merged_of(s)[m] == prev[m]);
                assert(merged_of(s)[m] == (s[j].0, doc));
            },
            Err(_) => {
                assert(merged_of(s) == prev);
                assert(merged_of(s)[m] == (s[j].0, doc));
            },
        }
    }
}

/// Failure isolation: when one collector fails and another succeeds,
/// the merged document carries the succeeding collector's name and
/// document, and nothing at all under the failing collector's name.
pub proof fn lemma_failure_isolation(
    s: Seq<(String, Result<FactsDoc, CollectError>)>,
    i: int,
    j: int,
    doc: FactsDoc,
)
    requires
        0 <= i < s.len(),
        0 <= j < s.len(),
        s[i].1 is Err,
        s[j].1 == Ok::<FactsDoc, CollectError>(doc),
        forall|a: int, b: int|
            0 <= a < b < s.len() ==> (#[trigger] s[a]).0@ != (#[trigger] s[b]).0@,
    ensures
        exists|m: int|
            0 <= m < merged_of(s).len() && #[trigger] merged_of(s)[m] == (s[j].0, doc),
        forall|m: int| 0 <= m < merged_of(s).len() ==> (#[trigger] merged_of(s)[m]).0@ != s[i].0@,
{
    lemma_ok_in_merged(s, j, doc);
    assert forall|m: int| 0 <= m < merged_of(s).len() implies (#[trigger] merged_of(s)[m]).0@
        != s[i].0@ by {
        lemma_merged_from(s, m);
        let k = choose|k: int|
            0 <= k < s.len() && (#[trigger] s[k]).1 == Ok::<FactsDoc, CollectError>(
                merged_of(s)[m].1,
            ) && s[k].0 == merged_of(s)[m].0;
        if k < i {
            assert(s[k].0@ != s[i].0@);
        } else if k > i {
            assert(s[i].0@ != s[k].0@);
        }
    }
}

} // verus!
