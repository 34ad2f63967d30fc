//! The Angry Master: turns the judge's results into rejections and a final repair.
use vstd::prelude::*;
use crate::error::HephaestusError;
use crate::memory::genome_store::{unix_time_secs, RejectionRecord, RepairGenome};
use crate::text::{owned, chars_of, contains, contains_str, opt_view, strs};

verus! {

/// The Angry Master actor enforces penalties and ensures discipline.
pub struct AngryMaster;

/// A patch is accepted when it passed its trial and holds no `unsafe`.
pub open spec fn accepted(patch: Seq<char>, passed: bool) -> bool {
    passed && !contains(patch, "unsafe"@)
}

/// The patches that are not accepted, in order.
pub open spec fn refused_patches(results: Seq<(String, bool)>) -> Seq<Seq<char>>
    decreases results.len(),
{
    if results.len() == 0 {
        seq![]
    } else {
        let prev = refused_patches(results.drop_last());
        if accepted(results.last().0@, results.last().1) {
            prev
        } else {
            prev.push(results.last().0@)
        }
    }
}

/// The first accepted patch.
pub open spec fn first_accepted(results: Seq<(String, bool)>) -> Option<Seq<char>>
    decreases results.len(),
{
    if results.len() == 0 {
        None
    } else {
        match first_accepted(results.drop_last()) {
            Some(p) => Some(p),
            None => if accepted(results.last().0@, results.last().1) {
                Some(results.last().0@)
            } else {
                None
            },
        }
    }
}

/// Why a patch is refused.
pub open spec fn rejection_reason(patch: Seq<char>) -> Seq<char> {
    if contains(patch, "unsafe"@) {
        "Patch contains unsafe code"@
    } else {
        "Patch failed to execute successfully in sandbox"@
    }
}

/// The rejections of refused patches: each patch with its reason.
pub open spec fn rejections(patches: Seq<Seq<char>>) -> Seq<(Seq<char>, Seq<char>)> {
    patches.map_values(|p: Seq<char>| (p, rejection_reason(p)))
}

/// Patch and reason of each rejection record.
pub open spec fn record_views(v: Seq<RejectionRecord>) -> Seq<(Seq<char>, Seq<char>)> {
    v.map_values(|r: RejectionRecord| (r.patch@, r.reason@))
}

/// All records from index `from` on carry one timestamp.
pub open spec fn same_stamp(v: Seq<RejectionRecord>, from: int) -> bool {
    forall|i: int, j: int|
        from <= i < v.len() && from <= j < v.len() ==> #[trigger] v[i].timestamp == #[trigger] v[j].timestamp
}

/// The records from `from` on carry the timestamp `now`.
pub open spec fn stamped(v: Seq<RejectionRecord>, from: int, now: u64) -> bool {
    forall|i: int| from <= i < v.len() ==> #[trigger] v[i].timestamp == now
}

/// The fields that applying penalties leaves alone.
pub open spec fn same_identity(a: RepairGenome, b: RepairGenome) -> bool {
    &&& a.hash@ == b.hash@
    &&& a.original_code@ == b.original_code@
    &&& opt_view(a.telemetry_trigger) == opt_view(b.telemetry_trigger)
    &&& opt_view(a.narrative_summary) == opt_view(b.narrative_summary)
    &&& a.timestamp == b.timestamp
    &&& a.semantic_cluster == b.semantic_cluster
    &&& opt_view(a.wing) == opt_view(b.wing)
    &&& a.aaak_compressed == b.aaak_compressed
    &&& a.dependency_density == b.dependency_density
    &&& a.ast_topology_hash == b.ast_topology_hash
}

fn rejection_reason_exec(patch: &str) -> (r: String)
    ensures
        r@ == rejection_reason(patch@),
{
    let p = chars_of(patch);
    if contains_str(p.as_slice(), "unsafe") {
        owned("Patch contains unsafe code")
    } else {
        owned("Patch failed to execute successfully in sandbox")
    }
}

impl AngryMaster {
    /// Applies the judge's results to the genome: a patch that failed its
    /// trial or holds `unsafe` is rejected, in order, with its reason and one
    /// timestamp of the clock; the first patch that passed without `unsafe`
    /// becomes the final repaired code and the hypotheses are cleared;
    /// without one there is no final code (the penalty) and the hypotheses
    /// stay.
    pub fn apply_penalties(&self, genome: &mut RepairGenome, judge_results: Vec<(String, bool)>) -> (r: Result<(), HephaestusError>)
        ensures
            r is Ok,
            same_identity(*final(genome), *old(genome)),
            record_views(final(genome).rejected_patches@) == record_views(
                old(genome).rejected_patches@,
            ) + rejections(refused_patches(judge_results@)),
            same_stamp(final(genome).rejected_patches@, old(genome).rejected_patches@.len() as int),
            opt_view(final(genome).final_repaired_code) == first_accepted(judge_results@),
            first_accepted(judge_results@) is Some ==> final(genome).monkey_hypotheses@.len() == 0,
            first_accepted(judge_results@) is None ==> strs(final(genome).monkey_hypotheses@)
                == strs(old(genome).monkey_hypotheses@),
    {
        let now = unix_time_secs();
        self.apply_penalties_at(genome, judge_results, now);
        Ok(())
    }

    /// Applies the judge's results as `apply_penalties` does, with `now` as
    /// the clock's reading: each new rejection record carries it.
    pub fn apply_penalties_at(&self, genome: &mut RepairGenome, judge_results: Vec<(String, bool)>, now: u64)
        ensures
            same_identity(*final(genome), *old(genome)),
            record_views(final(genome).rejected_patches@) == record_views(
                old(genome).rejected_patches@,
            ) + rejections(refused_patches(judge_results@)),
            stamped(final(genome).rejected_patches@, old(genome).rejected_patches@.len() as int, now),
            opt_view(final(genome).final_repaired_code) == first_accepted(judge_results@),
            first_accepted(judge_results@) is Some ==> final(genome).monkey_hypotheses@.len() == 0,
            first_accepted(judge_results@) is None ==> strs(final(genome).monkey_hypotheses@)
                == strs(old(genome).monkey_hypotheses@),
    {
        let mut failures: Vec<RejectionRecord> = Vec::new();
        let mut first: Option<String> = None;
        let mut i: usize = 0;
        while i < judge_results.len()
            invariant
                i <= judge_results@.len(),
                record_views(failures@) == rejections(refused_patches(judge_results@.take(i as int))),
                forall|k: int| 0 <= k < failures@.len() ==> #[trigger] failures@[k].timestamp == now,
                opt_view(first) == first_accepted(judge_results@.take(i as int)),
            decreases judge_results.len() - i,
        {
            let ghost prefix = judge_results@.take(i as int);
            assert(judge_results@.take(i + 1).drop_last() =~= prefix);
            assert(judge_results@.take(i + 1).last() == judge_results@[i as int]);
            let (patch, passed) = (&judge_results[i].0, judge_results[i].1);
            let text = chars_of(patch.as_str());
            let is_unsafe = contains_str(text.as_slice(), "unsafe");
            if passed && !is_unsafe {
                if first.is_none() {
                    first = Some(patch.clone());
                }
            } else {
                let ghost before = failures@;
                let reason = rejection_reason_exec(patch.as_str());
                failures.push(RejectionRecord { patch: patch.clone(), reason, timestamp: now });
                assert(record_views(failures@) =~= record_views(before).push(
                    (patch@, rejection_reason(patch@)),
                ));
                assert(rejections(refused_patches(judge_results@.take(i + 1))) =~= rejections(
                    refused_patches(prefix),
                ).push((patch@, rejection_reason(patch@))));
            }
            i = i + 1;
        }
        assert(judge_results@.take(judge_results@.len() as int) =~= judge_results@);
        let ghost old_records = genome.rejected_patches@;
        let ghost new_records = failures@;
        genome.rejected_patches.append(&mut failures);
        assert(record_views(genome.rejected_patches@) =~= record_views(old_records) + rejections(
            refused_patches(judge_results@),
        ));
        assert forall|k: int|
            old_records.len() <= k < genome.rejected_patches@.len() implies #[trigger] genome.rejected_patches@[k].timestamp
            == now by {
            assert(genome.rejected_patches@[k] == new_records[k - old_records.len()]);
        }
        match first {
            Some(code) => {
                genome.final_repaired_code = Some(code);
                genome.monkey_hypotheses.clear();
            },
            None => {
                genome.final_repaired_code = None;
            },
        }
    }
}

/// The final repaired code the penalties pick is a judged patch that passed
/// its trial and holds no `unsafe`.
pub proof fn lemma_final_code_is_accepted(results: Seq<(String, bool)>)
    ensures
        first_accepted(results) matches Some(p) ==> exists|i: int|
            0 <= i < results.len() && #[trigger] results[i].0@ == p && accepted(p, results[i].1),
    decreases results.len(),
{
    if results.len() > 0 {
        let prev = results.drop_last();
        lemma_final_code_is_accepted(prev);
        if let Some(p) = first_accepted(prev) {
            let i = choose|i: int| 0 <= i < prev.len() && #[trigger] prev[i].0@ == p && accepted(p, prev[i].1);
            assert(results[i] == prev[i]);
        } else if accepted(results.last().0@, results.last().1) {
            assert(results[results.len() - 1].0@ == results.last().0@);
        }
    }
}

/// Every rejection is of a judged patch that failed its trial or holds
/// `unsafe`.
pub proof fn lemma_rejections_are_refusals(results: Seq<(String, bool)>)
    ensures
        forall|j: int|
            0 <= j < refused_patches(results).len() ==> exists|i: int|
                0 <= i < results.len() && results[i].0@ == #[trigger] refused_patches(results)[j]
                    && !accepted(results[i].0@, results[i].1),
    decreases results.len(),
{
    if results.len() > 0 {
        let prev = results.drop_last();
        lemma_rejections_are_refusals(prev);
        assert forall|j: int| 0 <= j < refused_patches(results).len() implies exists|i: int|
            0 <= i < results.len() && results[i].0@ == #[trigger] refused_patches(results)[j]
                && !accepted(results[i].0@, results[i].1) by {
            if j < refused_patches(prev).len() {
                let i = choose|i: int|
                    0 <= i < prev.len() && prev[i].0@ == #[trigger] refused_patches(prev)[j]
                        && !accepted(prev[i].0@, prev[i].1);
                assert(results[i] == prev[i]);
            } else {
                assert(results[results.len() - 1] == results.last());
            }
        }
    }
}

} // verus!
