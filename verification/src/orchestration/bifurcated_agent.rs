//! The bifurcated agent: skills run on the main path, and a failure starts a
//! repair in the background, up to a limit. This module holds the decisions;
//! the runtime that spawns the repairs and talks to the store drives them.
use vstd::prelude::*;
use crate::error::HephaestusError;
use crate::interceptor::interceptor::{
    interception_outcome, HephaestusInterceptor, RepairTrigger, Skill, SkillResult,
};
use crate::memory::genome_store::{default_hash, str_default_hash, unix_time_secs, RepairGenome};
use crate::text::{owned, opt_view, contains, decimal, extend_str, push_decimal, string_of, strs};
use crate::tribunal::angry_master::{
    refused_patches, first_accepted, record_views, rejections, same_stamp, stamped, AngryMaster,
};
use crate::tribunal::narrative_agent::{narrative_lines, NarrativeAgent};
use crate::tribunal::neutral_judge::NeutralJudge;
use crate::text::join;

verus! {

/// Outcome of a repair attempt.
#[derive(Debug, Clone)]
pub struct RepairOutcome {
    pub skill_name: String,
    pub success: bool,
    /// Confidence in the repair, in tenths (0 to 10).
    pub confidence_tenths: u64,
    pub repair_time_ms: u64,
    pub mutation_applied: Option<String>,
}

/// Configuration for the bifurcated agent.
#[derive(Debug, Clone)]
pub struct BifurcatedAgentConfig {
    pub max_parallel_repairs: usize,
    pub reinvoke_after_successful_repair: bool,
    /// Directory of the repair logs.
    pub log_dir: String,
}

/// Main skill runner.
#[derive(Debug, Clone, Default)]
pub struct SkillRunner {}

impl SkillRunner {
    /// Runs a skill. Code that panics on purpose is outside what the runner
    /// accepts; any other skill succeeds.
    pub fn run_skill(&self, skill: &Skill) -> (r: Result<SkillResult, HephaestusError>)
        requires
            !contains(skill.code@, "panic!"@),
        ensures
            r matches Ok(SkillResult::Success),
    {
        Ok(SkillResult::Success)
    }
}

/// A background repair to run: the skill that failed and what triggered it.
#[derive(Debug, Clone)]
pub struct RepairJob {
    pub skill: Skill,
    pub repair_trigger: Option<RepairTrigger>,
}

/// The deciding part of the agent: its configuration, its skill runner and
/// how many repairs it has started.
pub struct BifurcatedAgent {
    skill_runner: SkillRunner,
    config: BifurcatedAgentConfig,
    repairs_started: usize,
}

/// The genome a repair pipeline starts from: the skill's code and nothing
/// else, with an empty hash and a zero timestamp.
pub open spec fn pipeline_genome(skill: Skill, g: RepairGenome) -> bool {
    &&& g.hash@.len() == 0
    &&& g.original_code@ == skill.code@
    &&& g.telemetry_trigger is None
    &&& g.monkey_hypotheses@.len() == 0
    &&& g.rejected_patches@.len() == 0
    &&& g.final_repaired_code is None
    &&& g.narrative_summary is None
    &&& g.timestamp == 0
    &&& g.semantic_cluster is None
    &&& g.wing is None
    &&& g.aaak_compressed is None
    &&& g.dependency_density is None
    &&& g.ast_topology_hash is None
}

/// The telemetry a repair works from: the trigger's error message, or a
/// generic note without a trigger.
pub open spec fn pipeline_telemetry(trigger: Option<RepairTrigger>) -> Seq<char> {
    match trigger {
        Some(t) => t.error_message@,
        None => "Unknown error during skill execution"@,
    }
}

/// The hypotheses left after the penalties: cleared when a patch passed.
pub open spec fn hypotheses_after(hyps: Seq<Seq<char>>, trials: Seq<(String, bool)>) -> Seq<Seq<char>> {
    if first_accepted(trials) is Some {
        seq![]
    } else {
        hyps
    }
}

impl BifurcatedAgent {
    /// An agent with the given configuration that has started no repair.
    pub fn new(config: BifurcatedAgentConfig) -> (a: Self)
        ensures
            a.config() == config,
            a.repairs_started() == 0,
    {
        BifurcatedAgent { skill_runner: SkillRunner {}, config, repairs_started: 0 }
    }

    /// The configuration.
    pub closed spec fn config(&self) -> BifurcatedAgentConfig {
        self.config
    }

    /// How many repairs the agent has started.
    pub closed spec fn repairs_started(&self) -> nat {
        self.repairs_started as nat
    }

    /// The limit on repairs.
    pub fn max_parallel_repairs(&self) -> (n: usize)
        ensures
            n == self.config().max_parallel_repairs,
    {
        self.config.max_parallel_repairs
    }

    /// Runs a skill through the interceptor on the main path. A failed skill
    /// starts a repair job, as long as fewer repairs than the limit have
    /// been started; the skill's result comes back either way.
    pub fn executeskill_bifurcated(&mut self, skill: &Skill, interceptor: &HephaestusInterceptor) -> (r: Result<(SkillResult, Option<RepairJob>), HephaestusError>)
        ensures
            final(self).config() == old(self).config(),
            r matches Ok((res, job)) && {
                &&& interception_outcome(skill.code@, res)
                &&& (job is Some <==> (res !is Success && old(self).repairs_started()
                    < old(self).config().max_parallel_repairs))
                &&& (job matches Some(j) ==> j.skill.name@ == skill.name@ && j.skill.code@
                    == skill.code@ && j.repair_trigger is None)
                &&& final(self).repairs_started() == old(self).repairs_started() + (if job is Some {
                    1nat
                } else {
                    0nat
                })
            },
    {
        let result = interceptor.intercept_skill(skill);
        let failed = match &result {
            SkillResult::Success => false,
            SkillResult::Failure(_) => true,
        };
        if failed && self.repairs_started < self.config.max_parallel_repairs {
            self.repairs_started = self.repairs_started + 1;
            let job = RepairJob {
                skill: Skill { name: skill.name.clone(), code: skill.code.clone() },
                repair_trigger: None,
            };
            Ok((result, Some(job)))
        } else {
            Ok((result, None))
        }
    }

    /// The genome and the telemetry a repair pipeline starts from.
    pub fn start_pipeline(job: &RepairJob) -> (r: (RepairGenome, String))
        ensures
            pipeline_genome(job.skill, r.0),
            r.1@ == pipeline_telemetry(job.repair_trigger),
    {
        let genome = RepairGenome {
            hash: String::new(),
            original_code: job.skill.code.clone(),
            telemetry_trigger: None,
            monkey_hypotheses: Vec::new(),
            rejected_patches: Vec::new(),
            final_repaired_code: None,
            narrative_summary: None,
            timestamp: 0,
            semantic_cluster: None,
            wing: None,
            aaak_compressed: None,
            dependency_density: None,
            ast_topology_hash: None,
        };
        let telemetry = match &job.repair_trigger {
            Some(t) => t.error_message.clone(),
            None => owned("Unknown error during skill execution"),
        };
        (genome, telemetry)
    }

    /// The tribunal after the trials: the safeguards are inspected, the
    /// penalties applied, the verdict (a patch passed) recorded, the genome
    /// stamped by the clock, and, for non-empty code, keyed by the decimal
    /// of its default hash.
    pub fn conclude_tribunal(
        genome: &mut RepairGenome,
        patches: Vec<String>,
        trial_results: Vec<(String, bool)>,
        telemetry: &str,
    ) -> (r: Result<(), HephaestusError>)
        ensures
            r is Ok,
            final(genome).original_code@ == old(genome).original_code@,
            opt_view(final(genome).final_repaired_code) == first_accepted(trial_results@),
            record_views(final(genome).rejected_patches@) == record_views(
                old(genome).rejected_patches@,
            ) + rejections(refused_patches(trial_results@)),
            strs(final(genome).monkey_hypotheses@) == hypotheses_after(
                strs(old(genome).monkey_hypotheses@),
                trial_results@,
            ),
            opt_view(final(genome).telemetry_trigger) == (match old(genome).telemetry_trigger {
                Some(t) => Some(t@),
                None => Some(telemetry@),
            }),
            exists|started: u64|
                opt_view(final(genome).narrative_summary) == Some(
                    join(
                        #[trigger] narrative_lines(
                            hypotheses_after(strs(old(genome).monkey_hypotheses@), trial_results@),
                            record_views(final(genome).rejected_patches@),
                            first_accepted(trial_results@),
                            first_accepted(trial_results@) is Some,
                            telemetry@,
                            started,
                        ),
                        "\n"@,
                    ),
                ),
            old(genome).original_code@.len() > 0 ==> final(genome).hash@ == decimal(
                str_default_hash(old(genome).original_code@) as nat,
            ),
            old(genome).original_code@.len() == 0 ==> final(genome).hash@ == old(genome).hash@,
            same_stamp(final(genome).rejected_patches@, old(genome).rejected_patches@.len() as int),
    {
        let penalised = unix_time_secs();
        let started = unix_time_secs();
        let stamp = unix_time_secs();
        Self::conclude_tribunal_at(genome, patches, trial_results, telemetry, penalised, started, stamp);
        Ok(())
    }

    /// The tribunal after the trials as `conclude_tribunal` runs it, with the
    /// clock's readings given: `penalised` stamps the new rejections,
    /// `started` dates the summary and `stamp` is the genome's timestamp.
    pub fn conclude_tribunal_at(
        genome: &mut RepairGenome,
        patches: Vec<String>,
        trial_results: Vec<(String, bool)>,
        telemetry: &str,
        penalised: u64,
        started: u64,
        stamp: u64,
    )
        ensures
            final(genome).original_code@ == old(genome).original_code@,
            opt_view(final(genome).final_repaired_code) == first_accepted(trial_results@),
            record_views(final(genome).rejected_patches@) == record_views(
                old(genome).rejected_patches@,
            ) + rejections(refused_patches(trial_results@)),
            strs(final(genome).monkey_hypotheses@) == hypotheses_after(
                strs(old(genome).monkey_hypotheses@),
                trial_results@,
            ),
            opt_view(final(genome).telemetry_trigger) == (match old(genome).telemetry_trigger {
                Some(t) => Some(t@),
                None => Some(telemetry@),
            }),
            opt_view(final(genome).narrative_summary) == Some(
                join(
                    narrative_lines(
                        hypotheses_after(strs(old(genome).monkey_hypotheses@), trial_results@),
                        record_views(final(genome).rejected_patches@),
                        first_accepted(trial_results@),
                        first_accepted(trial_results@) is Some,
                        telemetry@,
                        started,
                    ),
                    "\n"@,
                ),
            ),
            old(genome).original_code@.len() > 0 ==> final(genome).hash@ == decimal(
                str_default_hash(old(genome).original_code@) as nat,
            ),
            old(genome).original_code@.len() == 0 ==> final(genome).hash@ == old(genome).hash@,
            final(genome).timestamp == stamp,
            stamped(final(genome).rejected_patches@, old(genome).rejected_patches@.len() as int, penalised),
    {
        let judge = NeutralJudge;
        let master = AngryMaster;
        let narrator = NarrativeAgent;
        let _ = judge.inspect_safeguards(patches);
        master.apply_penalties_at(genome, trial_results, penalised);
        let verdict = genome.final_repaired_code.is_some();
        let ghost mid = *genome;
        proof {
            if first_accepted(trial_results@) is Some {
                assert(strs(mid.monkey_hypotheses@) =~= seq![]);
            }
            assert(strs(mid.monkey_hypotheses@) == hypotheses_after(
                strs(old(genome).monkey_hypotheses@),
                trial_results@,
            ));
        }
        narrator.record_verdict_at(genome, verdict, telemetry, started, stamp);
        let ghost st = started;
        proof {
            assert(opt_view(genome.narrative_summary) == Some(
                join(
                    narrative_lines(
                        hypotheses_after(strs(old(genome).monkey_hypotheses@), trial_results@),
                        record_views(genome.rejected_patches@),
                        first_accepted(trial_results@),
                        first_accepted(trial_results@) is Some,
                        telemetry@,
                        st,
                    ),
                    "\n"@,
                ),
            ));
        }
        genome.timestamp = stamp;
        if !genome.original_code.as_str().is_empty() {
            let h = default_hash(genome.original_code.as_str());
            let mut d: Vec<char> = Vec::new();
            push_decimal(&mut d, h);
            genome.hash = string_of(d.as_slice());
        }
        assert(opt_view(genome.narrative_summary) == Some(
            join(
                narrative_lines(
                    hypotheses_after(strs(old(genome).monkey_hypotheses@), trial_results@),
                    record_views(genome.rejected_patches@),
                    first_accepted(trial_results@),
                    first_accepted(trial_results@) is Some,
                    telemetry@,
                    st,
                ),
                "\n"@,
            ),
        ));
    }

    /// The outcome of a finished pipeline: a success when the genome holds a
    /// final repair, with confidence nine tenths (one tenth otherwise), and
    /// the repair as the mutation applied.
    pub fn repair_outcome(skill_name: String, genome: &RepairGenome, repair_time_ms: u64) -> (o: RepairOutcome)
        ensures
            o.skill_name@ == skill_name@,
            o.success == genome.final_repaired_code is Some,
            o.confidence_tenths == (if o.success {
                9u64
            } else {
                1u64
            }),
            o.repair_time_ms == repair_time_ms,
            opt_view(o.mutation_applied) == opt_view(genome.final_repaired_code),
    {
        let success = genome.final_repaired_code.is_some();
        RepairOutcome {
            skill_name,
            success,
            confidence_tenths: if success {
                9
            } else {
                1
            },
            repair_time_ms,
            mutation_applied: match &genome.final_repaired_code {
                Some(c) => Some(c.clone()),
                None => None,
            },
        }
    }

    /// The outcome of a pipeline that failed: no success, no confidence, no
    /// mutation.
    pub fn failed_outcome(skill_name: String, repair_time_ms: u64) -> (o: RepairOutcome)
        ensures
            o.skill_name@ == skill_name@,
            !o.success,
            o.confidence_tenths == 0,
            o.repair_time_ms == repair_time_ms,
            o.mutation_applied is None,
    {
        RepairOutcome { skill_name, success: false, confidence_tenths: 0, repair_time_ms, mutation_applied: None }
    }

    /// The error a pipeline reports when a stage fails: the stage's context
    /// and the underlying error's text.
    pub fn stage_error(context: &str, e: &HephaestusError) -> (r: HephaestusError)
        ensures
            r matches HephaestusError::Internal(m) && m@ == context@ + ": "@ + e.message_spec(),
    {
        let mut out: Vec<char> = Vec::new();
        extend_str(&mut out, context);
        extend_str(&mut out, ": ");
        let m = e.message();
        extend_str(&mut out, m.as_str());
        HephaestusError::Internal(string_of(out.as_slice()))
    }
}

} // verus!
