//! The seven-phase investigation protocol: each phase holds a record that
//! must pass a hard gate before the investigation may move on.
use vstd::prelude::*;
use crate::text::{owned, all_ws, extend_str, is_blank, split_char, split_char_of, views};

verus! {


/// Hard gates that block state transitions.
#[derive(Debug, Clone)]
pub enum GateViolation {
    ProblemNotSingleSentence,
    ReproductionFailed,
    NoEvidenceGathered,
    HypothesisNotFalsifiable,
    NoFailingTest,
    FixNotMinimal,
    VerificationIncomplete,
    /// Requires a human decision.
    ThreeFixesFailed,
    /// Names the missing fields.
    OutputContractIncomplete(String),
}

impl GateViolation {
    /// The message shown for this violation.
    pub open spec fn message_spec(&self) -> Seq<char> {
        match self {
            GateViolation::ProblemNotSingleSentence => "Problem description must be exactly one sentence"@,
            GateViolation::ReproductionFailed => "Failed to reproduce the failure; cannot proceed without reproduction or instrumentation"@,
            GateViolation::NoEvidenceGathered => "No observable evidence collected; cannot form hypothesis"@,
            GateViolation::HypothesisNotFalsifiable => "Hypothesis must be disprovable; format: 'Hypothesis: <cause> because <evidence>'"@,
            GateViolation::NoFailingTest => "No failing test or reproduction mechanism; cannot verify fix"@,
            GateViolation::FixNotMinimal => "Fix must address only root cause; no refactoring, no bundling"@,
            GateViolation::VerificationIncomplete => "Original failure still occurs or new test does not pass"@,
            GateViolation::ThreeFixesFailed => "Third fix attempt failed; suspect structural issue; requires human review"@,
            GateViolation::OutputContractIncomplete(missing) => "Incomplete output contract; missing: "@ + missing@,
        }
    }

    /// The human-readable message of this violation (what `Display` prints).
    pub fn message(&self) -> (m: String)
        ensures
            m@ == self.message_spec(),
    {
        match self {
            GateViolation::ProblemNotSingleSentence => owned("Problem description must be exactly one sentence"),
            GateViolation::ReproductionFailed => owned("Failed to reproduce the failure; cannot proceed without reproduction or instrumentation"),
            GateViolation::NoEvidenceGathered => owned("No observable evidence collected; cannot form hypothesis"),
            GateViolation::HypothesisNotFalsifiable => owned("Hypothesis must be disprovable; format: 'Hypothesis: <cause> because <evidence>'"),
            GateViolation::NoFailingTest => owned("No failing test or reproduction mechanism; cannot verify fix"),
            GateViolation::FixNotMinimal => owned("Fix must address only root cause; no refactoring, no bundling"),
            GateViolation::VerificationIncomplete => owned("Original failure still occurs or new test does not pass"),
            GateViolation::ThreeFixesFailed => owned("Third fix attempt failed; suspect structural issue; requires human review"),
            GateViolation::OutputContractIncomplete(missing) => {
                let mut m = owned("Incomplete output contract; missing: ");
                m.append(missing.as_str());
                m
            },
        }
    }
}

/// Number of pieces that are not blank (a blank piece is all whitespace).
pub open spec fn count_nonblank(v: Seq<Seq<char>>) -> nat
    decreases v.len(),
{
    if v.len() == 0 {
        0
    } else {
        count_nonblank(v.drop_last()) + if all_ws(v.last()) {
            0nat
        } else {
            1nat
        }
    }
}

/// Number of sentences: the non-blank pieces between full stops.
pub open spec fn sentence_count(s: Seq<char>) -> nat {
    count_nonblank(split_char(s, '.'))
}

/// Problem definition (phase 1).
#[derive(Clone, Debug)]
pub struct ProblemDefinition {
    /// What should happen.
    pub expected_behavior: String,
    /// What actually happened.
    pub observed_behavior: String,
    /// Impact area.
    pub scope: String,
    pub reproducible: bool,
}

impl ProblemDefinition {
    /// The sentence that is checked: "<expected> but got <observed>".
    pub open spec fn statement(self) -> Seq<char> {
        self.expected_behavior@ + " but got "@ + self.observed_behavior@
    }

    pub open spec fn passes(self) -> bool {
        sentence_count(self.statement()) <= 1
    }

    /// Hard gate: the problem must be stated as a single sentence.
    pub fn validate(&self) -> (r: Result<(), GateViolation>)
        ensures
            r is Ok <==> self.passes(),
            r is Err ==> r == Err::<(), GateViolation>(GateViolation::ProblemNotSingleSentence),
    {
        let mut combined: Vec<char> = Vec::new();
        extend_str(&mut combined, self.expected_behavior.as_str());
        extend_str(&mut combined, " but got ");
        extend_str(&mut combined, self.observed_behavior.as_str());
        let pieces = split_char_of(combined.as_slice(), '.');
        let mut count: usize = 0;
        let mut i: usize = 0;
        while i < pieces.len()
            invariant
                i <= pieces@.len(),
                count == count_nonblank(views(pieces@).take(i as int)),
                count <= i,
            decreases pieces.len() - i,
        {
            let ghost pv = views(pieces@);
            if !is_blank(pieces[i].as_slice()) {
                count = count + 1;
            }
            proof {
                assert(pv.take(i + 1).drop_last() =~= pv.take(i as int));
            }
            i = i + 1;
        }
        proof {
            assert(views(pieces@).take(pieces@.len() as int) =~= views(pieces@));
            assert(combined@ =~= self.statement());
        }
        if count > 1 {
            return Err(GateViolation::ProblemNotSingleSentence);
        }
        Ok(())
    }
}

/// Reproduction attempt (phase 2).
#[derive(Clone, Debug)]
pub struct ReproductionAttempt {
    pub method: ReproductionMethod,
    pub steps: Vec<String>,
    pub observed_result: String,
    pub consistent: bool,
}

#[derive(Clone, Debug)]
pub enum ReproductionMethod {
    ExistingTest,
    MinimalIntegrationTest,
    UnitTest,
    ManualScript,
    InstrumentedLogs,
}

impl ReproductionAttempt {
    /// A reproduction must be consistent unless it relies on instrumentation
    /// or a purpose-built test.
    pub open spec fn passes(self) -> bool {
        self.consistent || !(self.method is ManualScript || self.method is ExistingTest)
    }

    /// The record a phase-2 investigation starts from.
    pub open spec fn is_opening(self) -> bool {
        &&& self.method is ExistingTest
        &&& self.steps@.len() == 0
        &&& self.observed_result@.len() == 0
        &&& !self.consistent
    }

    pub fn validate(&self) -> (r: Result<(), GateViolation>)
        ensures
            r is Ok <==> self.passes(),
            r is Err ==> r == Err::<(), GateViolation>(GateViolation::ReproductionFailed),
    {
        let scripted = match self.method {
            ReproductionMethod::ManualScript | ReproductionMethod::ExistingTest => true,
            _ => false,
        };
        if !self.consistent && scripted {
            return Err(GateViolation::ReproductionFailed);
        }
        Ok(())
    }
}

/// Evidence collection (phase 3).
#[derive(Clone, Debug)]
pub struct EvidenceCollection {
    pub facts: Vec<Fact>,
}

#[derive(Clone, Debug)]
pub struct Fact {
    /// "Entry", "Business", "Environment", etc.
    pub layer: String,
    pub input_value: String,
    pub output_value: String,
    pub transformed: bool,
    pub condition: String,
}

impl EvidenceCollection {
    pub open spec fn passes(self) -> bool {
        self.facts@.len() > 0
    }

    pub fn validate(&self) -> (r: Result<(), GateViolation>)
        ensures
            r is Ok <==> self.passes(),
            r is Err ==> r == Err::<(), GateViolation>(GateViolation::NoEvidenceGathered),
    {
        if self.facts.len() == 0 {
            return Err(GateViolation::NoEvidenceGathered);
        }
        Ok(())
    }
}

/// Hypothesis formulation (phase 4).
#[derive(Clone, Debug)]
pub struct Hypothesis {
    pub root_cause: String,
    pub evidence: String,
}

impl Hypothesis {
    pub open spec fn passes(self) -> bool {
        self.root_cause@.len() > 0 && self.evidence@.len() > 0
    }

    /// Hard gate: a hypothesis names both a cause and the evidence for it.
    pub fn validate(&self) -> (r: Result<(), GateViolation>)
        ensures
            r is Ok <==> self.passes(),
            r is Err ==> r == Err::<(), GateViolation>(GateViolation::HypothesisNotFalsifiable),
            r is Err <==> (self.root_cause@.len() == 0 || self.evidence@.len() == 0),
    {
        if self.root_cause.as_str().is_empty() || self.evidence.as_str().is_empty() {
            return Err(GateViolation::HypothesisNotFalsifiable);
        }
        Ok(())
    }
}

/// Failure locked by a guard (phase 5).
#[derive(Clone, Debug)]
pub struct FailureGuard {
    pub guard_type: GuardType,
    pub description: String,
    pub passes_before_fix: bool,
    pub passes_after_fix: bool,
}

#[derive(Clone, Debug)]
pub enum GuardType {
    AutomatedTest,
    ReproductionScript,
    ManualVerification,
}

impl FailureGuard {
    pub open spec fn passes(self) -> bool {
        self.passes_before_fix
    }

    pub fn validate(&self) -> (r: Result<(), GateViolation>)
        ensures
            r is Ok <==> self.passes(),
            r is Err ==> r == Err::<(), GateViolation>(GateViolation::NoFailingTest),
    {
        if !self.passes_before_fix {
            return Err(GateViolation::NoFailingTest);
        }
        Ok(())
    }
}

/// Fix implementation (phase 6).
#[derive(Clone, Debug)]
pub struct CodeFix {
    pub original_code: String,
    pub fixed_code: String,
    pub rationale: String,
    pub changes_count: usize,
}

/// Largest number of changes a fix may make and still count as minimal.
pub const MAX_FIX_CHANGES: usize = 5;

impl CodeFix {
    pub open spec fn passes(self) -> bool {
        self.changes_count <= MAX_FIX_CHANGES
    }

    /// Hard gate: the fix must be minimal.
    pub fn validate(&self) -> (r: Result<(), GateViolation>)
        ensures
            r is Ok <==> self.passes(),
            r is Err ==> r == Err::<(), GateViolation>(GateViolation::FixNotMinimal),
    {
        if self.changes_count > MAX_FIX_CHANGES {
            return Err(GateViolation::FixNotMinimal);
        }
        Ok(())
    }
}

/// Verification (phase 7).
#[derive(Clone, Debug)]
pub struct Verification {
    pub original_reproduction_still_fails: bool,
    pub guard_now_passes: bool,
    pub related_tests_pass: bool,
    pub side_effects_none: bool,
}

impl Verification {
    pub open spec fn passes(self) -> bool {
        !self.original_reproduction_still_fails && self.guard_now_passes
    }

    pub fn validate(&self) -> (r: Result<(), GateViolation>)
        ensures
            r is Ok <==> self.passes(),
            r is Err ==> r == Err::<(), GateViolation>(GateViolation::VerificationIncomplete),
    {
        if self.original_reproduction_still_fails {
            return Err(GateViolation::VerificationIncomplete);
        }
        if !self.guard_now_passes {
            return Err(GateViolation::VerificationIncomplete);
        }
        Ok(())
    }
}

/// Complete investigation output (all seven records).
#[derive(Clone, Debug)]
pub struct InvestigationOutput {
    pub problem: ProblemDefinition,
    pub reproduction: ReproductionAttempt,
    pub evidence: EvidenceCollection,
    pub hypothesis: Hypothesis,
    pub guard: FailureGuard,
    pub fix: CodeFix,
    pub verification: Verification,
}

impl InvestigationOutput {
    /// The violation of the first record, in phase order, that fails its gate.
    pub open spec fn first_violation(self) -> Option<GateViolation> {
        if !self.problem.passes() {
            Some(GateViolation::ProblemNotSingleSentence)
        } else if !self.reproduction.passes() {
            Some(GateViolation::ReproductionFailed)
        } else if !self.evidence.passes() {
            Some(GateViolation::NoEvidenceGathered)
        } else if !self.hypothesis.passes() {
            Some(GateViolation::HypothesisNotFalsifiable)
        } else if !self.guard.passes() {
            Some(GateViolation::NoFailingTest)
        } else if !self.fix.passes() {
            Some(GateViolation::FixNotMinimal)
        } else if !self.verification.passes() {
            Some(GateViolation::VerificationIncomplete)
        } else {
            None
        }
    }

    /// Validates that all seven records are complete and valid.
    pub fn validate_complete(&self) -> (r: Result<(), GateViolation>)
        ensures
            r == (match self.first_violation() {
                None => Ok::<(), GateViolation>(()),
                Some(e) => Err(e),
            }),
    {
        self.problem.validate()?;
        self.reproduction.validate()?;
        self.evidence.validate()?;
        self.hypothesis.validate()?;
        self.guard.validate()?;
        self.fix.validate()?;
        self.verification.validate()?;
        Ok(())
    }
}

/// State machine enforcing the seven-phase protocol.
#[derive(Clone, Debug)]
pub enum InvestigationPhase {
    Phase1(ProblemDefinition),
    Phase2(ReproductionAttempt),
    Phase3(EvidenceCollection),
    Phase4(Hypothesis),
    Phase5(FailureGuard),
    Phase6(CodeFix),
    Phase7(Verification),
    Complete(InvestigationOutput),
    Failed(GateViolation),
}


impl InvestigationPhase {
    /// Position of the phase in the protocol (1 to 7; 8 complete; 9 failed).
    pub open spec fn index(self) -> nat {
        match self {
            InvestigationPhase::Phase1(_) => 1,
            InvestigationPhase::Phase2(_) => 2,
            InvestigationPhase::Phase3(_) => 3,
            InvestigationPhase::Phase4(_) => 4,
            InvestigationPhase::Phase5(_) => 5,
            InvestigationPhase::Phase6(_) => 6,
            InvestigationPhase::Phase7(_) => 7,
            InvestigationPhase::Complete(_) => 8,
            InvestigationPhase::Failed(_) => 9,
        }
    }

    /// The record of this phase passes the phase's gate.
    pub open spec fn gate_passes(self) -> bool {
        match self {
            InvestigationPhase::Phase1(p) => p.passes(),
            InvestigationPhase::Phase2(r) => r.passes(),
            InvestigationPhase::Phase3(e) => e.passes(),
            InvestigationPhase::Phase4(h) => h.passes(),
            InvestigationPhase::Phase5(g) => g.passes(),
            InvestigationPhase::Phase6(f) => f.passes(),
            InvestigationPhase::Phase7(v) => v.passes(),
            _ => false,
        }
    }

    /// The violation a phase's gate reports.
    pub open spec fn gate_violation(self) -> GateViolation {
        match self {
            InvestigationPhase::Phase1(_) => GateViolation::ProblemNotSingleSentence,
            InvestigationPhase::Phase2(_) => GateViolation::ReproductionFailed,
            InvestigationPhase::Phase3(_) => GateViolation::NoEvidenceGathered,
            InvestigationPhase::Phase4(_) => GateViolation::HypothesisNotFalsifiable,
            InvestigationPhase::Phase5(_) => GateViolation::NoFailingTest,
            InvestigationPhase::Phase6(_) => GateViolation::FixNotMinimal,
            InvestigationPhase::Phase7(_) => GateViolation::VerificationIncomplete,
            InvestigationPhase::Complete(_) => GateViolation::ThreeFixesFailed,
            InvestigationPhase::Failed(_) => GateViolation::ThreeFixesFailed,
        }
    }

    /// The phase holds the blank record a phase is entered with.
    pub open spec fn is_opening(self) -> bool {
        match self {
            InvestigationPhase::Phase2(r) => r.is_opening(),
            InvestigationPhase::Phase3(e) => e.facts@.len() == 0,
            InvestigationPhase::Phase4(h) => h.root_cause@.len() == 0 && h.evidence@.len() == 0,
            InvestigationPhase::Phase5(g) => {
                &&& g.guard_type is AutomatedTest
                &&& g.description@.len() == 0
                &&& !g.passes_before_fix
                &&& !g.passes_after_fix
            },
            InvestigationPhase::Phase6(f) => {
                &&& f.original_code@.len() == 0
                &&& f.fixed_code@.len() == 0
                &&& f.rationale@.len() == 0
                &&& f.changes_count == 0
            },
            InvestigationPhase::Phase7(v) => {
                &&& v.original_reproduction_still_fails
                &&& !v.guard_now_passes
                &&& !v.related_tests_pass
                &&& !v.side_effects_none
            },
            _ => false,
        }
    }

    /// What one step of the protocol does: a phase 1 to 6 whose record passes
    /// its gate moves to the next phase holding that phase's opening record;
    /// phase 7 whose record passes stays where it is; a record that fails its
    /// gate yields that gate's violation; a complete or failed investigation
    /// cannot move.
    pub open spec fn step(self, r: Result<InvestigationPhase, GateViolation>) -> bool {
        if self.index() <= 6 {
            if self.gate_passes() {
                r matches Ok(next) && next.index() == self.index() + 1 && next.is_opening()
            } else {
                r == Err::<InvestigationPhase, GateViolation>(self.gate_violation())
            }
        } else if self.index() == 7 {
            if self.gate_passes() {
                r == Ok::<InvestigationPhase, GateViolation>(self)
            } else {
                r == Err::<InvestigationPhase, GateViolation>(self.gate_violation())
            }
        } else {
            r matches Err(GateViolation::OutputContractIncomplete(m)) && m@ == "Invalid state"@
        }
    }

    /// Advances to the next phase, through the current phase's gate.
    pub fn transition_to_next(self) -> (r: Result<InvestigationPhase, GateViolation>)
        ensures
            self.step(r),
    {
        match self {
            InvestigationPhase::Phase1(problem) => {
                problem.validate()?;
                Ok(
                    InvestigationPhase::Phase2(
                        ReproductionAttempt {
                            method: ReproductionMethod::ExistingTest,
                            steps: Vec::new(),
                            observed_result: String::new(),
                            consistent: false,
                        },
                    ),
                )
            },
            InvestigationPhase::Phase2(reproduction) => {
                reproduction.validate()?;
                Ok(InvestigationPhase::Phase3(EvidenceCollection { facts: Vec::new() }))
            },
            InvestigationPhase::Phase3(evidence) => {
                evidence.validate()?;
                Ok(
                    InvestigationPhase::Phase4(
                        Hypothesis { root_cause: String::new(), evidence: String::new() },
                    ),
                )
            },
            InvestigationPhase::Phase4(hypothesis) => {
                hypothesis.validate()?;
                Ok(
                    InvestigationPhase::Phase5(
                        FailureGuard {
                            guard_type: GuardType::AutomatedTest,
                            description: String::new(),
                            passes_before_fix: false,
                            passes_after_fix: false,
                        },
                    ),
                )
            },
            InvestigationPhase::Phase5(guard) => {
                guard.validate()?;
                Ok(
                    InvestigationPhase::Phase6(
                        CodeFix {
                            original_code: String::new(),
                            fixed_code: String::new(),
                            rationale: String::new(),
                            changes_count: 0,
                        },
                    ),
                )
            },
            InvestigationPhase::Phase6(fix) => {
                fix.validate()?;
                Ok(
                    InvestigationPhase::Phase7(
                        Verification {
                            original_reproduction_still_fails: true,
                            guard_now_passes: false,
                            related_tests_pass: false,
                            side_effects_none: false,
                        },
                    ),
                )
            },
            InvestigationPhase::Phase7(verification) => {
                verification.validate()?;
                Ok(InvestigationPhase::Phase7(verification))
            },
            _ => Err(GateViolation::OutputContractIncomplete(owned("Invalid state"))),
        }
    }
}

/// No phase is skipped: a step that succeeds from phase `k < 7` lands in
/// phase `k + 1`, phase 7 is terminal, and a finished investigation never
/// steps.
pub proof fn lemma_no_phase_skipped(
    before: InvestigationPhase,
    r: Result<InvestigationPhase, GateViolation>,
)
    requires
        before.step(r),
    ensures
        r matches Ok(after) ==> (before.index() < 7 ==> after.index() == before.index() + 1) && (
        before.index() == 7 ==> after == before),
        before.index() >= 8 ==> r is Err,
        r is Ok <==> before.gate_passes(),
{
}

/// A phase entered with its opening record blocks until the record is
/// filled in, except the fix phase: an empty fix makes no changes and so
/// counts as minimal.
pub proof fn lemma_opening_records_block(p: InvestigationPhase)
    requires
        p.is_opening(),
    ensures
        p.index() == 6 ==> p.gate_passes(),
        p.index() != 6 ==> !p.gate_passes(),
{
}

/// The gates that let each phase advance are the gates a complete output is
/// held to: `validate_complete` succeeds exactly when every record would let
/// its phase move on, and otherwise reports the first phase that would not.
pub proof fn lemma_complete_output_matches_steps(o: InvestigationOutput)
    ensures
        o.first_violation() is None <==> (
            InvestigationPhase::Phase1(o.problem).gate_passes()
            && InvestigationPhase::Phase2(o.reproduction).gate_passes()
            && InvestigationPhase::Phase3(o.evidence).gate_passes()
            && InvestigationPhase::Phase4(o.hypothesis).gate_passes()
            && InvestigationPhase::Phase5(o.guard).gate_passes()
            && InvestigationPhase::Phase6(o.fix).gate_passes()
            && InvestigationPhase::Phase7(o.verification).gate_passes()),
        !InvestigationPhase::Phase1(o.problem).gate_passes() ==> o.first_violation() == Some(
            GateViolation::ProblemNotSingleSentence,
        ),
{
}

/// A hypothesis passes its gate exactly when it names a cause and gives
/// evidence: an empty cause or empty evidence is refused as not falsifiable.
pub proof fn lemma_hypothesis_needs_cause_and_evidence(h: Hypothesis)
    ensures
        h.passes() <==> (h.root_cause@.len() > 0 && h.evidence@.len() > 0),
{
}

} // verus!
