//! The interfaces a repair pipeline is assembled from.
use vstd::prelude::*;
use crate::error::HephaestusError;
use crate::memory::genome_store::RepairGenome;
use crate::orchestration::project_repair::{FailureReport, PatchCandidate, ValidationReport};

verus! {

/// Collects failure context from execution runs.
pub trait FailureCollector: Send + Sync {
    fn collect_failure(&self, stdout: &str, stderr: &str, exit_code: Option<i32>) -> FailureReport;
}

/// Generates candidate patches given context and failure reports.
pub trait PatchGenerator: Send + Sync {
    fn generate_patches(
        &self,
        original_code: &str,
        target_file: &str,
        failure: &FailureReport,
    ) -> Result<Vec<PatchCandidate>, HephaestusError>;
}

/// Validates patches in isolated environments.
pub trait PatchValidator: Send + Sync {
    fn validate_patch(&self, temp_workspace: &str, patch: &PatchCandidate) -> Result<ValidationReport, HephaestusError>;
}

/// Persists repair attempts and genomes.
pub trait RepairRepository: Send + Sync {
    fn save_attempt(&self, genome: &mut RepairGenome) -> Result<(), HephaestusError>;

    fn find_genome(&self, hash: &str) -> Result<Option<RepairGenome>, HephaestusError>;
}

} // verus!
