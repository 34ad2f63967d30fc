pub mod project_repair;
pub mod llm_patch_generator;
pub mod traits;
pub mod bifurcated_agent;
