pub mod evo_genome;
pub mod genome_store;
