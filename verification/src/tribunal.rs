//! The tribunal: the actors that judge candidate patches and record the verdict.
pub mod angry_master;
pub mod narrative_agent;
pub mod neutral_judge;
