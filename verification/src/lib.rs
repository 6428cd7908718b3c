//! Verified core of the ContribAI contribution agent.
pub mod analysis;
pub mod orchestrator;
pub mod text;
pub mod cli;
