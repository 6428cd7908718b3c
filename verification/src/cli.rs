//! The computations behind the command-line commands.
pub mod commands;
