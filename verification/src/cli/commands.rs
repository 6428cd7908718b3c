pub mod clone;
pub mod solve;
pub mod target;
pub mod update;
