pub mod keywords;
pub mod paths;
pub mod pipeline;
pub mod self_mode;
