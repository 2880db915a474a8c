//! The decisions of `git super`, a tool that runs git across a set of
//! repositories and prints a grouped summary of their state.

pub mod text;
pub mod status;
pub mod config;
pub mod order;
pub mod plan;
pub mod github;
pub mod project;
pub mod report;
pub mod render;
