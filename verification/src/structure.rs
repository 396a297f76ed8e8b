//! The structure of a project: its domains, and the paths through it.
pub mod domain;
pub mod trace;
