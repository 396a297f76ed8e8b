//! The narrative layer: what a model is asked, and what becomes of its answers.
pub mod client;
pub mod deepen;
pub mod pack;
pub mod progress;
pub mod prompt;
