pub mod build;
pub mod extract;
pub mod idmap;
pub mod insight;
pub mod json;
pub mod laws;
pub mod lists;
pub mod llm;
pub mod mcp;
pub mod number;
pub mod path;
pub mod pattern;
pub mod render;
pub mod search;
pub mod split;
pub mod store;
pub mod structure;
pub mod sync;
pub mod text;
pub mod textmap;
pub mod util;
