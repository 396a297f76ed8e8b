//! What the library's operations are for, stated over what goes in and what comes out.
pub mod asking;
pub mod basics;
pub mod calls;
pub mod documents;
pub mod domains;
pub mod dossiers;
pub mod entries;
pub mod files;
pub mod findings;
pub mod history;
pub mod notes;
pub mod packs;
pub mod pages;
pub mod replies;
pub mod routes;
pub mod searches;
pub mod settings;
pub mod symbols;
pub mod tables;
pub mod traces;
pub mod values;
