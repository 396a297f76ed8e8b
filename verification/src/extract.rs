//! Reading facts out of source files.
pub mod dubbo_xml;
pub mod entrypoint;
pub mod git;
pub mod java;
pub mod maven;
pub mod mybatis;
pub mod properties;
pub mod spring;
pub mod sql;
pub mod syntax;
pub mod walk;
pub mod xmlutil;
