//! Editing of dependency declaration lines (`name = "version"`) in small
//! manifest files: a line classifier, a lookup by package name and a set of
//! mutations over the classified lines, all verified against their contracts.
pub mod types;
pub mod parser;
pub mod lines;
pub mod workflow;
pub mod round_trip;
