//! Core logic of a "system fetch" utility: a fixed registry of
//! package-manager query commands, a line-count extractor for their raw
//! output, and an assembler that joins the per-manager counts into one
//! summary string.  Running the commands, reading files and environment
//! variables, and printing are left to the surrounding program; everything
//! here is a pure function of the values that program hands in.

pub mod count;
pub mod laws;
pub mod registry;
pub mod report;
pub mod sysinfo;
pub mod text;
