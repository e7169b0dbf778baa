//! The rules of the command line tool: what its arguments mean, when a recording switches its
//! source and when it ends, and how samples become bytes.

pub mod args;
pub mod recording;
pub mod report;
pub mod schedule;
pub mod words;
