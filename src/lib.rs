//! Decision logic of a process-tree supervisor: which processes to kill,
//! how to read the process table's records, how to show a command line,
//! and which exit status to leave with.
mod text;
pub mod quote;
pub mod cmdline;
pub mod parse;
pub mod orphans;
pub mod supervisor;
