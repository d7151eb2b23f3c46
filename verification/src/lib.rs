pub mod lines;
pub mod collect;
pub mod locate;
pub mod record;
pub mod tail;

use vstd::prelude::*;

verus! {

/// The errors this library distinguishes: an I/O failure, or no usable
/// data directory.
pub enum MoodError {
    Io,
    NotFound,
}

/// The resolved command-line surface: inspect the log's end, dump it whole,
/// or print where the log lives. `None` in `Cli::command` means an
/// interactive recording session.
pub enum Commands {
    Tail { n: usize },
    Dump,
    Where,
}

/// A parsed invocation.
pub struct Cli {
    pub command: Option<Commands>,
}

} // verus!
