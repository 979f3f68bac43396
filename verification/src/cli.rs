//! The options that a run is configured with.
use vstd::prelude::*;

verus! {

/// The largest read, in bytes, that a run asks for by default.
pub const MAX_READ_BUFFER_SIZE: usize = 512 * 1024;

/// The options of a run, as plain values.
pub struct Options {
    /// File that lists the candidates, one path per line; standard input if
    /// absent.
    pub files: Option<String>,
    /// File that the duplicates are written to; standard output if absent.
    pub output: Option<String>,
    /// Whether empty files are to be left out. The option is carried along;
    /// a run does not act on it.
    pub skip_empty: bool,
    /// Whether statistics are shown at the end of the run.
    pub verbose: bool,
    /// Whether an output line carries the file's size.
    pub show_size: bool,
    /// Number of bytes to read from a candidate in one round.
    pub read_size: usize,
    /// Number of reads that a round may start; at least 1.
    pub num_threads: usize,
}

} // verus!
