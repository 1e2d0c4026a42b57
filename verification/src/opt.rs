//! The runner's configuration, as plain data. The surrounding application
//! fills it from the command line and the environment.
use vstd::prelude::*;

verus! {

/// What the runner is asked to work on: test executables to run, or the
/// production of sample test data for the runner's own tests.
#[derive(Debug, Default)]
pub struct RunMode {
    /// The test executables, run one after the other. Shards of one
    /// executable run in parallel; distinct executables do not.
    pub test_executables: Option<Vec<String>>,
    /// Print sample test data instead of running anything.
    pub sample_data: Option<bool>,
}

/// The runner's options.
#[derive(Debug, Default)]
pub struct Opt {
    /// How many shard processes to run in parallel; the number of available
    /// processors when absent. Never more shards than tests are spawned.
    pub jobs: Option<usize>,
    /// Reporting verbosity: 0 only the final summary, 1 global progress, 2
    /// per-shard progress, above 2 full output passthrough.
    pub verbosity: u64,
    /// Dump an execution trace to the current directory.
    pub trace: bool,
    /// Repeat failed tests up to this many times.
    pub repeat: u64,
    /// What to run.
    pub mode: RunMode,
}

} // verus!
