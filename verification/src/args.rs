//! Run-time options the engine is driven by.  Parsing the command line
//! happens outside the library; the library only consumes the parsed
//! values.

use vstd::prelude::*;

verus! {

/// The options a run is configured with: where the configuration
/// records live, an optional report file, whether to only emit template
/// configuration, and the verbosity level.
pub struct Args {
    pub config_folder: String,
    pub report_file: Option<String>,
    pub template_config: bool,
    pub verbosity: u8,
}

impl Args {
    /// Runs the message producer only when the configured verbosity
    /// reaches `level`.  Verbosity gates observability only, never
    /// correctness-affecting logic.
    pub fn maybe_log<F: FnOnce() -> ()>(&self, level: u8, msg_fn: F)
        requires
            self.verbosity >= level ==> msg_fn.requires(()),
    {
        if self.verbosity >= level {
            msg_fn();
        }
    }

    /// Whether a message at `level` would be emitted.
    pub fn should_log(&self, level: u8) -> (r: bool)
        ensures
            r == (self.verbosity >= level),
    {
        self.verbosity >= level
    }
}

} // verus!
