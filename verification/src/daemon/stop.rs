//! Stopping the daemon.

use vstd::prelude::*;

use crate::cli::Context;

verus! {

/// The command that stops the daemon.
#[derive(Clone, Copy, Debug)]
pub struct StopDaemon;

impl StopDaemon {
    /// The line printed when the daemon is stopped, marked in verbose mode.
    pub fn message(&self, ctx: &Context) -> (m: String)
        ensures
            m@ == (if ctx.verbose {
                "🛑 Stopping daemon (verbose)"@
            } else {
                "🛑 Stopping daemon"@
            }),
    {
        if ctx.verbose {
            String::from_str("🛑 Stopping daemon (verbose)")
        } else {
            String::from_str("🛑 Stopping daemon")
        }
    }
}

} // verus!
