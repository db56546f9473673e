//! Reloading the daemon.

use vstd::prelude::*;

use crate::cli::Context;

verus! {

/// The command that reloads the daemon.
#[derive(Clone, Copy, Debug)]
pub struct ReloadDaemon;

impl ReloadDaemon {
    /// The line printed when the daemon is reloaded, marked in verbose mode.
    pub fn message(&self, ctx: &Context) -> (m: String)
        ensures
            m@ == (if ctx.verbose {
                "🔄 Reloading daemon (verbose)"@
            } else {
                "🔄 Reloading daemon"@
            }),
    {
        if ctx.verbose {
            String::from_str("🔄 Reloading daemon (verbose)")
        } else {
            String::from_str("🔄 Reloading daemon")
        }
    }
}

} // verus!
