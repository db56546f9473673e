//! Asking the running daemon for its state.

use vstd::prelude::*;

use crate::cli::Context;
use crate::daemon::start::{is_status_query, leading_space, space_len, status_word};

verus! {

/// The command that shows the daemon's state.
#[derive(Clone, Copy, Debug)]
pub struct StatusDaemon;

impl StatusDaemon {
    /// The line printed before the daemon is asked.
    pub fn message(&self, _ctx: &Context) -> (m: String)
        ensures
            m@ == "📊 Daemon status: OK"@,
    {
        String::from_str("📊 Daemon status: OK")
    }

    /// The bytes sent to the daemon's socket: the word `status`.
    pub fn request(&self) -> (r: Vec<u8>)
        ensures
            r@ == status_word(),
    {
        let r: Vec<u8> = vec![0x73u8, 0x74u8, 0x61u8, 0x74u8, 0x75u8, 0x73u8];
        assert(r@ =~= status_word());
        r
    }
}

/// The request the status command sends is the one the daemon answers.
pub proof fn lemma_status_request_answered()
    ensures
        is_status_query(status_word()),
{
    let w = status_word();
    assert(space_len(w) == 0);
    assert(leading_space(w) == 0);
    assert(w.skip(0) =~= w);
    assert(w.take(6) =~= w);
    let tail = w.skip(6);
    assert(tail.len() == 0);
    assert(space_len(tail) == 0);
    assert(leading_space(tail) == 0);
}

} // verus!
