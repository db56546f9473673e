//! The command-line front end: the context handed to every command and the
//! grammar with short aliases.

use vstd::prelude::*;

pub mod command;

verus! {

/// What every command is run with.
#[derive(Clone, Copy, Debug)]
pub struct Context {
    pub verbose: bool,
}

} // verus!
