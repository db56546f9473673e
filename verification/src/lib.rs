//! Verified core of the leviticus workspace daemon: the in-memory file system
//! served over FUSE, the command-line grammars, the daemon's runtime state and
//! the texts that the commands print.

pub mod args;
pub mod cli;
pub mod daemon;
pub mod projection;
pub mod reg_command;
pub mod vfs;
