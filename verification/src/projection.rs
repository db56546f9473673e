//! The view and explanation commands.

pub mod command;
