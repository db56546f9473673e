//! The view and explanation commands and the lines they print.

use vstd::prelude::*;

use crate::cli::Context;
use vstd::view::View as _;

verus! {

/// Switches the active view.
#[derive(Debug)]
pub struct View {
    pub name: String,
}

/// Forks a view.
#[derive(Debug)]
pub struct ViewFork {
    pub name: String,
}

/// Lists the views.
#[derive(Clone, Copy, Debug)]
pub struct ViewList;

/// Explains the system's state.
#[derive(Clone, Copy, Debug)]
pub struct Explain;

/// Opens the explanation document.
#[derive(Clone, Copy, Debug)]
pub struct ExplainDoc;

/// Shows the dependencies of a view.
#[derive(Debug)]
pub struct Deps {
    pub name: String,
}

fn prefixed(prefix: &str, name: &String) -> (m: String)
    ensures
        m@ == prefix@ + name@,
{
    let mut m = String::from_str(prefix);
    m.append(name.as_str());
    m
}

impl View {
    /// The line printed when switching to the view.
    pub fn message(&self, _ctx: &Context) -> (m: String)
        ensures
            m@ == "👁️ switching to view: "@ + self.name@,
    {
        prefixed("👁️ switching to view: ", &self.name)
    }
}

impl ViewFork {
    /// The line printed when forking the view.
    pub fn message(&self, _ctx: &Context) -> (m: String)
        ensures
            m@ == "🍴 forking view: "@ + self.name@,
    {
        prefixed("🍴 forking view: ", &self.name)
    }
}

impl ViewList {
    /// The line printed when listing the views.
    pub fn message(&self, _ctx: &Context) -> (m: String)
        ensures
            m@ == "📋 listing views"@,
    {
        String::from_str("📋 listing views")
    }
}

impl Explain {
    /// The line printed when explaining the system's state.
    pub fn message(&self, _ctx: &Context) -> (m: String)
        ensures
            m@ == "🧠 generating explanation of system state"@,
    {
        String::from_str("🧠 generating explanation of system state")
    }
}

impl ExplainDoc {
    /// The line printed when opening the explanation document.
    pub fn message(&self, _ctx: &Context) -> (m: String)
        ensures
            m@ == "📄 opening explanation document"@,
    {
        String::from_str("📄 opening explanation document")
    }
}

impl Deps {
    /// The line printed for the dependency view, which opens the explanation
    /// document.
    pub fn message(&self, _ctx: &Context) -> (m: String)
        ensures
            m@ == "📄 opening explanation document"@,
    {
        String::from_str("📄 opening explanation document")
    }
}

} // verus!
