//! The ways a reconciliation operation fails.
use vstd::prelude::*;
use crate::apps::ToolError;

verus! {

/// Why an operation on benches, tools or windows failed. Each names what it
/// concerns.
#[derive(Clone, Debug)]
pub enum BenchError {
    /// No bench of that name is declared.
    BenchNotFound(String),
    /// No tool of that name is declared.
    ToolNotFound(String),
    /// An operation on the focused bench found none focused.
    NoFocusedBench,
    /// A bench of that name already exists.
    BenchExists(String),
    /// A tool of that name already exists.
    ToolExists(String),
    /// The tool is already declared in that bay.
    ToolAlreadyInBay { tool: String, bay: String },
    /// The window manager could not be reached, or refused or garbled an answer.
    WindowManager(String),
    /// The tool's process could not be started.
    Launch { tool: String, message: String },
    /// No new window matching the tool's signatures appeared in time.
    Timeout { tool: String, signatures: Vec<String> },
    /// The tool's saved state does not fit its kind.
    Config(ToolError),
    /// A stored record could not be read or written.
    Store(String),
    /// An assembly pass was answered with something other than what it asked for.
    UnexpectedEvent,
}

} // verus!
