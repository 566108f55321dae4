//! Tool kinds, their configuration and the launch requests built from them.
pub mod browser;
pub mod terminal;
pub mod tool;
pub mod zed;

pub use tool::{BenchTool, Tool, ToolError, ToolKind, ToolState};

use vstd::prelude::*;
use crate::text::concat3;

verus! {

/// A process to start for a tool: the program, its arguments, the directory to
/// start it in, and whether its output is discarded.
#[derive(Clone, Debug)]
pub struct LaunchCommand {
    pub program: String,
    pub args: Vec<String>,
    pub cwd: Option<String>,
    pub quiet: bool,
}

/// A path with a leading `~/` read against the home directory, when one is known.
pub open spec fn expanded(path: Seq<char>, home: Option<Seq<char>>) -> Seq<char> {
    if path.len() >= 2 && path[0] == '~' && path[1] == '/' && home is Some {
        home->Some_0 + "/"@ + path.subrange(2, path.len() as int)
    } else {
        path
    }
}

/// Reads a leading `~/` against the home directory; any other path stays as it is.
pub fn expand_tilde(path: &str, home: Option<&str>) -> (r: String)
    ensures
        r@ == expanded(path@, match home { Some(h) => Some(h@), None => None }),
{
    let n = path.unicode_len();
    if n >= 2 && path.get_char(0) == '~' && path.get_char(1) == '/' {
        if let Some(h) = home {
            let rest = path.substring_char(2, n);
            return concat3(h, "/", rest);
        }
    }
    path.to_owned()
}

} // verus!
