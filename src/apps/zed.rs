//! The Zed editor tool: its saved state and the command that opens it.
use vstd::prelude::*;
use crate::apps::{expand_tilde, expanded, LaunchCommand};
use crate::text::{copy_opt, texts};

verus! {

/// An editor's saved state: the path it opens.
#[derive(Clone, Debug)]
pub struct Config {
    pub path: Option<String>,
}

impl Config {
    pub fn copy(&self) -> (r: Config)
        ensures
            r.path == self.path,
    {
        Config { path: copy_opt(&self.path) }
    }
}

impl Default for Config {
    fn default() -> (r: Config)
        ensures
            r.path is None,
    {
        Config { path: None }
    }
}

/// The command that opens the editor on its path.
pub fn launch_command(config: &Config, home: Option<&str>) -> (r: LaunchCommand)
    ensures
        r.program@ == "zed"@,
        texts(r.args@) == match config.path {
            Some(p) => seq![expanded(p@, match home { Some(h) => Some(h@), None => None })],
            None => Seq::<Seq<char>>::empty(),
        },
        r.cwd is None,
        !r.quiet,
{
    let mut args: Vec<String> = Vec::new();
    if let Some(p) = &config.path {
        args.push(expand_tilde(p.as_str(), home));
    }
    proof {
        assert(texts(args@) =~= match config.path {
            Some(p) => seq![expanded(p@, match home { Some(h) => Some(h@), None => None })],
            None => Seq::<Seq<char>>::empty(),
        });
    }
    LaunchCommand { program: "zed".to_owned(), args, cwd: None, quiet: false }
}

} // verus!
