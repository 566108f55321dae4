//! The kitty terminal tool: its saved state and the command that opens it.
use vstd::prelude::*;
use crate::apps::{expand_tilde, expanded, LaunchCommand};
use crate::text::{copy_opt, copy_strings, opt_text, texts};

verus! {

/// A terminal's saved state: the directory it starts in and the command it runs.
#[derive(Clone, Debug)]
pub struct Config {
    pub cwd: Option<String>,
    pub command: Vec<String>,
}

impl Config {
    pub fn copy(&self) -> (r: Config)
        ensures
            r.cwd == self.cwd,
            r.command@ == self.command@,
    {
        Config { cwd: copy_opt(&self.cwd), command: copy_strings(&self.command) }
    }
}

impl Default for Config {
    fn default() -> (r: Config)
        ensures
            r.cwd is None,
            r.command@ == Seq::<String>::empty(),
    {
        Config { cwd: None, command: Vec::new() }
    }
}

/// The command that opens the terminal in its directory, running its command.
pub fn launch_command(config: &Config, home: Option<&str>) -> (r: LaunchCommand)
    ensures
        r.program@ == "kitty"@,
        texts(r.args@) == texts(config.command@),
        opt_text(r.cwd) == match config.cwd {
            Some(d) => Some(expanded(d@, match home { Some(h) => Some(h@), None => None })),
            None => None,
        },
        r.quiet,
{
    let cwd = match &config.cwd {
        Some(d) => Some(expand_tilde(d.as_str(), home)),
        None => None,
    };
    LaunchCommand { program: "kitty".to_owned(), args: copy_strings(&config.command), cwd, quiet: true }
}

} // verus!
