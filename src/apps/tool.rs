use vstd::prelude::*;
use crate::apps::{browser, terminal, zed};
use crate::sway::sig_texts;
use crate::text::{concat3, is_white_space, opt_text, texts, white_space};

verus! {

/// The closed set of tool kinds that a bench can hold.
#[derive(Debug, Clone, Copy, PartialEq, Eq, Structural)]
pub enum ToolKind {
    Browser,
    Terminal,
    Zed,
}

/// The lower-case name of a kind, as written in tool definitions.
pub open spec fn kind_name(kind: ToolKind) -> Seq<char> {
    match kind {
        ToolKind::Browser => "browser"@,
        ToolKind::Terminal => "terminal"@,
        ToolKind::Zed => "zed"@,
    }
}

impl ToolKind {
    pub fn as_str(&self) -> (r: &'static str)
        ensures
            r@ == kind_name(*self),
    {
        match self {
            ToolKind::Browser => "browser",
            ToolKind::Terminal => "terminal",
            ToolKind::Zed => "zed",
        }
    }

    /// The app ids and classes that the kind's windows carry.
    pub fn sway_patterns(&self) -> (r: &'static [&'static str])
        ensures
            sig_texts(r@) == kind_signatures(*self),
    {
        match self {
            ToolKind::Browser => {
                let r: &'static [&'static str] = &["chromium", "Chromium", "chromium-browser", "Chromium-browser"];
                assert(sig_texts(r@) =~= kind_signatures(*self));
                r
            },
            ToolKind::Terminal => {
                let r: &'static [&'static str] = &["kitty", "Kitty"];
                assert(sig_texts(r@) =~= kind_signatures(*self));
                r
            },
            ToolKind::Zed => {
                let r: &'static [&'static str] = &["zed", "Zed", "dev.zed.Zed"];
                assert(sig_texts(r@) =~= kind_signatures(*self));
                r
            },
        }
    }
}

/// The signatures of each kind.
pub open spec fn kind_signatures(kind: ToolKind) -> Seq<Seq<char>> {
    match kind {
        ToolKind::Browser => seq!["chromium"@, "Chromium"@, "chromium-browser"@, "Chromium-browser"@],
        ToolKind::Terminal => seq!["kitty"@, "Kitty"@],
        ToolKind::Zed => seq!["zed"@, "Zed"@, "dev.zed.Zed"@],
    }
}

/// A tool's saved state, one shape per kind.
#[derive(Clone, Debug)]
pub enum ToolState {
    Browser(browser::Config),
    Terminal(terminal::Config),
    Zed(zed::Config),
}

/// What a saved state holds, as text.
pub enum StateView {
    Browser(Seq<Seq<char>>),
    Terminal(Option<Seq<char>>, Seq<Seq<char>>),
    Zed(Option<Seq<char>>),
}

impl View for ToolState {
    type V = StateView;

    open spec fn view(&self) -> StateView {
        match self {
            ToolState::Browser(c) => StateView::Browser(texts(c.urls@)),
            ToolState::Terminal(c) => StateView::Terminal(opt_text(c.cwd), texts(c.command@)),
            ToolState::Zed(c) => StateView::Zed(opt_text(c.path)),
        }
    }
}

/// The view of an optional state.
pub open spec fn opt_state(s: Option<ToolState>) -> Option<StateView> {
    match s {
        Some(t) => Some(t@),
        None => None,
    }
}

impl ToolState {
    pub fn copy(&self) -> (r: ToolState)
        ensures
            r@ == self@,
    {
        match self {
            ToolState::Browser(c) => ToolState::Browser(c.copy()),
            ToolState::Terminal(c) => ToolState::Terminal(c.copy()),
            ToolState::Zed(c) => ToolState::Zed(c.copy()),
        }
    }
}

pub fn copy_opt_state(s: &Option<ToolState>) -> (r: Option<ToolState>)
    ensures
        opt_state(r) == opt_state(*s),
{
    match s {
        Some(t) => Some(t.copy()),
        None => None,
    }
}

/// A declared tool placed in a bay.
#[derive(Clone, Debug)]
pub struct Tool {
    pub name: String,
    pub kind: ToolKind,
    pub bay: String,
    pub state: Option<ToolState>,
}

/// Why a tool's configuration could not be read.
#[derive(Clone, Debug)]
pub enum ToolError {
    /// The tool is of the expected kind, but its saved state has another shape.
    InvalidState { tool: String, expected: ToolKind },
    /// The tool is of another kind.
    WrongKind { tool: String, kind: ToolKind, expected: ToolKind },
}

/// A text that is empty once surrounding white space is trimmed.
pub open spec fn is_blank(s: Seq<char>) -> bool {
    forall|i: int| 0 <= i < s.len() ==> is_white_space(#[trigger] s[i])
}

pub fn blank(s: &str) -> (r: bool)
    ensures
        r == is_blank(s@),
{
    let n = s.unicode_len();
    let mut i: usize = 0;
    while i < n
        invariant
            n == s@.len(),
            i <= n,
            forall|k: int| 0 <= k < i ==> is_white_space(#[trigger] s@[k]),
        decreases n - i,
    {
        if !white_space(s.get_char(i)) {
            return false;
        }
        i = i + 1;
    }
    true
}

/// The name a tool is known by: its own, or, when that is blank, one made of its
/// kind and bay.
pub open spec fn tool_identifier(name: Seq<char>, kind: ToolKind, bay: Seq<char>) -> Seq<char> {
    if is_blank(name) {
        kind_name(kind) + "_bay"@ + bay
    } else {
        name
    }
}

/// A tool placed in a bay, as the resolver and the launcher use it.
pub trait BenchTool {
    spec fn tool_name(&self) -> Seq<char>;

    spec fn tool_kind(&self) -> ToolKind;

    spec fn tool_bay(&self) -> Seq<char>;

    spec fn tool_state(&self) -> Option<StateView>;

    fn name(&self) -> (r: &str)
        ensures
            r@ == self.tool_name(),
    ;

    fn bay(&self) -> (r: &str)
        ensures
            r@ == self.tool_bay(),
    ;

    fn set_bay(&mut self, bay: String)
        ensures
            final(self).tool_bay() == bay@,
            final(self).tool_name() == old(self).tool_name(),
            final(self).tool_kind() == old(self).tool_kind(),
            final(self).tool_state() == old(self).tool_state(),
    ;

    fn kind(&self) -> (r: ToolKind)
        ensures
            r == self.tool_kind(),
    ;

    fn identifier(&self) -> (r: String)
        ensures
            r@ == tool_identifier(self.tool_name(), self.tool_kind(), self.tool_bay()),
    ;

    fn sway_patterns(&self) -> (r: &'static [&'static str])
        ensures
            sig_texts(r@) == kind_signatures(self.tool_kind()),
    ;

    /// The browser state: the saved one, or an empty one when none is saved.
    fn browser_config(&self) -> (r: Result<browser::Config, ToolError>)
        ensures
            ({
                let id = tool_identifier(self.tool_name(), self.tool_kind(), self.tool_bay());
                match (self.tool_kind(), self.tool_state()) {
                    (ToolKind::Browser, Some(StateView::Browser(urls))) => r matches Ok(c) && texts(c.urls@) == urls,
                    (ToolKind::Browser, None) => r matches Ok(c) && c.urls@.len() == 0,
                    (ToolKind::Browser, Some(_)) => r matches Err(ToolError::InvalidState { tool, expected })
                        && tool@ == id && expected == ToolKind::Browser,
                    (k, _) => r matches Err(ToolError::WrongKind { tool, kind, expected }) && tool@ == id
                        && kind == k && expected == ToolKind::Browser,
                }
            }),
    ;

    /// The terminal state: the saved one, or an empty one when none is saved.
    fn terminal_config(&self) -> (r: Result<terminal::Config, ToolError>)
        ensures
            ({
                let id = tool_identifier(self.tool_name(), self.tool_kind(), self.tool_bay());
                match (self.tool_kind(), self.tool_state()) {
                    (ToolKind::Terminal, Some(StateView::Terminal(cwd, command))) => r matches Ok(c)
                        && opt_text(c.cwd) == cwd && texts(c.command@) == command,
                    (ToolKind::Terminal, None) => r matches Ok(c) && c.cwd is None && c.command@.len() == 0,
                    (ToolKind::Terminal, Some(_)) => r matches Err(ToolError::InvalidState { tool, expected })
                        && tool@ == id && expected == ToolKind::Terminal,
                    (k, _) => r matches Err(ToolError::WrongKind { tool, kind, expected }) && tool@ == id
                        && kind == k && expected == ToolKind::Terminal,
                }
            }),
    ;

    /// The editor state: the saved one, or an empty one when none is saved.
    fn zed_config(&self) -> (r: Result<zed::Config, ToolError>)
        ensures
            ({
                let id = tool_identifier(self.tool_name(), self.tool_kind(), self.tool_bay());
                match (self.tool_kind(), self.tool_state()) {
                    (ToolKind::Zed, Some(StateView::Zed(path))) => r matches Ok(c) && opt_text(c.path) == path,
                    (ToolKind::Zed, None) => r matches Ok(c) && c.path is None,
                    (ToolKind::Zed, Some(_)) => r matches Err(ToolError::InvalidState { tool, expected })
                        && tool@ == id && expected == ToolKind::Zed,
                    (k, _) => r matches Err(ToolError::WrongKind { tool, kind, expected }) && tool@ == id
                        && kind == k && expected == ToolKind::Zed,
                }
            }),
    ;

    /// Saves a browser's tabs; a tool of another kind stays as it is.
    fn set_browser_urls(&mut self, urls: Vec<String>)
        ensures
            final(self).tool_name() == old(self).tool_name(),
            final(self).tool_kind() == old(self).tool_kind(),
            final(self).tool_bay() == old(self).tool_bay(),
            old(self).tool_kind() == ToolKind::Browser ==> final(self).tool_state() == Some(
                StateView::Browser(texts(urls@)),
            ),
            old(self).tool_kind() != ToolKind::Browser ==> final(self).tool_state() == old(
                self,
            ).tool_state(),
    ;
}

impl Tool {
    fn identifier_text(&self) -> (r: String)
        ensures
            r@ == tool_identifier(self.name@, self.kind, self.bay@),
    {
        if blank(self.name.as_str()) {
            concat3(self.kind.as_str(), "_bay", self.bay.as_str())
        } else {
            self.name.clone()
        }
    }
}

impl BenchTool for Tool {
    open spec fn tool_name(&self) -> Seq<char> {
        self.name@
    }

    open spec fn tool_kind(&self) -> ToolKind {
        self.kind
    }

    open spec fn tool_bay(&self) -> Seq<char> {
        self.bay@
    }

    open spec fn tool_state(&self) -> Option<StateView> {
        opt_state(self.state)
    }

    fn name(&self) -> (r: &str) {
        self.name.as_str()
    }

    fn bay(&self) -> (r: &str) {
        self.bay.as_str()
    }

    fn set_bay(&mut self, bay: String) {
        self.bay = bay;
    }

    fn kind(&self) -> (r: ToolKind) {
        self.kind
    }

    fn identifier(&self) -> (r: String) {
        self.identifier_text()
    }

    fn sway_patterns(&self) -> (r: &'static [&'static str]) {
        self.kind.sway_patterns()
    }

    fn browser_config(&self) -> (r: Result<browser::Config, ToolError>) {
        match (&self.kind, &self.state) {
            (ToolKind::Browser, Some(ToolState::Browser(cfg))) => Ok(cfg.copy()),
            (ToolKind::Browser, None) => Ok(browser::Config::default()),
            (ToolKind::Browser, Some(_)) => Err(
                ToolError::InvalidState { tool: self.identifier_text(), expected: ToolKind::Browser },
            ),
            _ => Err(
                ToolError::WrongKind {
                    tool: self.identifier_text(),
                    kind: self.kind,
                    expected: ToolKind::Browser,
                },
            ),
        }
    }

    fn terminal_config(&self) -> (r: Result<terminal::Config, ToolError>) {
        match (&self.kind, &self.state) {
            (ToolKind::Terminal, Some(ToolState::Terminal(cfg))) => Ok(cfg.copy()),
            (ToolKind::Terminal, None) => Ok(terminal::Config::default()),
            (ToolKind::Terminal, Some(_)) => Err(
                ToolError::InvalidState { tool: self.identifier_text(), expected: ToolKind::Terminal },
            ),
            _ => Err(
                ToolError::WrongKind {
                    tool: self.identifier_text(),
                    kind: self.kind,
                    expected: ToolKind::Terminal,
                },
            ),
        }
    }

    fn zed_config(&self) -> (r: Result<zed::Config, ToolError>) {
        match (&self.kind, &self.state) {
            (ToolKind::Zed, Some(ToolState::Zed(cfg))) => Ok(cfg.copy()),
            (ToolKind::Zed, None) => Ok(zed::Config::default()),
            (ToolKind::Zed, Some(_)) => Err(
                ToolError::InvalidState { tool: self.identifier_text(), expected: ToolKind::Zed },
            ),
            _ => Err(
                ToolError::WrongKind {
                    tool: self.identifier_text(),
                    kind: self.kind,
                    expected: ToolKind::Zed,
                },
            ),
        }
    }

    fn set_browser_urls(&mut self, urls: Vec<String>) {
        if self.kind != ToolKind::Browser {
            return;
        }
        self.state = Some(ToolState::Browser(browser::Config { urls }));
    }
}

} // verus!
