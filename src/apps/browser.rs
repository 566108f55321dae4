//! The Chromium tool: its saved state and the command that opens it.
use vstd::prelude::*;
use crate::apps::LaunchCommand;
use crate::text::{concat2, copy_strings, lemma_texts_prefix, lemma_texts_push, nat_text, str_eq, texts, u64_text};

verus! {

/// A browser's saved state: the URLs of its open tabs.
#[derive(Clone, Debug)]
pub struct Config {
    pub urls: Vec<String>,
}

impl Config {
    pub fn copy(&self) -> (r: Config)
        ensures
            r.urls@ == self.urls@,
    {
        Config { urls: copy_strings(&self.urls) }
    }
}

impl Default for Config {
    fn default() -> (r: Config)
        ensures
            r.urls@ == Seq::<String>::empty(),
    {
        Config { urls: Vec::new() }
    }
}

/// The arguments that open a new Chromium window with its DevTools endpoint on
/// `port` and a profile of its own, then the saved URLs.
pub open spec fn browser_args(urls: Seq<Seq<char>>, port: nat) -> Seq<Seq<char>> {
    seq![
        "--new-window"@,
        "--remote-debugging-port="@ + nat_text(port),
        "--user-data-dir=/tmp/chromium-"@ + nat_text(port),
    ] + urls
}

/// The command that opens the browser with its saved tabs.
pub fn launch_command(config: &Config, debug_port: u16) -> (r: LaunchCommand)
    ensures
        r.program@ == "chromium"@,
        texts(r.args@) == browser_args(texts(config.urls@), debug_port as nat),
        r.cwd is None,
        r.quiet,
{
    let port = u64_text(debug_port as u64);
    let mut args: Vec<String> = vec![
        "--new-window".to_owned(),
        concat2("--remote-debugging-port=", port.as_str()),
        concat2("--user-data-dir=/tmp/chromium-", port.as_str()),
    ];
    let ghost head = texts(args@);
    let mut i: usize = 0;
    while i < config.urls.len()
        invariant
            i <= config.urls.len(),
            texts(args@) == head + texts(config.urls@.subrange(0, i as int)),
        decreases config.urls.len() - i,
    {
        let ghost prev = args@;
        args.push(config.urls[i].clone());
        proof {
            lemma_texts_push(prev, config.urls@[i as int]);
            lemma_texts_prefix(config.urls@, i as int);
            assert(texts(args@) =~= head + texts(config.urls@.subrange(0, i + 1)));
        }
        i = i + 1;
    }
    assert(config.urls@.subrange(0, config.urls.len() as int) =~= config.urls@);
    assert(texts(args@) =~= browser_args(texts(config.urls@), debug_port as nat));
    LaunchCommand { program: "chromium".to_owned(), args, cwd: None, quiet: true }
}

/// One target listed by the DevTools endpoint.
#[derive(Clone, Debug)]
pub struct TabTarget {
    pub url: String,
    pub target_type: String,
}

pub open spec fn is_open_page(t: TabTarget) -> bool {
    t.target_type@ == "page"@ && t.url@.len() > 0
}

/// The URLs of the targets that are pages with a URL, in the listed order.
pub open spec fn page_urls_of(s: Seq<TabTarget>) -> Seq<Seq<char>>
    decreases s.len(),
{
    if s.len() == 0 {
        Seq::empty()
    } else {
        let rest = page_urls_of(s.drop_last());
        if is_open_page(s.last()) { rest.push(s.last().url@) } else { rest }
    }
}

/// Keeps the URLs of the open pages among the DevTools targets.
pub fn page_urls(targets: &Vec<TabTarget>) -> (r: Vec<String>)
    ensures
        texts(r@) == page_urls_of(targets@),
{
    let mut urls: Vec<String> = Vec::new();
    let mut i: usize = 0;
    while i < targets.len()
        invariant
            i <= targets.len(),
            texts(urls@) == page_urls_of(targets@.subrange(0, i as int)),
        decreases targets.len() - i,
    {
        let t = &targets[i];
        proof {
            assert(targets@.subrange(0, i + 1).drop_last() =~= targets@.subrange(0, i as int));
            reveal_strlit("page");
        }
        let ghost prev = urls@;
        if str_eq(t.target_type.as_str(), "page") && t.url.unicode_len() > 0 {
            urls.push(t.url.clone());
            proof { lemma_texts_push(prev, t.url); }
        }
        assert(texts(urls@) =~= page_urls_of(targets@.subrange(0, i + 1)));
        i = i + 1;
    }
    assert(targets@.subrange(0, targets.len() as int) =~= targets@);
    urls
}

} // verus!
