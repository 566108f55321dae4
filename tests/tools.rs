use bench::apps::browser::{self, page_urls, TabTarget};
use bench::apps::{expand_tilde, terminal, zed, BenchTool, Tool, ToolError, ToolKind, ToolState};
use bench::assembly::launch_tool;
use bench::error::BenchError;
use bench::sway::{container_exists, current_windows, matching_container_ids, TreeNode};
use bench::text::same_ignoring_ascii_case;

fn tool(name: &str, kind: ToolKind, state: Option<ToolState>) -> Tool {
    Tool { name: name.to_string(), kind, bay: "2".to_string(), state }
}

fn node(id: i64, app_id: Option<&str>, class: Option<&str>, nodes: Vec<TreeNode>) -> TreeNode {
    TreeNode {
        id: Some(id),
        node_type: Some("con".to_string()),
        name: None,
        app_id: app_id.map(|s| s.to_string()),
        class: class.map(|s| s.to_string()),
        has_window: false,
        nodes,
        floating_nodes: vec![],
    }
}

#[test]
fn kinds_have_names_and_signatures() {
    assert_eq!(ToolKind::Browser.as_str(), "browser");
    assert_eq!(ToolKind::Terminal.as_str(), "terminal");
    assert_eq!(ToolKind::Zed.as_str(), "zed");
    assert_eq!(ToolKind::Browser.sway_patterns(), &["chromium", "Chromium", "chromium-browser", "Chromium-browser"]);
    assert_eq!(ToolKind::Terminal.sway_patterns(), &["kitty", "Kitty"]);
    assert_eq!(ToolKind::Zed.sway_patterns(), &["zed", "Zed", "dev.zed.Zed"]);
}

#[test]
fn identifier_falls_back_on_kind_and_bay() {
    assert_eq!(tool("notes", ToolKind::Zed, None).identifier(), "notes");
    assert_eq!(tool(" \t", ToolKind::Browser, None).identifier(), "browser_bay2");
    assert_eq!(tool("", ToolKind::Terminal, None).identifier(), "terminal_bay2");
}

#[test]
fn configs_follow_kind_and_state() {
    let web = tool("web", ToolKind::Browser, Some(ToolState::Browser(browser::Config { urls: vec!["https://a".into()] })));
    assert_eq!(web.browser_config().ok().unwrap().urls, vec!["https://a".to_string()]);
    assert!(tool("web", ToolKind::Browser, None).browser_config().ok().unwrap().urls.is_empty());
    match web.terminal_config() {
        Err(ToolError::WrongKind { tool, kind, expected }) => {
            assert_eq!(tool, "web");
            assert_eq!(kind, ToolKind::Browser);
            assert_eq!(expected, ToolKind::Terminal);
        }
        _ => panic!("expected a wrong-kind error"),
    }
    let odd = tool("t", ToolKind::Terminal, Some(ToolState::Zed(zed::Config { path: None })));
    assert!(matches!(odd.terminal_config(), Err(ToolError::InvalidState { expected: ToolKind::Terminal, .. })));
    let ed = tool("e", ToolKind::Zed, Some(ToolState::Zed(zed::Config { path: Some("~/x".into()) })));
    assert_eq!(ed.zed_config().ok().unwrap().path.as_deref(), Some("~/x"));
    assert!(tool("t", ToolKind::Terminal, None).terminal_config().ok().unwrap().cwd.is_none());
}

#[test]
fn browser_urls_only_change_browsers() {
    let mut web = tool("web", ToolKind::Browser, None);
    web.set_browser_urls(vec!["https://b".into()]);
    assert!(matches!(&web.state, Some(ToolState::Browser(c)) if c.urls == vec!["https://b".to_string()]));
    let mut term = tool("t", ToolKind::Terminal, None);
    term.set_browser_urls(vec!["https://b".into()]);
    assert!(term.state.is_none());
    term.set_bay("5".into());
    assert_eq!(term.bay(), "5");
    assert_eq!(term.name(), "t");
    assert_eq!(term.kind(), ToolKind::Terminal);
}

#[test]
fn launch_commands_carry_state() {
    let web = tool("tool-x", ToolKind::Browser, Some(ToolState::Browser(browser::Config { urls: vec!["https://a".into()] })));
    let port = bench::assembly::browser_debug_port("tool-x");
    let cmd = launch_tool(&web, None).ok().unwrap();
    assert_eq!(cmd.program, "chromium");
    assert_eq!(
        cmd.args,
        vec![
            "--new-window".to_string(),
            format!("--remote-debugging-port={}", port),
            format!("--user-data-dir=/tmp/chromium-{}", port),
            "https://a".to_string(),
        ]
    );
    assert!(cmd.quiet);
    let term = tool("t", ToolKind::Terminal, Some(ToolState::Terminal(terminal::Config { cwd: Some("~/src".into()), command: vec!["htop".into()] })));
    let cmd = launch_tool(&term, Some("/home/u")).ok().unwrap();
    assert_eq!(cmd.program, "kitty");
    assert_eq!(cmd.cwd.as_deref(), Some("/home/u/src"));
    assert_eq!(cmd.args, vec!["htop".to_string()]);
    let ed = tool("e", ToolKind::Zed, Some(ToolState::Zed(zed::Config { path: Some("/p".into()) })));
    let cmd = launch_tool(&ed, None).ok().unwrap();
    assert_eq!(cmd.args, vec!["/p".to_string()]);
    assert!(!cmd.quiet);
    let bad = tool("b", ToolKind::Browser, Some(ToolState::Zed(zed::Config { path: None })));
    assert!(matches!(launch_tool(&bad, None), Err(BenchError::Config(ToolError::InvalidState { .. }))));
}

#[test]
fn tilde_expands_only_with_a_home() {
    assert_eq!(expand_tilde("~/a/b", Some("/h")), "/h/a/b");
    assert_eq!(expand_tilde("~/a", None), "~/a");
    assert_eq!(expand_tilde("~a", Some("/h")), "~a");
    assert_eq!(expand_tilde("/abs", Some("/h")), "/abs");
}

#[test]
fn only_pages_with_urls_are_tabs() {
    let targets = vec![
        TabTarget { url: "https://a".into(), target_type: "page".into() },
        TabTarget { url: "".into(), target_type: "page".into() },
        TabTarget { url: "chrome-extension://x".into(), target_type: "background_page".into() },
        TabTarget { url: "https://b".into(), target_type: "page".into() },
    ];
    assert_eq!(page_urls(&targets), vec!["https://a".to_string(), "https://b".to_string()]);
}

#[test]
fn matching_is_case_insensitive_on_app_id_and_class() {
    let tree = node(1, None, None, vec![
        node(2, Some("KITTY"), None, vec![]),
        node(3, None, Some("kItTy"), vec![]),
        node(4, Some("kitty"), Some("Kitty"), vec![]),
        node(5, Some("kitty-x"), None, vec![]),
    ]);
    let ids = matching_container_ids(&tree, ToolKind::Terminal.sway_patterns());
    assert_eq!(ids, vec!["2", "3", "4"]);
    assert!(same_ignoring_ascii_case("Chromium-Browser", "chromium-browser"));
    assert!(!same_ignoring_ascii_case("zed", "zee"));
}

#[test]
fn liveness_and_windows_read_the_tree() {
    let mut tree = node(1, None, None, vec![node(-7, Some("zed"), None, vec![])]);
    tree.floating_nodes = vec![node(8, None, None, vec![])];
    assert!(container_exists(&tree, "-7"));
    assert!(container_exists(&tree, "8"));
    assert!(!container_exists(&tree, "7"));
    let windows = current_windows(&tree);
    assert_eq!(windows.len(), 1);
    assert_eq!(windows[0].id, "-7");
    assert!(windows[0].workspace.is_none());
}
