use bench::apps::{ToolKind, ToolState};
use bench::bench_ops::{add_tool_to_bench, craft_tool, create_bench, focus_plan, focused_bench, info, list_benches, list_tools, report_status};
use bench::error::BenchError;
use bench::model::{AssembledBench, AssembledTool, BaySpec, BayWindows, Bench, ToolDefinition};
use bench::storage::{
    active_bench_path, assembled_bench_path, assembled_tool_path, bench_path, data_dir, sanitize_name, tool_path,
};
use bench::sway::{current_windows, TreeNode};
use bench::tool_ops::{sync_all_tools, sync_tool, tool_window_exists, browser_state};

fn empty_bench(name: &str) -> Bench {
    Bench { name: name.into(), bays: vec![], created_at: 0, last_focused_at: None, assembled: AssembledBench { bay_windows: vec![] } }
}

fn win(id: i64, ws: &str) -> TreeNode {
    TreeNode {
        id: Some(1000 + id),
        node_type: Some("workspace".into()),
        name: Some(ws.into()),
        app_id: None,
        class: None,
        has_window: false,
        nodes: vec![TreeNode {
            id: Some(id),
            node_type: Some("con".into()),
            name: None,
            app_id: Some("kitty".into()),
            class: None,
            has_window: true,
            nodes: vec![],
            floating_nodes: vec![],
        }],
        floating_nodes: vec![],
    }
}

fn root(children: Vec<TreeNode>) -> TreeNode {
    TreeNode { id: Some(1), node_type: Some("root".into()), name: None, app_id: None, class: None, has_window: false, nodes: children, floating_nodes: vec![] }
}

#[test]
fn paths_live_under_the_data_dir() {
    assert_eq!(data_dir(Some("/x"), Some("/h")).unwrap(), "/x/bench");
    assert_eq!(data_dir(None, Some("/h")).unwrap(), "/h/.local/share/bench");
    assert!(data_dir(None, None).is_none());
    assert_eq!(bench_path("/d", "a/b"), "/d/benches/a_b.yml");
    assert_eq!(tool_path("/d", "t"), "/d/tools/t.yml");
    assert_eq!(assembled_bench_path("/d", "a\\b"), "/d/assembled-benches/a_b.json");
    assert_eq!(assembled_tool_path("/d", "t"), "/d/assembled-tools/t.json");
    assert_eq!(active_bench_path("/d"), "/d/active-bench");
    assert_eq!(sanitize_name("ok-name"), "ok-name");
}

#[test]
fn listing_keeps_sorted_yml_stems() {
    let files = vec!["zeta.yml".to_string(), "alpha.yml".into(), "notes.txt".into(), ".yml".into(), "mid.yml".into()];
    assert_eq!(list_benches(&files), vec!["alpha", "mid", "zeta"]);
    assert_eq!(list_tools(&vec![]), Vec::<String>::new());
}

#[test]
fn marker_is_trimmed() {
    assert_eq!(focused_bench(&Some("  work \n".into())).as_deref(), Some("work"));
    assert!(focused_bench(&Some(" \n".into())).is_none());
    assert!(focused_bench(&None).is_none());
}

#[test]
fn adding_tools_to_bays() {
    let mut b = empty_bench("w");
    assert!(matches!(add_tool_to_bench(&mut b, "web", "1", false), Err(BenchError::ToolNotFound(ref n)) if n == "web"));
    assert!(add_tool_to_bench(&mut b, "web", "1", true).is_ok());
    assert!(add_tool_to_bench(&mut b, "term", "1", true).is_ok());
    assert!(add_tool_to_bench(&mut b, "web", "2", true).is_ok());
    match add_tool_to_bench(&mut b, "web", "1", true) {
        Err(BenchError::ToolAlreadyInBay { tool, bay }) => assert_eq!((tool.as_str(), bay.as_str()), ("web", "1")),
        _ => panic!("expected a conflict"),
    }
    assert_eq!(b.bays.len(), 2);
    assert_eq!(b.bays[0].tool_names, vec!["web".to_string(), "term".to_string()]);
    assert_eq!(b.bays[1].tool_names, vec!["web".to_string()]);
}

#[test]
fn creating_benches_and_tools() {
    assert!(matches!(create_bench("w", true), Err(BenchError::BenchExists(ref n)) if n == "w"));
    let b = create_bench("w", false).ok().unwrap();
    assert_eq!(b.name, "w");
    assert!(b.bays.is_empty() && b.last_focused_at.is_none());
    assert!(b.created_at > 1_600_000_000);
    assert!(matches!(craft_tool(ToolKind::Zed, "e", true), Err(BenchError::ToolExists(_))));
    let t = craft_tool(ToolKind::Browser, "web", false).ok().unwrap();
    assert!(matches!(t.state, Some(ToolState::Browser(ref c)) if c.urls.is_empty()));
    let t = craft_tool(ToolKind::Terminal, "t", false).ok().unwrap();
    assert!(matches!(t.state, Some(ToolState::Terminal(ref c)) if c.cwd.is_none() && c.command.is_empty()));
}

#[test]
fn info_reports_presence_and_workspaces() {
    let mut b = empty_bench("w");
    b.bays = vec![BaySpec { name: "1".into(), tool_names: vec!["a".into(), "b".into()] }];
    let records = vec![("a".to_string(), AssembledTool { window_id: "5".into() })];
    let tree = root(vec![win(5, "1"), win(6, "temp")]);
    let report = info(b.clone(), &Some("w".into()), &records, current_windows(&tree), None);
    assert!(report.focused);
    assert!(!report.assembled);
    assert_eq!(report.statuses.len(), 2);
    assert_eq!(report.statuses[0].workspace.as_deref(), Some("1"));
    assert!(report.statuses[1].window_id.is_none());
    assert_eq!(report.current_windows.len(), 1);
    let records = vec![
        ("a".to_string(), AssembledTool { window_id: "5".into() }),
        ("b".to_string(), AssembledTool { window_id: "6".into() }),
    ];
    let report = info(b, &Some("other".into()), &records, current_windows(&tree), None);
    assert!(report.assembled && !report.focused);
}

#[test]
fn focus_plan_lists_tools_stows_and_layout() {
    let mut b = empty_bench("w");
    b.bays = vec![BaySpec { name: "1".into(), tool_names: vec!["a".into(), "b".into()] }];
    let records = vec![("a".to_string(), AssembledTool { window_id: "5".into() })];
    let tree = root(vec![win(5, "1"), win(6, "3")]);
    let saved = Some(AssembledBench { bay_windows: vec![BayWindows { bay: "1".into(), windows: vec!["5".into()] }] });
    let text = focus_plan("w", &b, &records, &tree, &saved);
    assert_eq!(
        text,
        "Plan for focusing bench 'w'\n\nTools:\n  ✓ a (window 5) - already assembled\n  ✗ b - will be assembled\n\nWindows to stow:\n  → Window 6 from workspace 3\n\nBench window placement:\n  Bay '1': 1 window(s)\n"
    );
    let text = focus_plan("w", &empty_bench("w"), &vec![], &root(vec![]), &None);
    assert_eq!(
        text,
        "Plan for focusing bench 'w'\n\nTools:\n\nWindows to stow:\n  (none)\n\nBench window placement:\n  (no saved layout - windows will be placed in their bay workspaces)\n"
    );
}

#[test]
fn tool_sync_saves_live_state() {
    let mut def = ToolDefinition { name: "web".into(), kind: ToolKind::Browser, created_at: 0, last_assembled_at: None, state: None, assembled: None };
    assert!(!sync_tool(&mut def, None));
    assert!(def.state.is_none());
    assert!(sync_tool(&mut def, Some(browser_state(vec!["https://x".into()]))));
    assert!(matches!(def.state, Some(ToolState::Browser(ref c)) if c.urls == vec!["https://x".to_string()]));
    let mut b = empty_bench("w");
    b.bays = vec![
        BaySpec { name: "1".into(), tool_names: vec!["a".into(), "b".into()] },
        BaySpec { name: "2".into(), tool_names: vec!["b".into(), "c".into()] },
    ];
    assert!(matches!(sync_all_tools(&None, &b), Err(BenchError::NoFocusedBench)));
    assert_eq!(sync_all_tools(&Some("w".into()), &b).ok().unwrap(), vec!["a", "b", "c"]);
}

#[test]
fn recorded_window_must_still_exist() {
    let tree = root(vec![win(5, "1")]);
    assert_eq!(tool_window_exists(&Some(AssembledTool { window_id: "5".into() }), &tree).as_deref(), Some("5"));
    assert!(tool_window_exists(&Some(AssembledTool { window_id: "4".into() }), &tree).is_none());
    assert!(tool_window_exists(&None, &tree).is_none());
}

#[test]
fn statuses_report_launches() {
    let s = bench::assembly::ToolStatus { name: "a".into(), bay: "1".into(), window_id: Some("5".into()), workspace: None, launched: true };
    let r = report_status(&s);
    assert!(r.assembled);
    assert_eq!(r.window_id.as_deref(), Some("5"));
}
