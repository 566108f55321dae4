use bench::assembly::{focus_bench, stow_bench};
use bench::bench_ops::{layout_diff, sync_layout};
use bench::error::BenchError;
use bench::layout_ops::{
    capture_current_layout, get_windows_to_stow, is_stowed_workspace, place_window, restore_bench_layout, LayoutCommand,
};
use bench::model::{AssembledBench, AssembledTool, BaySpec, BayWindows, Bench};
use bench::sway::{current_windows, TreeNode};

fn leaf(id: i64, app_id: &str) -> TreeNode {
    TreeNode {
        id: Some(id),
        node_type: Some("con".to_string()),
        name: Some(format!("window {}", id)),
        app_id: Some(app_id.to_string()),
        class: None,
        has_window: false,
        nodes: vec![],
        floating_nodes: vec![],
    }
}

fn workspace(id: i64, name: &str, windows: Vec<TreeNode>) -> TreeNode {
    TreeNode {
        id: Some(id),
        node_type: Some("workspace".to_string()),
        name: Some(name.to_string()),
        app_id: None,
        class: None,
        has_window: false,
        nodes: windows,
        floating_nodes: vec![],
    }
}

fn root(workspaces: Vec<TreeNode>) -> TreeNode {
    TreeNode {
        id: Some(1),
        node_type: Some("root".to_string()),
        name: None,
        app_id: None,
        class: None,
        has_window: false,
        nodes: workspaces,
        floating_nodes: vec![],
    }
}

fn snapshot(bays: Vec<(&str, Vec<&str>)>) -> AssembledBench {
    AssembledBench {
        bay_windows: bays
            .into_iter()
            .map(|(b, ids)| BayWindows { bay: b.to_string(), windows: ids.into_iter().map(|i| i.to_string()).collect() })
            .collect(),
    }
}

fn bench_of(bays: Vec<(&str, Vec<&str>)>) -> Bench {
    Bench {
        name: "a".to_string(),
        bays: bays
            .into_iter()
            .map(|(b, tools)| BaySpec { name: b.to_string(), tool_names: tools.into_iter().map(|t| t.to_string()).collect() })
            .collect(),
        created_at: 0,
        last_focused_at: None,
        assembled: AssembledBench { bay_windows: vec![] },
    }
}

fn pairs(v: &[(String, String)]) -> Vec<(&str, &str)> {
    v.iter().map(|(a, b)| (a.as_str(), b.as_str())).collect()
}

/// Runs layout commands against a map of window -> workspace.
fn apply(placement: &mut Vec<(String, String)>, cmds: &[LayoutCommand]) {
    for c in cmds {
        let (id, to) = match c {
            LayoutCommand::MoveTo(id, w) => (id.clone(), w.clone()),
            LayoutCommand::Stow(id) => (id.clone(), "__i3_scratch".to_string()),
            LayoutCommand::Show(_) => continue,
        };
        if let Some(p) = placement.iter_mut().find(|(i, _)| *i == id) {
            p.1 = to;
        }
    }
}

#[test]
fn sync_layout_reports_added_and_removed() {
    let old = snapshot(vec![("bayA", vec!["2", "3"])]);
    let tree = root(vec![workspace(100, "bayA", vec![leaf(3, "kitty"), leaf(4, "kitty")])]);
    let sync = sync_layout(Some("a".to_string()), Some(old), &tree).ok().unwrap();
    assert_eq!(sync.bench_name, "a");
    assert_eq!(pairs(&sync.diff.added_windows), vec![("bayA", "4")]);
    assert_eq!(pairs(&sync.diff.removed_windows), vec![("bayA", "2")]);
    assert_eq!(sync.layout.bay_windows[0].windows, vec!["3".to_string(), "4".to_string()]);
}

#[test]
fn sync_layout_needs_a_focused_bench() {
    let tree = root(vec![]);
    assert!(matches!(sync_layout(None, None, &tree), Err(BenchError::NoFocusedBench)));
}

#[test]
fn layout_diff_without_old_snapshot_adds_everything() {
    let new = snapshot(vec![("1", vec!["a", "b"]), ("2", vec!["c"])]);
    let d = layout_diff(&None, &new);
    assert_eq!(pairs(&d.added_windows), vec![("1", "a"), ("1", "b"), ("2", "c")]);
    assert!(d.removed_windows.is_empty());
    let same = layout_diff(&Some(snapshot(vec![("1", vec!["a", "b"]), ("2", vec!["c"])])), &new);
    assert!(same.added_windows.is_empty() && same.removed_windows.is_empty());
    let moved = layout_diff(&Some(snapshot(vec![("1", vec!["c"])])), &snapshot(vec![("2", vec!["c"])]));
    assert_eq!(pairs(&moved.added_windows), vec![("2", "c")]);
    assert_eq!(pairs(&moved.removed_windows), vec![("1", "c")]);
}

#[test]
fn capture_skips_stowed_and_unplaced_windows() {
    let mut floating = leaf(9, "kitty");
    floating.app_id = None;
    floating.has_window = true;
    let mut on_ws = workspace(100, "1", vec![leaf(2, "kitty")]);
    on_ws.floating_nodes = vec![floating];
    let tree = root(vec![on_ws, workspace(101, "temp", vec![leaf(3, "zed")]), workspace(102, "__i3_scratch", vec![leaf(4, "zed")]), leaf(5, "zed")]);
    let layout = capture_current_layout(&tree);
    assert_eq!(layout.bay_windows.len(), 1);
    assert_eq!(layout.bay_windows[0].bay, "1");
    assert_eq!(layout.bay_windows[0].windows, vec!["2".to_string(), "9".to_string()]);
    assert!(is_stowed_workspace("temp") && is_stowed_workspace("__i3_scratch") && !is_stowed_workspace("1"));
}

#[test]
fn focus_with_stow_places_bench_and_clears_the_rest() {
    let bench = bench_of(vec![("1", vec!["web"]), ("2", vec!["term"])]);
    let tree = root(vec![
        workspace(100, "1", vec![leaf(11, "chromium"), leaf(12, "kitty")]),
        workspace(101, "3", vec![leaf(13, "zed"), leaf(14, "kitty")]),
        workspace(102, "__i3_scratch", vec![leaf(15, "zed")]),
    ]);
    let mut assembled = snapshot(vec![("1", vec!["11", "99"]), ("old", vec!["13"])]);
    let records = vec![
        ("web".to_string(), AssembledTool { window_id: "11".to_string() }),
        ("term".to_string(), AssembledTool { window_id: "14".to_string() }),
    ];
    let (plan, statuses) = focus_bench(&bench, &mut assembled, &records, &tree, true);
    let mut placement: Vec<(String, String)> = current_windows(&tree)
        .iter()
        .map(|w| (w.id.clone(), w.workspace.clone().unwrap()))
        .collect();
    apply(&mut placement, &plan);
    let at = |id: &str| placement.iter().find(|(i, _)| i == id).unwrap().1.clone();
    assert_eq!(at("11"), "1");
    assert_eq!(at("14"), "2");
    assert_eq!(at("12"), "__i3_scratch");
    assert_eq!(at("13"), "__i3_scratch");
    assert_eq!(at("15"), "__i3_scratch");
    assert!(!plan.iter().any(|c| matches!(c, LayoutCommand::Stow(id) if id == "15")));
    assert_eq!(assembled.bay_windows.len(), 2);
    assert_eq!(assembled.bay_windows[0].windows, vec!["11".to_string()]);
    assert_eq!(assembled.bay_windows[1].bay, "2");
    assert_eq!(assembled.bay_windows[1].windows, vec!["14".to_string()]);
    assert_eq!(statuses.len(), 2);
    assert_eq!(statuses[1].workspace.as_deref(), Some("2"));
    assert_eq!(statuses[1].window_id.as_deref(), Some("14"));
}

#[test]
fn focus_without_stow_leaves_other_windows() {
    let bench = bench_of(vec![("1", vec![])]);
    let tree = root(vec![workspace(101, "3", vec![leaf(13, "zed")])]);
    let mut assembled = snapshot(vec![]);
    let (plan, _) = focus_bench(&bench, &mut assembled, &vec![], &tree, false);
    assert_eq!(plan.len(), 1);
    assert!(matches!(&plan[0], LayoutCommand::Show(w) if w == "1"));
}

#[test]
fn stow_moves_each_live_window_once() {
    let bench = bench_of(vec![("1", vec!["web", "term"])]);
    let tree = root(vec![workspace(100, "1", vec![leaf(11, "chromium"), leaf(12, "kitty")])]);
    let mut assembled = snapshot(vec![("1", vec!["11", "98"]), ("2", vec!["11"])]);
    let records = vec![
        ("web".to_string(), AssembledTool { window_id: "11".to_string() }),
        ("term".to_string(), AssembledTool { window_id: "12".to_string() }),
    ];
    let (plan, statuses) = stow_bench(&bench, &mut assembled, &records, &tree);
    let ids: Vec<&str> = plan
        .iter()
        .map(|c| match c {
            LayoutCommand::Stow(id) => id.as_str(),
            _ => panic!("stow only stows"),
        })
        .collect();
    assert_eq!(ids, vec!["11", "12"]);
    assert_eq!(assembled.bay_windows[0].windows, vec!["11".to_string()]);
    assert_eq!(statuses.len(), 2);
    assert!(statuses.iter().all(|s| s.workspace.is_none() && !s.launched));
}

#[test]
fn restore_moves_live_windows_back() {
    let tree = root(vec![workspace(100, "9", vec![leaf(11, "kitty")])]);
    let saved = snapshot(vec![("1", vec!["11", "12"]), ("2", vec![])]);
    let cmds = restore_bench_layout(&saved, &tree);
    assert_eq!(cmds.len(), 2);
    assert!(matches!(&cmds[0], LayoutCommand::MoveTo(id, w) if id == "11" && w == "1"));
    assert!(matches!(&cmds[1], LayoutCommand::Show(w) if w == "1"));
}

#[test]
fn windows_to_stow_skip_bench_and_stowed() {
    let tree = root(vec![
        workspace(100, "1", vec![leaf(11, "kitty"), leaf(12, "kitty")]),
        workspace(101, "temp", vec![leaf(13, "kitty")]),
    ]);
    let windows = current_windows(&tree);
    let stow = get_windows_to_stow(&vec!["11".to_string()], &windows);
    assert_eq!(stow.len(), 1);
    assert_eq!(stow[0].id, "12");
}

#[test]
fn commands_render_as_window_manager_arguments() {
    assert_eq!(
        place_window("42", "dev"),
        vec!["[con_id=\"42\"]", "move", "container", "to", "workspace", "dev"]
    );
    assert_eq!(LayoutCommand::Stow("7".into()).args(), vec!["[con_id=\"7\"]", "move", "container", "to", "scratchpad"]);
    assert_eq!(LayoutCommand::Show("3".into()).args(), vec!["workspace", "3"]);
    let r = bench::sway::rename_workspace("1", "one");
    assert_eq!(r, vec![vec!["workspace", "1"], vec!["rename", "workspace", "to", "one"]]);
}
