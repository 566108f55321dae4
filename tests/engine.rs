use bench::apps::{ToolKind, ToolState};
use bench::assembly::{
    assemble_bench, resolve_tool_window, stable_endpoint, Action, AssemblyOutcome, BenchAssembly,
    Event, Resolution, POLL_INTERVAL_MS,
};
use bench::error::BenchError;
use bench::model::{AssembledBench, AssembledTool, BaySpec, BayWindows, Bench, ToolDefinition};
use bench::sway::{wait_for_new_container, TreeNode, WaitStep};

fn leaf(id: i64, app_id: &str) -> TreeNode {
    TreeNode {
        id: Some(id),
        node_type: Some("con".to_string()),
        name: Some(format!("window {}", id)),
        app_id: Some(app_id.to_string()),
        class: None,
        has_window: false,
        nodes: vec![],
        floating_nodes: vec![],
    }
}

fn workspace(id: i64, name: &str, windows: Vec<TreeNode>) -> TreeNode {
    TreeNode {
        id: Some(id),
        node_type: Some("workspace".to_string()),
        name: Some(name.to_string()),
        app_id: None,
        class: None,
        has_window: false,
        nodes: windows,
        floating_nodes: vec![],
    }
}

fn root(workspaces: Vec<TreeNode>) -> TreeNode {
    TreeNode {
        id: Some(1),
        node_type: Some("root".to_string()),
        name: Some("root".to_string()),
        app_id: None,
        class: None,
        has_window: false,
        nodes: workspaces,
        floating_nodes: vec![],
    }
}

fn tool(name: &str, kind: ToolKind) -> ToolDefinition {
    ToolDefinition {
        name: name.to_string(),
        kind,
        created_at: 0,
        last_assembled_at: None,
        state: None,
        assembled: None,
    }
}

fn bench_of(bays: Vec<(&str, Vec<&str>)>) -> Bench {
    Bench {
        name: "work".to_string(),
        bays: bays
            .into_iter()
            .map(|(b, tools)| BaySpec {
                name: b.to_string(),
                tool_names: tools.into_iter().map(|t| t.to_string()).collect(),
            })
            .collect(),
        created_at: 0,
        last_focused_at: None,
        assembled: AssembledBench { bay_windows: vec![] },
    }
}

fn record(tool: &str, id: &str) -> (String, AssembledTool) {
    (tool.to_string(), AssembledTool { window_id: id.to_string() })
}

/// A fake window manager: a launch adds a window with the next id on bay "1",
/// unless `silent` is set, in which case nothing ever appears.
struct World {
    windows: Vec<(i64, String, String)>,
    next_id: i64,
    silent: bool,
    launches: usize,
    persisted: Vec<(String, String)>,
    elapsed: u64,
}

impl World {
    fn tree(&self) -> TreeNode {
        let mut by_ws: Vec<(String, Vec<TreeNode>)> = vec![];
        for (id, app, ws) in &self.windows {
            match by_ws.iter_mut().find(|(w, _)| w == ws) {
                Some((_, v)) => v.push(leaf(*id, app)),
                None => by_ws.push((ws.clone(), vec![leaf(*id, app)])),
            }
        }
        let mut n = 1000;
        root(
            by_ws
                .into_iter()
                .map(|(w, v)| {
                    n += 1;
                    workspace(n, &w, v)
                })
                .collect(),
        )
    }
}

fn drive(run: &mut BenchAssembly, first: Action, world: &mut World) -> Result<AssemblyOutcome, BenchError> {
    let mut action = first;
    for _ in 0..10_000 {
        action = match action {
            Action::Snapshot => run.step(Event::Tree(world.tree())),
            Action::Launch(cmd) => {
                world.launches += 1;
                let last_app = match cmd.program.as_str() {
                    "chromium" => "chromium".to_string(),
                    "kitty" => "kitty".to_string(),
                    _ => "zed".to_string(),
                };
                world.elapsed = 0;
                if !world.silent {
                    let id = world.next_id;
                    world.next_id += 1;
                    world.windows.push((id, last_app.clone(), "1".to_string()));
                }
                run.step(Event::Launched)
            }
            Action::Poll(ms) => {
                world.elapsed += ms;
                run.step(Event::Polled(world.tree(), world.elapsed))
            }
            Action::Persist(tool, id) => {
                world.persisted.push((tool, id));
                run.step(Event::Persisted)
            }
            Action::Finished(o) => return Ok(o),
            Action::Failed(e) => return Err(e),
            Action::Stopped => panic!("stopped without an outcome"),
        };
    }
    panic!("the pass did not end");
}

fn mapping(o: &AssemblyOutcome) -> Vec<(String, String)> {
    o.tool_records.iter().map(|(t, r)| (t.clone(), r.window_id.clone())).collect()
}

#[test]
fn assemble_twice_is_idempotent() {
    let bench = bench_of(vec![("1", vec!["web", "term"]), ("2", vec!["code"])]);
    let defs = vec![tool("web", ToolKind::Browser), tool("term", ToolKind::Terminal), tool("code", ToolKind::Zed)];
    let mut world = World { windows: vec![], next_id: 50, silent: false, launches: 0, persisted: vec![], elapsed: 0 };
    let (mut run, first) = assemble_bench(&bench, AssembledBench { bay_windows: vec![] }, defs.clone(), vec![], None, 15_000);
    let first_outcome = drive(&mut run, first, &mut world).ok().unwrap();
    assert_eq!(world.launches, 3);
    assert!(first_outcome.statuses.iter().all(|s| s.launched));
    let records: Vec<(String, AssembledTool)> = world
        .persisted
        .iter()
        .map(|(t, id)| record(t, id))
        .collect();
    let launches_before = world.launches;
    let (mut again, first) = assemble_bench(&bench, first_outcome.assembled_bench.clone(), defs, records, None, 15_000);
    let second_outcome = drive(&mut again, first, &mut world).ok().unwrap();
    assert_eq!(world.launches, launches_before);
    assert_eq!(mapping(&first_outcome), mapping(&second_outcome));
    assert!(second_outcome.statuses.iter().all(|s| !s.launched));
}

#[test]
fn recorded_live_window_wins_over_matches() {
    let tree = root(vec![workspace(10, "1", vec![leaf(11, "chromium"), leaf(12, "chromium")])]);
    let r = resolve_tool_window(&Some("12".to_string()), &tree, ToolKind::Browser.sway_patterns());
    assert!(matches!(r, Resolution::Reused(ref id) if id == "12"));
    let bench = bench_of(vec![("1", vec!["web"])]);
    let mut world = World {
        windows: vec![(11, "chromium".into(), "1".into()), (12, "chromium".into(), "1".into())],
        next_id: 90,
        silent: false,
        launches: 0,
        persisted: vec![],
        elapsed: 0,
    };
    let (mut run, first) = assemble_bench(&bench, AssembledBench { bay_windows: vec![] }, vec![tool("web", ToolKind::Browser)], vec![record("web", "12")], None, 15_000);
    let outcome = drive(&mut run, first, &mut world).ok().unwrap();
    assert_eq!(world.launches, 0);
    assert!(world.persisted.is_empty());
    assert_eq!(outcome.statuses[0].window_id.as_deref(), Some("12"));
    assert!(!outcome.statuses[0].launched);
}

#[test]
fn closed_record_falls_back_to_first_match() {
    let tree = root(vec![workspace(10, "1", vec![leaf(11, "kitty"), leaf(12, "Kitty")])]);
    let r = resolve_tool_window(&Some("99".to_string()), &tree, ToolKind::Terminal.sway_patterns());
    assert!(matches!(r, Resolution::Discovered(ref id) if id == "11"));
    let r = resolve_tool_window(&None, &root(vec![]), ToolKind::Terminal.sway_patterns());
    assert!(matches!(r, Resolution::Launch));
}

#[test]
fn new_window_is_never_a_preexisting_one() {
    let before = vec!["11".to_string()];
    let tree = root(vec![workspace(10, "1", vec![leaf(11, "chromium"), leaf(12, "chromium")])]);
    match wait_for_new_container(&tree, ToolKind::Browser.sway_patterns(), &before, 0, 1000) {
        WaitStep::Found(id) => assert_eq!(id, "12"),
        _ => panic!("expected the new window"),
    }
    let only_old = root(vec![workspace(10, "1", vec![leaf(11, "chromium")])]);
    assert!(matches!(
        wait_for_new_container(&only_old, ToolKind::Browser.sway_patterns(), &before, 100, 1000),
        WaitStep::KeepWaiting
    ));
}

#[test]
fn launch_that_reuses_an_existing_window_times_out() {
    let bench = bench_of(vec![("1", vec!["web"])]);
    let mut world = World { windows: vec![], next_id: 70, silent: true, launches: 0, persisted: vec![], elapsed: 0 };
    let (mut run, first) = assemble_bench(&bench, AssembledBench { bay_windows: vec![] }, vec![tool("web", ToolKind::Browser)], vec![], None, 600);
    let err = drive(&mut run, first, &mut world).err().unwrap();
    match err {
        BenchError::Timeout { tool, signatures } => {
            assert_eq!(tool, "web");
            assert_eq!(signatures, vec!["chromium", "Chromium", "chromium-browser", "Chromium-browser"]);
        }
        _ => panic!("expected a timeout"),
    }
    assert!(world.persisted.is_empty());
    assert!(world.elapsed > 600);
    assert!(matches!(run.step(Event::Persisted), Action::Stopped));
}

#[test]
fn wait_times_out_only_after_the_budget() {
    let tree = root(vec![]);
    let before: Vec<String> = vec![];
    assert!(matches!(wait_for_new_container(&tree, ToolKind::Zed.sway_patterns(), &before, 1000, 1000), WaitStep::KeepWaiting));
    assert!(matches!(wait_for_new_container(&tree, ToolKind::Zed.sway_patterns(), &before, 1001, 1000), WaitStep::TimedOut));
    assert_eq!(POLL_INTERVAL_MS, 150);
}

#[test]
fn stable_endpoint_is_deterministic() {
    let a = stable_endpoint("tool-x", 9222, 1000);
    let b = stable_endpoint("tool-x", 9222, 1000);
    assert_eq!(a, b);
    assert!((9222..10222).contains(&a));
    assert_eq!(bench::tool_ops::browser_debug_port("tool-x"), a);
    assert_eq!(bench::assembly::browser_debug_port("tool-x"), a);
    assert_eq!(bench::assembly::stable_debug_port("tool-x"), a);
}

#[test]
fn pruning_drops_closed_windows_without_error() {
    let bench = bench_of(vec![("1", vec![])]);
    let previous = AssembledBench {
        bay_windows: vec![
            BayWindows { bay: "1".into(), windows: vec!["11".into(), "12".into()] },
            BayWindows { bay: "old".into(), windows: vec!["13".into()] },
        ],
    };
    let mut world = World { windows: vec![(11, "kitty".into(), "1".into())], next_id: 80, silent: false, launches: 0, persisted: vec![], elapsed: 0 };
    let (mut run, first) = assemble_bench(&bench, previous, vec![], vec![], None, 1000);
    let outcome = drive(&mut run, first, &mut world).ok().unwrap();
    assert_eq!(outcome.assembled_bench.bay_windows.len(), 1);
    assert_eq!(outcome.assembled_bench.bay_windows[0].bay, "1");
    assert_eq!(outcome.assembled_bench.bay_windows[0].windows, vec!["11".to_string()]);
}

#[test]
fn failed_liveness_query_prunes_everything() {
    let bench = bench_of(vec![("1", vec![])]);
    let previous = AssembledBench { bay_windows: vec![BayWindows { bay: "1".into(), windows: vec!["11".into()] }] };
    let (mut run, first) = assemble_bench(&bench, previous, vec![], vec![], None, 1000);
    assert!(matches!(first, Action::Snapshot));
    assert!(matches!(run.step(Event::TreeFailed("down".into())), Action::Snapshot));
    match run.step(Event::Tree(root(vec![]))) {
        Action::Finished(o) => assert!(o.assembled_bench.bay_windows[0].windows.is_empty()),
        _ => panic!("expected the outcome"),
    }
}

#[test]
fn missing_tool_definition_fails_the_pass() {
    let bench = bench_of(vec![("1", vec!["ghost"])]);
    let mut world = World { windows: vec![], next_id: 1, silent: false, launches: 0, persisted: vec![], elapsed: 0 };
    let (mut run, first) = assemble_bench(&bench, AssembledBench { bay_windows: vec![] }, vec![], vec![], None, 1000);
    let err = drive(&mut run, first, &mut world).err().unwrap();
    assert!(matches!(err, BenchError::ToolNotFound(ref n) if n == "ghost"));
}

#[test]
fn launch_failure_and_store_failure_are_reported() {
    let bench = bench_of(vec![("1", vec!["term"])]);
    let defs = vec![tool("term", ToolKind::Terminal)];
    let (mut run, _) = assemble_bench(&bench, AssembledBench { bay_windows: vec![] }, defs.clone(), vec![], None, 1000);
    assert!(matches!(run.step(Event::Tree(root(vec![]))), Action::Snapshot));
    assert!(matches!(run.step(Event::Tree(root(vec![]))), Action::Snapshot));
    assert!(matches!(run.step(Event::Tree(root(vec![]))), Action::Launch(_)));
    match run.step(Event::LaunchFailed("no kitty".into())) {
        Action::Failed(BenchError::Launch { tool, message }) => {
            assert_eq!(tool, "term");
            assert_eq!(message, "no kitty");
        }
        _ => panic!("expected a launch error"),
    }
    let tree = root(vec![workspace(10, "1", vec![leaf(11, "kitty")])]);
    let (mut run, _) = assemble_bench(&bench, AssembledBench { bay_windows: vec![] }, defs, vec![], None, 1000);
    run.step(Event::Tree(copy_tree(&tree)));
    assert!(matches!(run.step(Event::Tree(tree)), Action::Persist(_, ref id) if id == "11"));
    assert!(matches!(run.step(Event::PersistFailed("disk".into())), Action::Failed(BenchError::Store(_))));
    assert!(matches!(run.step(Event::Persisted), Action::Stopped));
}

#[test]
fn answers_out_of_turn_end_the_pass() {
    let bench = bench_of(vec![("1", vec![])]);
    let (mut run, _) = assemble_bench(&bench, AssembledBench { bay_windows: vec![] }, vec![], vec![], None, 1000);
    assert!(matches!(run.step(Event::Launched), Action::Failed(BenchError::UnexpectedEvent)));
}

#[test]
fn invalid_state_is_a_config_error() {
    let bench = bench_of(vec![("1", vec!["web"])]);
    let mut def = tool("web", ToolKind::Browser);
    def.state = Some(ToolState::Zed(bench::apps::zed::Config { path: None }));
    let (mut run, _) = assemble_bench(&bench, AssembledBench { bay_windows: vec![] }, vec![def], vec![], None, 1000);
    run.step(Event::Tree(root(vec![])));
    run.step(Event::Tree(root(vec![])));
    assert!(matches!(
        run.step(Event::Tree(root(vec![]))),
        Action::Failed(BenchError::Config(bench::apps::ToolError::InvalidState { .. }))
    ));
}


fn copy_tree(t: &TreeNode) -> TreeNode {
    TreeNode {
        id: t.id,
        node_type: t.node_type.clone(),
        name: t.name.clone(),
        app_id: t.app_id.clone(),
        class: t.class.clone(),
        has_window: t.has_window,
        nodes: t.nodes.iter().map(copy_tree).collect(),
        floating_nodes: t.floating_nodes.iter().map(copy_tree).collect(),
    }
}

#[test]
fn assigning_a_tool_starts_a_single_tool_pass() {
    let bay = BaySpec { name: "3".to_string(), tool_names: vec![] };
    let missing = bench::assembly::assign_tool_to_bay("web", &bay, vec![], vec![], None, 1000);
    assert!(matches!(missing, Err(BenchError::ToolNotFound(ref n)) if n == "web"));
    let (mut run, first) = bench::assembly::assign_tool_to_bay("web", &bay, vec![tool("web", ToolKind::Browser)], vec![record("web", "11")], None, 1000)
        .ok()
        .unwrap();
    let mut world = World { windows: vec![(11, "chromium".into(), "3".into())], next_id: 60, silent: false, launches: 0, persisted: vec![], elapsed: 0 };
    let outcome = drive(&mut run, first, &mut world).ok().unwrap();
    assert_eq!(outcome.statuses.len(), 1);
    assert_eq!(outcome.statuses[0].bay, "3");
    assert_eq!(outcome.statuses[0].window_id.as_deref(), Some("11"));
    assert_eq!(outcome.statuses[0].workspace.as_deref(), Some("3"));
    assert!(!outcome.statuses[0].launched);
}

#[test]
fn launched_single_tool_moves_to_its_bay() {
    let launched = bench::assembly::ToolStatus { name: "t".into(), bay: "4".into(), window_id: Some("9".into()), workspace: None, launched: true };
    match bench::tool_ops::bay_move(&launched) {
        Some(bench::layout_ops::LayoutCommand::MoveTo(id, ws)) => assert_eq!((id.as_str(), ws.as_str()), ("9", "4")),
        _ => panic!("expected a move"),
    }
    let reused = bench::assembly::ToolStatus { launched: false, ..launched };
    assert!(bench::tool_ops::bay_move(&reused).is_none());
}

#[test]
fn missing_definition_stops_before_later_tools() {
    let bench = bench_of(vec![("1", vec!["term", "ghost", "code"])]);
    let defs = vec![tool("term", ToolKind::Terminal), tool("code", ToolKind::Zed)];
    let mut world = World { windows: vec![], next_id: 20, silent: false, launches: 0, persisted: vec![], elapsed: 0 };
    let (mut run, first) = assemble_bench(&bench, AssembledBench { bay_windows: vec![] }, defs, vec![], None, 1000);
    let err = drive(&mut run, first, &mut world).err().unwrap();
    assert!(matches!(err, BenchError::ToolNotFound(ref n) if n == "ghost"));
    assert_eq!(world.launches, 1);
    assert_eq!(world.persisted.len(), 1);
}

#[test]
fn statuses_follow_declaration_order() {
    let bench = bench_of(vec![("2", vec!["b", "a"]), ("1", vec!["c"])]);
    let defs = vec![tool("a", ToolKind::Terminal), tool("b", ToolKind::Zed), tool("c", ToolKind::Browser)];
    let mut world = World {
        windows: vec![(31, "zed".into(), "2".into()), (32, "kitty".into(), "2".into()), (33, "chromium".into(), "1".into())],
        next_id: 40,
        silent: false,
        launches: 0,
        persisted: vec![],
        elapsed: 0,
    };
    let (mut run, first) = assemble_bench(&bench, AssembledBench { bay_windows: vec![] }, defs, vec![], None, 1000);
    let o = drive(&mut run, first, &mut world).ok().unwrap();
    let order: Vec<(&str, &str)> = o.statuses.iter().map(|s| (s.bay.as_str(), s.name.as_str())).collect();
    assert_eq!(order, vec![("2", "b"), ("2", "a"), ("1", "c")]);
    assert_eq!(world.launches, 0);
    assert_eq!(world.persisted, vec![("b".to_string(), "31".to_string()), ("a".to_string(), "32".to_string()), ("c".to_string(), "33".to_string())]);
    let bays: Vec<&str> = o.assembled_bench.bay_windows.iter().map(|b| b.bay.as_str()).collect();
    assert_eq!(bays, vec!["2", "1"]);
    assert_eq!(o.assembled_bench.bay_windows[0].windows, vec!["31".to_string(), "32".to_string()]);
}
