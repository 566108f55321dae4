//! Layout operations on snapshots: capturing the live layout, choosing the
//! windows to stow, and the moves that restore a saved layout.
use vstd::prelude::*;
use crate::model::{has_bay, bay_index, AssembledBench, BayView, BayWindows};
use crate::sway::{
    container_exists, ensure_workspace_visible, move_container_to_scratchpad,
    move_container_to_workspace, tree_has, window_views, TreeNode, WindowInfo, WindowView,
};
use crate::text::{copy_opt, str_eq, texts, lemma_texts_push, contains_text};
use crate::assembly::{lookup_record, record_of};
use crate::model::{no_dups, AssembledTool, Bench};

verus! {

/// The workspaces that hold stowed windows.
pub open spec fn stowed_workspace(ws: Seq<char>) -> bool {
    ws == "temp"@ || ws == "__i3_scratch"@
}

/// Whether a workspace holds stowed windows rather than a bay's.
pub fn is_stowed_workspace(workspace: &str) -> (r: bool)
    ensures
        r == stowed_workspace(workspace@),
{
    proof {
        reveal_strlit("temp");
        reveal_strlit("__i3_scratch");
    }
    str_eq(workspace, "temp") || str_eq(workspace, "__i3_scratch")
}

/// A snapshot with `id` appended to the windows of `bay`; a bay not yet there
/// is added at the end.
pub open spec fn push_window(v: Seq<BayView>, bay: Seq<char>, id: Seq<char>) -> Seq<BayView> {
    if has_bay(v, bay) {
        let i = bay_index(v, bay);
        v.update(i, (bay, v[i].1.push(id)))
    } else {
        v.push((bay, seq![id]))
    }
}

/// The layout of the windows that sit on a workspace other than a stowed one,
/// grouped by workspace in the order the workspaces first appear.
pub open spec fn layout_of(ws: Seq<WindowView>) -> Seq<BayView>
    decreases ws.len(),
{
    if ws.len() == 0 {
        Seq::empty()
    } else {
        let v = layout_of(ws.drop_last());
        let w = ws.last();
        match w.workspace {
            Some(s) => if stowed_workspace(s) { v } else { push_window(v, s, w.id) },
            None => v,
        }
    }
}

/// Appends a window to a bay, adding the bay when it is new.
pub fn push_to_bay(ab: &mut AssembledBench, bay: &str, id: String)
    requires
        crate::model::unique_bays(old(ab)@),
    ensures
        final(ab)@ == push_window(old(ab)@, bay@, id@),
        crate::model::unique_bays(final(ab)@),
{
    match ab.find_bay(bay) {
        Some(i) => {
            proof { assert(bay_index(ab@, bay@) == i as int); }
            let ghost before = ab@;
            let mut entry = ab.bay_windows.remove(i);
            let ghost w = entry.windows@;
            entry.windows.push(id);
            proof { lemma_texts_push(w, entry.windows@.last()); }
            ab.bay_windows.insert(i, entry);
            assert(ab@ =~= push_window(before, bay@, id@));
        },
        None => {
            let ghost before = ab@;
            let windows = vec![id];
            ab.bay_windows.push(BayWindows { bay: bay.to_owned(), windows });
            assert(texts(windows@) =~= seq![id@]);
            assert(ab@ =~= push_window(before, bay@, id@));
        },
    }
}

/// Captures every window that sits on a workspace other than a stowed one,
/// grouped by workspace, whether the engine knows them or not.
pub fn capture_current_layout(tree: &TreeNode) -> (r: AssembledBench)
    ensures
        r@ == layout_of(windows_in_tree(*tree)),
        crate::model::unique_bays(r@),
{
    let windows = crate::sway::current_windows(tree);
    layout_from_windows(&windows)
}

pub open spec fn windows_in_tree(tree: TreeNode) -> Seq<WindowView> {
    crate::sway::windows_in(tree, None)
}

/// Groups windows by the workspace they sit on, leaving out stowed ones.
pub fn layout_from_windows(windows: &Vec<WindowInfo>) -> (r: AssembledBench)
    ensures
        r@ == layout_of(window_views(windows@)),
        crate::model::unique_bays(r@),
{
    let mut ab = AssembledBench::new();
    let mut i: usize = 0;
    while i < windows.len()
        invariant
            i <= windows.len(),
            ab@ == layout_of(window_views(windows@.subrange(0, i as int))),
            crate::model::unique_bays(ab@),
        decreases windows.len() - i,
    {
        let w = &windows[i];
        proof {
            assert(window_views(windows@.subrange(0, i + 1)).drop_last() =~= window_views(windows@.subrange(0, i as int)));
            assert(window_views(windows@.subrange(0, i + 1)).last() == w@);
        }
        if let Some(ws) = &w.workspace {
            if !is_stowed_workspace(ws.as_str()) {
                push_to_bay(&mut ab, ws.as_str(), w.id.clone());
            }
        }
        i = i + 1;
    }
    assert(windows@.subrange(0, windows.len() as int) =~= windows@);
    ab
}

/// One change to the live layout.
#[derive(Clone, Debug)]
pub enum LayoutCommand {
    /// Show a workspace.
    Show(String),
    /// Move a window to a workspace.
    MoveTo(String, String),
    /// Move a window to the scratchpad.
    Stow(String),
}

pub enum CommandView {
    Show(Seq<char>),
    MoveTo(Seq<char>, Seq<char>),
    Stow(Seq<char>),
}

impl View for LayoutCommand {
    type V = CommandView;

    open spec fn view(&self) -> CommandView {
        match self {
            LayoutCommand::Show(w) => CommandView::Show(w@),
            LayoutCommand::MoveTo(id, w) => CommandView::MoveTo(id@, w@),
            LayoutCommand::Stow(id) => CommandView::Stow(id@),
        }
    }
}

pub open spec fn command_views(s: Seq<LayoutCommand>) -> Seq<CommandView> {
    s.map_values(|c: LayoutCommand| c@)
}

pub proof fn lemma_commands_push(s: Seq<LayoutCommand>, c: LayoutCommand)
    ensures
        command_views(s.push(c)) == command_views(s).push(c@),
{
    assert(command_views(s.push(c)) =~= command_views(s).push(c@));
}

impl LayoutCommand {
    /// The window manager command that carries this change out.
    pub fn args(&self) -> (r: Vec<String>)
        ensures
            texts(r@) == match self@ {
                CommandView::Show(w) => seq!["workspace"@, w],
                CommandView::MoveTo(id, w) => seq![crate::sway::selector(id), "move"@, "container"@, "to"@, "workspace"@, w],
                CommandView::Stow(id) => seq![crate::sway::selector(id), "move"@, "container"@, "to"@, "scratchpad"@],
            },
    {
        match self {
            LayoutCommand::Show(w) => ensure_workspace_visible(w.as_str()),
            LayoutCommand::MoveTo(id, w) => move_container_to_workspace(id.as_str(), w.as_str()),
            LayoutCommand::Stow(id) => move_container_to_scratchpad(id.as_str()),
        }
    }
}

/// The commands that put the live windows of one bay back and show it.
pub open spec fn restore_bay(tree: TreeNode, bay: Seq<char>, ids: Seq<Seq<char>>) -> Seq<CommandView>
    decreases ids.len(),
{
    if ids.len() == 0 {
        Seq::empty()
    } else {
        let r = restore_bay(tree, bay, ids.drop_last());
        if tree_has(tree, ids.last()) { r.push(CommandView::MoveTo(ids.last(), bay)) } else { r }
    }
}

/// For each bay of the layout in turn: its live windows moved onto it, then the
/// bay shown when it lists any window.
pub open spec fn restore_plan(tree: TreeNode, v: Seq<BayView>) -> Seq<CommandView>
    decreases v.len(),
{
    if v.len() == 0 {
        Seq::empty()
    } else {
        let (bay, ids) = v.last();
        let moves = restore_plan(tree, v.drop_last()) + restore_bay(tree, bay, ids);
        if ids.len() > 0 { moves.push(CommandView::Show(bay)) } else { moves }
    }
}

/// The commands that move each live window of a saved layout back to its
/// workspace, showing each workspace that has windows.
pub fn restore_bench_layout(assembled: &AssembledBench, tree: &TreeNode) -> (r: Vec<LayoutCommand>)
    ensures
        command_views(r@) == restore_plan(*tree, assembled@),
{
    let mut out: Vec<LayoutCommand> = Vec::new();
    let mut i: usize = 0;
    while i < assembled.bay_windows.len()
        invariant
            i <= assembled.bay_windows.len(),
            command_views(out@) == restore_plan(*tree, assembled@.subrange(0, i as int)),
        decreases assembled.bay_windows.len() - i,
    {
        let entry = &assembled.bay_windows[i];
        let ghost base = command_views(out@);
        let mut j: usize = 0;
        while j < entry.windows.len()
            invariant
                j <= entry.windows.len(),
                command_views(out@) == base + restore_bay(*tree, entry.bay@, texts(entry.windows@).subrange(0, j as int)),
            decreases entry.windows.len() - j,
        {
            let id = &entry.windows[j];
            proof {
                assert(texts(entry.windows@).subrange(0, j + 1).drop_last() =~= texts(entry.windows@).subrange(0, j as int));
            }
            if container_exists(tree, id.as_str()) {
                let ghost prev = out@;
                out.push(LayoutCommand::MoveTo(id.clone(), entry.bay.clone()));
                proof { lemma_commands_push(prev, out@.last()); }
            }
            assert(command_views(out@) =~= base + restore_bay(*tree, entry.bay@, texts(entry.windows@).subrange(0, j + 1)));
            j = j + 1;
        }
        assert(texts(entry.windows@).subrange(0, entry.windows.len() as int) =~= texts(entry.windows@));
        if entry.windows.len() > 0 {
            let ghost prev = out@;
            out.push(LayoutCommand::Show(entry.bay.clone()));
            proof { lemma_commands_push(prev, out@.last()); }
        }
        proof {
            assert(assembled@.subrange(0, i + 1).drop_last() =~= assembled@.subrange(0, i as int));
            assert(assembled@.subrange(0, i + 1).last() == assembled@[i as int]);
        }
        i = i + 1;
    }
    assert(assembled@.subrange(0, assembled.bay_windows.len() as int) =~= assembled@);
    out
}

/// The windows to stow: those that are not the bench's and are not stowed already.
pub open spec fn to_stow(ws: Seq<WindowView>, bench: Seq<Seq<char>>) -> Seq<WindowView>
    decreases ws.len(),
{
    if ws.len() == 0 {
        Seq::empty()
    } else {
        let r = to_stow(ws.drop_last(), bench);
        let w = ws.last();
        if bench.contains(w.id) || (w.workspace is Some && stowed_workspace(w.workspace->Some_0)) {
            r
        } else {
            r.push(w)
        }
    }
}

pub fn copy_window(w: &WindowInfo) -> (r: WindowInfo)
    ensures
        r@ == w@,
{
    WindowInfo {
        id: w.id.clone(),
        app_id: copy_opt(&w.app_id),
        class: copy_opt(&w.class),
        title: copy_opt(&w.title),
        workspace: copy_opt(&w.workspace),
    }
}

/// The windows that are not the bench's and are not already stowed.
pub fn get_windows_to_stow(bench_window_ids: &Vec<String>, windows: &Vec<WindowInfo>) -> (r: Vec<WindowInfo>)
    ensures
        window_views(r@) == to_stow(window_views(windows@), texts(bench_window_ids@)),
{
    let mut out: Vec<WindowInfo> = Vec::new();
    let mut i: usize = 0;
    while i < windows.len()
        invariant
            i <= windows.len(),
            window_views(out@) == to_stow(window_views(windows@.subrange(0, i as int)), texts(bench_window_ids@)),
        decreases windows.len() - i,
    {
        let w = &windows[i];
        proof {
            assert(window_views(windows@.subrange(0, i + 1)).drop_last() =~= window_views(windows@.subrange(0, i as int)));
            assert(window_views(windows@.subrange(0, i + 1)).last() == w@);
        }
        let skip = contains_text(bench_window_ids, &w.id) || match &w.workspace {
            Some(ws) => is_stowed_workspace(ws.as_str()),
            None => false,
        };
        if !skip {
            let ghost prev = out@;
            out.push(copy_window(w));
            assert(window_views(out@) =~= window_views(prev).push(w@));
        }
        i = i + 1;
    }
    assert(windows@.subrange(0, windows.len() as int) =~= windows@);
    out
}

/// The command that moves a window to a workspace.
pub fn place_window(window_id: &str, workspace: &str) -> (r: Vec<String>)
    ensures
        texts(r@) == seq![crate::sway::selector(window_id@), "move"@, "container"@, "to"@, "workspace"@, workspace@],
{
    move_container_to_workspace(window_id, workspace)
}

/// The workspace that holds scratchpad windows.
pub open spec fn scratch() -> Seq<char> {
    "__i3_scratch"@
}

/// Whether a command moves this window.
pub open spec fn touches(c: CommandView, id: Seq<char>) -> bool {
    match c {
        CommandView::MoveTo(i, _) => i == id,
        CommandView::Stow(i) => i == id,
        CommandView::Show(_) => false,
    }
}

/// Where a command sends the window it moves.
pub open spec fn target(c: CommandView) -> Seq<char> {
    match c {
        CommandView::MoveTo(_, w) => w,
        CommandView::Stow(_) => scratch(),
        CommandView::Show(w) => w,
    }
}

/// The workspace a window sits on after the commands run, starting from `start`.
pub open spec fn placed_after(cmds: Seq<CommandView>, id: Seq<char>, start: Option<Seq<char>>) -> Option<Seq<char>>
    decreases cmds.len(),
{
    if cmds.len() == 0 {
        start
    } else if touches(cmds.last(), id) {
        Some(target(cmds.last()))
    } else {
        placed_after(cmds.drop_last(), id, start)
    }
}

/// A window that some command moves, and that every command moving it sends to
/// `to`, ends up on `to`.
pub proof fn lemma_placed_to(cmds: Seq<CommandView>, id: Seq<char>, start: Option<Seq<char>>, to: Seq<char>)
    requires
        exists|k: int| 0 <= k < cmds.len() && touches(#[trigger] cmds[k], id),
        forall|k: int| 0 <= k < cmds.len() && touches(#[trigger] cmds[k], id) ==> target(cmds[k]) == to,
    ensures
        placed_after(cmds, id, start) == Some(to),
    decreases cmds.len(),
{
    let n = cmds.len() - 1;
    if !touches(cmds[n], id) {
        let k = choose|k: int| 0 <= k < cmds.len() && touches(#[trigger] cmds[k], id);
        assert(cmds.drop_last()[k] == cmds[k]);
        assert forall|j: int| 0 <= j < cmds.drop_last().len() && touches(#[trigger] cmds.drop_last()[j], id) implies target(cmds.drop_last()[j]) == to by {
            assert(cmds.drop_last()[j] == cmds[j]);
        }
        lemma_placed_to(cmds.drop_last(), id, start, to);
    }
}

/// Whether a tool of the bench has `id` as its recorded window and the window is alive.
pub open spec fn bench_window(bench: Bench, recs: Seq<(String, AssembledTool)>, tree: TreeNode, id: Seq<char>) -> bool {
    exists|j: int, t: int| 0 <= j < bench.bays@.len() && 0 <= t < bench.bays@[j].tool_names@.len()
        && #[trigger] record_of(recs, bench.bays@[j].tool_names@[t]@) == Some(id) && tree_has(tree, id)
}

/// The live recorded windows of the bench's tools, each once.
pub fn collect_bench_windows(bench: &Bench, tool_records: &Vec<(String, AssembledTool)>, tree: &TreeNode) -> (r: Vec<String>)
    ensures
        forall|id: Seq<char>| #[trigger] texts(r@).contains(id) <==> bench_window(*bench, tool_records@, *tree, id),
        no_dups(texts(r@)),
{
    let mut out: Vec<String> = Vec::new();
    let mut j: usize = 0;
    while j < bench.bays.len()
        invariant
            j <= bench.bays.len(),
            no_dups(texts(out@)),
            forall|id: Seq<char>| #[trigger] texts(out@).contains(id) <==> exists|q: int, t: int| 0 <= q < j
                && 0 <= t < bench.bays@[q].tool_names@.len()
                && #[trigger] record_of(tool_records@, bench.bays@[q].tool_names@[t]@) == Some(id) && tree_has(*tree, id),
        decreases bench.bays.len() - j,
    {
        let bay = &bench.bays[j];
        let mut t: usize = 0;
        while t < bay.tool_names.len()
            invariant
                t <= bay.tool_names.len(),
                j < bench.bays@.len(),
                *bay == bench.bays@[j as int],
                no_dups(texts(out@)),
                forall|id: Seq<char>| #[trigger] texts(out@).contains(id) <==> (exists|q: int, t2: int| 0 <= q < j
                    && 0 <= t2 < bench.bays@[q].tool_names@.len()
                    && #[trigger] record_of(tool_records@, bench.bays@[q].tool_names@[t2]@) == Some(id) && tree_has(*tree, id))
                    || (exists|t2: int| 0 <= t2 < t && #[trigger] record_of(tool_records@, bay.tool_names@[t2]@) == Some(id) && tree_has(*tree, id)),
            decreases bay.tool_names.len() - t,
        {
            let rec = lookup_record(tool_records, bay.tool_names[t].as_str());
            let ghost prev = out@;
            if let Some(id) = &rec {
                if container_exists(tree, id.as_str()) && !contains_text(&out, id) {
                    out.push(id.clone());
                    proof {
                        lemma_texts_push(prev, *id);
                    }
                }
            }
            proof {
                assert forall|x: Seq<char>| #[trigger] texts(out@).contains(x) <==> (exists|q: int, t2: int| 0 <= q < j
                    && 0 <= t2 < bench.bays@[q].tool_names@.len()
                    && #[trigger] record_of(tool_records@, bench.bays@[q].tool_names@[t2]@) == Some(x) && tree_has(*tree, x))
                    || (exists|t2: int| 0 <= t2 < t + 1 && #[trigger] record_of(tool_records@, bay.tool_names@[t2]@) == Some(x) && tree_has(*tree, x)) by {
                    if texts(out@).contains(x) && !texts(prev).contains(x) {
                        let k = choose|k: int| 0 <= k < texts(out@).len() && texts(out@)[k] == x;
                        assert(k == prev.len());
                        assert(record_of(tool_records@, bay.tool_names@[t as int]@) == Some(x));
                    }
                    if texts(prev).contains(x) {
                        let k = choose|k: int| 0 <= k < texts(prev).len() && texts(prev)[k] == x;
                        assert(texts(out@)[k] == x);
                    }
                    if exists|t2: int| 0 <= t2 < t + 1 && #[trigger] record_of(tool_records@, bay.tool_names@[t2]@) == Some(x) && tree_has(*tree, x) {
                        let t2 = choose|t2: int| 0 <= t2 < t + 1 && #[trigger] record_of(tool_records@, bay.tool_names@[t2]@) == Some(x) && tree_has(*tree, x);
                        if t2 == t && !texts(prev).contains(x) {
                            assert(texts(out@)[prev.len() as int] == x);
                        }
                    }
                }
            }
            t = t + 1;
        }
        proof {
            assert forall|x: Seq<char>| #[trigger] texts(out@).contains(x) <==> exists|q: int, t2: int| 0 <= q < j + 1
                && 0 <= t2 < bench.bays@[q].tool_names@.len()
                && #[trigger] record_of(tool_records@, bench.bays@[q].tool_names@[t2]@) == Some(x) && tree_has(*tree, x) by {
                if exists|t2: int| 0 <= t2 < bay.tool_names@.len() && #[trigger] record_of(tool_records@, bay.tool_names@[t2]@) == Some(x) && tree_has(*tree, x) {
                    let t2 = choose|t2: int| 0 <= t2 < bay.tool_names@.len() && #[trigger] record_of(tool_records@, bay.tool_names@[t2]@) == Some(x) && tree_has(*tree, x);
                    assert(record_of(tool_records@, bench.bays@[j as int].tool_names@[t2]@) == Some(x));
                }
                if exists|q: int, t2: int| 0 <= q < j + 1 && 0 <= t2 < bench.bays@[q].tool_names@.len()
                    && #[trigger] record_of(tool_records@, bench.bays@[q].tool_names@[t2]@) == Some(x) && tree_has(*tree, x) {
                    let (q, t2) = choose|q: int, t2: int| 0 <= q < j + 1 && 0 <= t2 < bench.bays@[q].tool_names@.len()
                        && #[trigger] record_of(tool_records@, bench.bays@[q].tool_names@[t2]@) == Some(x) && tree_has(*tree, x);
                    if q == j {
                        assert(record_of(tool_records@, bay.tool_names@[t2]@) == Some(x));
                    }
                }
            }
        }
        j = j + 1;
    }
    out
}

} // verus!
