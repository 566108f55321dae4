//! Operations on whole benches: syncing the live layout back, declaring tools
//! in bays, reporting and planning.
use vstd::prelude::*;
use crate::error::BenchError;
use crate::layout_ops::{capture_current_layout, layout_of, windows_in_tree};
use crate::model::{windows_of, AssembledBench, BayView};
use crate::sway::TreeNode;
use crate::apps::{browser, terminal, zed, ToolKind, ToolState};
use crate::apps::tool::StateView;
use crate::assembly::{self, record_of, Action, BenchAssembly, workspace_of};
use crate::layout_ops::{bench_window, collect_bench_windows, get_windows_to_stow, stowed_workspace, to_stow};
use crate::sway::{current_windows, tree_has, windows_in};
use crate::text::{nat_text, u64_text};
use crate::model::{bay_names, bay_tools, find_definition, has_definition, AssembledTool, BaySpec, Bench, ToolDefinition};
use crate::sway::{window_views, WindowInfo, WindowView};
use crate::text::{contains_text, copy_opt, lemma_texts_push, opt_text, sort_texts, str_eq, texts, trim_text, trimmed};

verus! {

/// Windows that came onto and left each workspace since the last snapshot, as
/// (workspace, window id) pairs.
#[derive(Clone, Debug)]
pub struct LayoutDiff {
    pub added_windows: Vec<(String, String)>,
    pub removed_windows: Vec<(String, String)>,
}

pub open spec fn pair_texts(s: Seq<(String, String)>) -> Seq<(Seq<char>, Seq<char>)> {
    s.map_values(|p: (String, String)| (p.0@, p.1@))
}

/// The windows of `ids` that `other` does not list under `bay`, paired with the bay.
pub open spec fn missing_from(bay: Seq<char>, ids: Seq<Seq<char>>, other: Seq<BayView>) -> Seq<(Seq<char>, Seq<char>)>
    decreases ids.len(),
{
    if ids.len() == 0 {
        Seq::empty()
    } else {
        let r = missing_from(bay, ids.drop_last(), other);
        if windows_of(other, bay).contains(ids.last()) { r } else { r.push((bay, ids.last())) }
    }
}

/// The (bay, window) pairs of `a` that `b` does not have, in the order of `a`.
pub open spec fn layout_minus(a: Seq<BayView>, b: Seq<BayView>) -> Seq<(Seq<char>, Seq<char>)>
    decreases a.len(),
{
    if a.len() == 0 {
        Seq::empty()
    } else {
        layout_minus(a.drop_last(), b) + missing_from(a.last().0, a.last().1, b)
    }
}

pub open spec fn opt_layout(o: Option<AssembledBench>) -> Seq<BayView> {
    match o {
        Some(a) => a@,
        None => Seq::empty(),
    }
}

fn append_missing(out: &mut Vec<(String, String)>, a: &AssembledBench, b: &AssembledBench)
    requires
        crate::model::unique_bays(b@),
    ensures
        pair_texts(final(out)@) == pair_texts(old(out)@) + layout_minus(a@, b@),
{
    let ghost start = pair_texts(out@);
    let mut i: usize = 0;
    while i < a.bay_windows.len()
        invariant
            i <= a.bay_windows.len(),
            crate::model::unique_bays(b@),
            pair_texts(out@) == start + layout_minus(a@.subrange(0, i as int), b@),
        decreases a.bay_windows.len() - i,
    {
        let entry = &a.bay_windows[i];
        let others = b.windows(entry.bay.as_str());
        let ghost base = pair_texts(out@);
        let mut j: usize = 0;
        while j < entry.windows.len()
            invariant
                j <= entry.windows.len(),
                texts(others@) == windows_of(b@, entry.bay@),
                pair_texts(out@) == base + missing_from(entry.bay@, texts(entry.windows@).subrange(0, j as int), b@),
            decreases entry.windows.len() - j,
        {
            let id = &entry.windows[j];
            proof {
                assert(texts(entry.windows@).subrange(0, j + 1).drop_last() =~= texts(entry.windows@).subrange(0, j as int));
            }
            if !contains_text(&others, id) {
                let ghost prev = out@;
                out.push((entry.bay.clone(), id.clone()));
                assert(pair_texts(out@) =~= pair_texts(prev).push((entry.bay@, id@)));
            }
            assert(pair_texts(out@) =~= base + missing_from(entry.bay@, texts(entry.windows@).subrange(0, j + 1), b@));
            j = j + 1;
        }
        assert(texts(entry.windows@).subrange(0, entry.windows.len() as int) =~= texts(entry.windows@));
        proof {
            assert(a@.subrange(0, i + 1).drop_last() =~= a@.subrange(0, i as int));
            assert(a@.subrange(0, i + 1).last() == a@[i as int]);
        }
        assert(pair_texts(out@) =~= start + layout_minus(a@.subrange(0, i + 1), b@));
        i = i + 1;
    }
    assert(a@.subrange(0, a.bay_windows.len() as int) =~= a@);
}

/// The windows added to and removed from each workspace between two snapshots;
/// a missing old snapshot counts as empty.
pub fn layout_diff(old_layout: &Option<AssembledBench>, new_layout: &AssembledBench) -> (r: LayoutDiff)
    requires
        crate::model::unique_bays(new_layout@),
        old_layout matches Some(o) ==> crate::model::unique_bays(o@),
    ensures
        pair_texts(r.added_windows@) == layout_minus(new_layout@, opt_layout(*old_layout)),
        pair_texts(r.removed_windows@) == layout_minus(opt_layout(*old_layout), new_layout@),
{
    let mut added: Vec<(String, String)> = Vec::new();
    let mut removed: Vec<(String, String)> = Vec::new();
    let empty = AssembledBench::new();
    let old = match old_layout {
        Some(o) => o,
        None => &empty,
    };
    assert(old@ == opt_layout(*old_layout));
    append_missing(&mut added, new_layout, old);
    append_missing(&mut removed, old, new_layout);
    assert(pair_texts(Seq::<(String, String)>::empty()) =~= Seq::<(Seq<char>, Seq<char>)>::empty());
    assert(Seq::<(Seq<char>, Seq<char>)>::empty() + layout_minus(new_layout@, old@) =~= layout_minus(new_layout@, old@));
    assert(Seq::<(Seq<char>, Seq<char>)>::empty() + layout_minus(old@, new_layout@) =~= layout_minus(old@, new_layout@));
    LayoutDiff { added_windows: added, removed_windows: removed }
}

/// The outcome of syncing the focused bench's layout: the bench it belongs to,
/// the snapshot to store for it, and what changed.
#[derive(Clone, Debug)]
pub struct LayoutSync {
    pub bench_name: String,
    pub layout: AssembledBench,
    pub diff: LayoutDiff,
}

/// Captures the live layout for the focused bench and compares it with the last
/// stored snapshot. The captured layout replaces the stored one whatever the
/// difference.
pub fn sync_layout(focused: Option<String>, old_layout: Option<AssembledBench>, tree: &TreeNode) -> (r: Result<LayoutSync, BenchError>)
    requires
        old_layout matches Some(o) ==> crate::model::unique_bays(o@),
    ensures
        focused is None ==> r matches Err(BenchError::NoFocusedBench),
        focused matches Some(name) ==> r matches Ok(s) && s.bench_name == name
            && s.layout@ == layout_of(windows_in_tree(*tree))
            && pair_texts(s.diff.added_windows@) == layout_minus(s.layout@, opt_layout(old_layout))
            && pair_texts(s.diff.removed_windows@) == layout_minus(opt_layout(old_layout), s.layout@),
{
    let bench_name = match focused {
        Some(n) => n,
        None => return Err(BenchError::NoFocusedBench),
    };
    let layout = capture_current_layout(tree);
    let diff = layout_diff(&old_layout, &layout);
    Ok(LayoutSync { bench_name, layout, diff })
}

/// Where a tool of a bench stands, as reported to the user.
#[derive(Clone, Debug)]
pub struct ToolStatus {
    pub name: String,
    pub bay: String,
    pub window_id: Option<String>,
    pub workspace: Option<String>,
    /// Whether the tool was started by this command.
    pub assembled: bool,
}

/// Relies on `time::OffsetDateTime::now_utc` and `unix_timestamp`: the current
/// time in Unix seconds. Nothing is known of its value.
#[verifier::external_body]
fn now_unix_seconds() -> (r: i64) {
    time::OffsetDateTime::now_utc().unix_timestamp()
}

/// Declares a new, empty bench, created now; a bench of that name must not exist.
pub fn create_bench(name: &str, exists: bool) -> (r: Result<Bench, BenchError>)
    ensures
        exists ==> (r matches Err(BenchError::BenchExists(n)) && n@ == name@),
        !exists ==> (r matches Ok(b) && b.name@ == name@ && b.bays@.len() == 0 && b.last_focused_at is None
            && b.assembled@.len() == 0),
{
    if exists {
        return Err(BenchError::BenchExists(name.to_owned()));
    }
    Ok(Bench {
        name: name.to_owned(),
        bays: Vec::new(),
        created_at: now_unix_seconds(),
        last_focused_at: None,
        assembled: AssembledBench::new(),
    })
}

/// The empty state of a kind.
pub open spec fn empty_state(kind: ToolKind) -> StateView {
    match kind {
        ToolKind::Browser => StateView::Browser(Seq::empty()),
        ToolKind::Terminal => StateView::Terminal(None, Seq::empty()),
        ToolKind::Zed => StateView::Zed(None),
    }
}

/// Declares a new tool of a kind with an empty state, created now; a tool of
/// that name must not exist.
pub fn craft_tool(kind: ToolKind, name: &str, exists: bool) -> (r: Result<ToolDefinition, BenchError>)
    ensures
        exists ==> (r matches Err(BenchError::ToolExists(n)) && n@ == name@),
        !exists ==> (r matches Ok(d) && d.name@ == name@ && d.kind == kind && d.last_assembled_at is None
            && d.assembled is None && crate::apps::tool::opt_state(d.state) == Some(empty_state(kind))),
{
    if exists {
        return Err(BenchError::ToolExists(name.to_owned()));
    }
    let state = match kind {
        ToolKind::Browser => ToolState::Browser(browser::Config { urls: Vec::new() }),
        ToolKind::Terminal => ToolState::Terminal(terminal::Config { cwd: None, command: Vec::new() }),
        ToolKind::Zed => ToolState::Zed(zed::Config { path: None }),
    };
    proof {
        assert(texts(Seq::<String>::empty()) =~= Seq::<Seq<char>>::empty());
    }
    Ok(ToolDefinition {
        name: name.to_owned(),
        kind,
        created_at: now_unix_seconds(),
        last_assembled_at: None,
        state: Some(state),
        assembled: None,
    })
}

/// The position of the first occurrence of `x` in `s`.
pub open spec fn first_pos(s: Seq<Seq<char>>, x: Seq<char>) -> int {
    choose|i: int| 0 <= i < s.len() && s[i] == x && forall|k: int| 0 <= k < i ==> s[k] != x
}

/// The position of the first bay of that name.
fn find_bay_spec(bays: &Vec<BaySpec>, name: &str) -> (r: Option<usize>)
    ensures
        match r {
            Some(i) => i < bays@.len() && bays@[i as int].name@ == name@ && forall|k: int| 0 <= k < i ==> bays@[k].name@ != name@,
            None => !bay_names(bays@).contains(name@),
        },
{
    let mut i: usize = 0;
    while i < bays.len()
        invariant
            i <= bays.len(),
            forall|k: int| 0 <= k < i ==> bays@[k].name@ != name@,
        decreases bays.len() - i,
    {
        if str_eq(bays[i].name.as_str(), name) {
            return Some(i);
        }
        i = i + 1;
    }
    proof {
        assert forall|k: int| 0 <= k < bay_names(bays@).len() implies bay_names(bays@)[k] != name@ by {
            assert(bay_names(bays@)[k] == bays@[k].name@);
        }
    }
    None
}

/// Declares a tool in a bay of a bench: the tool must exist, and must not be in
/// that bay already. A bay not declared yet is added with the tool.
pub fn add_tool_to_bench(bench: &mut Bench, tool_name: &str, bay_name: &str, tool_exists: bool) -> (r: Result<(), BenchError>)
    ensures
        !tool_exists ==> (r matches Err(BenchError::ToolNotFound(n)) && n@ == tool_name@ && bay_tools(final(bench).bays@) == bay_tools(old(bench).bays@)),
        tool_exists ==> ({
            let names = bay_names(old(bench).bays@);
            let tools = bay_tools(old(bench).bays@);
            if names.contains(bay_name@) {
                let i = first_pos(names, bay_name@);
                if tools[i].contains(tool_name@) {
                    r matches Err(BenchError::ToolAlreadyInBay { tool, bay }) && tool@ == tool_name@ && bay@ == bay_name@
                        && bay_tools(final(bench).bays@) == tools
                } else {
                    r is Ok && bay_tools(final(bench).bays@) == tools.update(i, tools[i].push(tool_name@))
                }
            } else {
                r is Ok && bay_tools(final(bench).bays@) == tools.push(seq![tool_name@])
            }
        }),
        bay_names(final(bench).bays@) == if tool_exists && !bay_names(old(bench).bays@).contains(bay_name@) {
            bay_names(old(bench).bays@).push(bay_name@)
        } else {
            bay_names(old(bench).bays@)
        },
        final(bench).name == old(bench).name,
{
    if !tool_exists {
        return Err(BenchError::ToolNotFound(tool_name.to_owned()));
    }
    let ghost names = bay_names(bench.bays@);
    let ghost tools = bay_tools(bench.bays@);
    match find_bay_spec(&bench.bays, bay_name) {
        Some(i) => {
            proof {
                assert(names[i as int] == bay_name@);
                assert forall|k: int| 0 <= k < i implies names[k] != bay_name@ by {
                    assert(names[k] == bench.bays@[k].name@);
                }
                assert(first_pos(names, bay_name@) == i);
                assert(tools[i as int] == texts(bench.bays@[i as int].tool_names@));
            }
            let tool = tool_name.to_owned();
            if contains_text(&bench.bays[i].tool_names, &tool) {
                return Err(BenchError::ToolAlreadyInBay { tool, bay: bay_name.to_owned() });
            }
            let ghost prev = bench.bays@;
            let mut bay = bench.bays.remove(i);
            let ghost old_tools = bay.tool_names@;
            bay.tool_names.push(tool);
            proof { lemma_texts_push(old_tools, bay.tool_names@.last()); }
            bench.bays.insert(i, bay);
            proof {
                assert(bench.bays@ =~= prev.update(i as int, bench.bays@[i as int]));
                assert(bay_names(bench.bays@) =~= names);
                assert(bay_tools(bench.bays@) =~= tools.update(i as int, tools[i as int].push(tool_name@)));
            }
            Ok(())
        },
        None => {
            let ghost prev = bench.bays@;
            let spec_bay = BaySpec { name: bay_name.to_owned(), tool_names: vec![tool_name.to_owned()] };
            assert(texts(spec_bay.tool_names@) =~= seq![tool_name@]);
            bench.bays.push(spec_bay);
            proof {
                assert(bay_names(bench.bays@) =~= names.push(bay_name@));
                assert(bay_tools(bench.bays@) =~= tools.push(seq![tool_name@]));
            }
            Ok(())
        },
    }
}

/// The bench or tool names among the files of a store directory: the stems of
/// the `.yml` files.
pub open spec fn yml_stems(files: Seq<Seq<char>>) -> Seq<Seq<char>>
    decreases files.len(),
{
    if files.len() == 0 {
        Seq::empty()
    } else {
        let r = yml_stems(files.drop_last());
        let f = files.last();
        if f.len() > 4 && f.subrange(f.len() - 4, f.len() as int) == ".yml"@ {
            r.push(f.subrange(0, f.len() - 4))
        } else {
            r
        }
    }
}

fn yml_stem(file: &str) -> (r: Option<String>)
    ensures
        match r {
            Some(s) => file@.len() > 4 && file@.subrange(file@.len() - 4, file@.len() as int) == ".yml"@
                && s@ == file@.subrange(0, file@.len() - 4),
            None => !(file@.len() > 4 && file@.subrange(file@.len() - 4, file@.len() as int) == ".yml"@),
        },
{
    let n = file.unicode_len();
    if n <= 4 {
        return None;
    }
    let ext = file.substring_char(n - 4, n);
    proof { reveal_strlit(".yml"); }
    if str_eq(ext, ".yml") {
        Some(file.substring_char(0, n - 4).to_owned())
    } else {
        None
    }
}

/// The sorted stems of the `.yml` files of a directory.
fn sorted_stems(files: &Vec<String>) -> (r: Vec<String>)
    ensures
        texts(r@).to_multiset() == yml_stems(texts(files@)).to_multiset(),
        forall|i: int, j: int| 0 <= i < j < r@.len() ==> crate::text::text_le(#[trigger] r@[i]@, #[trigger] r@[j]@),
{
    let mut out: Vec<String> = Vec::new();
    let mut i: usize = 0;
    while i < files.len()
        invariant
            i <= files.len(),
            texts(out@) == yml_stems(texts(files@).subrange(0, i as int)),
        decreases files.len() - i,
    {
        proof {
            assert(texts(files@).subrange(0, i + 1).drop_last() =~= texts(files@).subrange(0, i as int));
            assert(texts(files@).subrange(0, i + 1).last() == files@[i as int]@);
        }
        if let Some(stem) = yml_stem(files[i].as_str()) {
            let ghost prev = out@;
            out.push(stem);
            proof { lemma_texts_push(prev, out@.last()); }
        }
        i = i + 1;
    }
    assert(texts(files@).subrange(0, files.len() as int) =~= texts(files@));
    sort_texts(&mut out);
    out
}

/// The declared benches, from the file names of the benches directory, sorted.
pub fn list_benches(file_names: &Vec<String>) -> (r: Vec<String>)
    ensures
        texts(r@).to_multiset() == yml_stems(texts(file_names@)).to_multiset(),
        forall|i: int, j: int| 0 <= i < j < r@.len() ==> crate::text::text_le(#[trigger] r@[i]@, #[trigger] r@[j]@),
{
    sorted_stems(file_names)
}

/// The declared tools, from the file names of the tools directory, sorted.
pub fn list_tools(file_names: &Vec<String>) -> (r: Vec<String>)
    ensures
        texts(r@).to_multiset() == yml_stems(texts(file_names@)).to_multiset(),
        forall|i: int, j: int| 0 <= i < j < r@.len() ==> crate::text::text_le(#[trigger] r@[i]@, #[trigger] r@[j]@),
{
    sorted_stems(file_names)
}

/// The focused bench from the contents of its marker: the trimmed text, none
/// when there is no marker or it is blank.
pub fn focused_bench(marker: &Option<String>) -> (r: Option<String>)
    ensures
        match *marker {
            Some(m) => if trimmed(m@).len() == 0 { r is None } else { opt_text(r) == Some(trimmed(m@)) },
            None => r is None,
        },
{
    match marker {
        Some(m) => {
            let name = trim_text(m.as_str());
            if name.unicode_len() == 0 { None } else { Some(name) }
        },
        None => None,
    }
}

/// Starts assembling one tool in a bay; the tool must be declared.
pub fn assemble_tool(
    tool_name: &str,
    bay: &str,
    definitions: Vec<ToolDefinition>,
    records: Vec<(String, AssembledTool)>,
    home: Option<String>,
    timeout_ms: u64,
) -> (r: Result<(BenchAssembly, Action), BenchError>)
    ensures
        !has_definition(definitions@, tool_name@) ==> (r matches Err(BenchError::ToolNotFound(n)) && n@ == tool_name@),
        has_definition(definitions@, tool_name@) ==> (r matches Ok(p) && bay_names(p.0.bays@) == seq![bay@]
            && bay_tools(p.0.bays@) == seq![seq![tool_name@]] && p.1 is Snapshot && p.0.phase is Prune
            && crate::assembly::pass_inv(p.0) && p.0.records@ == records@ && p.0.definitions@ == definitions@),
{
    if find_definition(&definitions, tool_name).is_none() {
        return Err(BenchError::ToolNotFound(tool_name.to_owned()));
    }
    Ok(crate::tool_ops::assemble_tool(tool_name, bay, definitions, records, home, timeout_ms))
}

/// The user-facing status of a tool from its assembly status.
pub fn report_status(s: &assembly::ToolStatus) -> (r: ToolStatus)
    ensures
        r.name@ == s.name@,
        r.bay@ == s.bay@,
        opt_text(r.window_id) == opt_text(s.window_id),
        opt_text(r.workspace) == opt_text(s.workspace),
        r.assembled == s.launched,
{
    ToolStatus {
        name: s.name.clone(),
        bay: s.bay.clone(),
        window_id: copy_opt(&s.window_id),
        workspace: copy_opt(&s.workspace),
        assembled: s.launched,
    }
}

impl View for ToolStatus {
    type V = assembly::StatusView;

    open spec fn view(&self) -> assembly::StatusView {
        assembly::StatusView {
            name: self.name@,
            bay: self.bay@,
            window_id: opt_text(self.window_id),
            workspace: opt_text(self.workspace),
            launched: self.assembled,
        }
    }
}

pub open spec fn report_views(s: Seq<ToolStatus>) -> Seq<assembly::StatusView> {
    s.map_values(|t: ToolStatus| t@)
}

/// Whether some window has this id.
pub open spec fn window_present(ws: Seq<WindowView>, id: Seq<char>) -> bool {
    exists|k: int| 0 <= k < ws.len() && ws[k].id == id
}

/// The status of one tool as `info` reports it: its recorded window and where
/// that window sits now.
pub open spec fn info_status(bay: Seq<char>, name: Seq<char>, recs: Seq<(String, AssembledTool)>, ws: Seq<WindowView>) -> assembly::StatusView {
    assembly::StatusView {
        name,
        bay,
        window_id: record_of(recs, name),
        workspace: match record_of(recs, name) {
            Some(id) => workspace_of(ws, id),
            None => None,
        },
        launched: false,
    }
}

pub open spec fn info_bay(bay: Seq<char>, names: Seq<Seq<char>>, recs: Seq<(String, AssembledTool)>, ws: Seq<WindowView>) -> Seq<assembly::StatusView>
    decreases names.len(),
{
    if names.len() == 0 {
        Seq::empty()
    } else {
        info_bay(bay, names.drop_last(), recs, ws).push(info_status(bay, names.last(), recs, ws))
    }
}

pub open spec fn info_statuses(bays: Seq<BaySpec>, recs: Seq<(String, AssembledTool)>, ws: Seq<WindowView>) -> Seq<assembly::StatusView>
    decreases bays.len(),
{
    if bays.len() == 0 {
        Seq::empty()
    } else {
        info_statuses(bays.drop_last(), recs, ws) + info_bay(bays.last().name@, texts(bays.last().tool_names@), recs, ws)
    }
}

/// Whether every tool of the bench has a recorded window that is present.
pub open spec fn all_present(bays: Seq<BaySpec>, recs: Seq<(String, AssembledTool)>, ws: Seq<WindowView>) -> bool {
    forall|j: int, t: int| 0 <= j < bays.len() && 0 <= t < bays[j].tool_names@.len() ==>
        (#[trigger] record_of(recs, bays[j].tool_names@[t]@)) is Some
        && window_present(ws, record_of(recs, bays[j].tool_names@[t]@)->Some_0)
}

/// The windows that sit on a workspace other than a stowed one.
pub open spec fn active_windows(ws: Seq<WindowView>) -> Seq<WindowView>
    decreases ws.len(),
{
    if ws.len() == 0 {
        Seq::empty()
    } else {
        let r = active_windows(ws.drop_last());
        let w = ws.last();
        if w.workspace is Some && !stowed_workspace(w.workspace->Some_0) { r.push(w) } else { r }
    }
}

/// What `info` tells of a bench.
#[derive(Clone, Debug)]
pub struct BenchInfo {
    pub bench: Bench,
    /// Whether every tool of the bench has a recorded window that is present.
    pub assembled: bool,
    /// Whether the bench is the focused one.
    pub focused: bool,
    pub statuses: Vec<ToolStatus>,
    /// The windows that sit on a workspace other than a stowed one.
    pub current_windows: Vec<WindowInfo>,
    pub saved_layout: Option<AssembledBench>,
}

fn find_window(windows: &Vec<WindowInfo>, id: &str) -> (r: bool)
    ensures
        r == window_present(window_views(windows@), id@),
{
    let mut k: usize = 0;
    while k < windows.len()
        invariant
            k <= windows.len(),
            forall|q: int| 0 <= q < k ==> window_views(windows@)[q].id != id@,
        decreases windows.len() - k,
    {
        if str_eq(windows[k].id.as_str(), id) {
            proof { assert(window_views(windows@)[k as int].id == id@); }
            return true;
        }
        proof { assert(window_views(windows@)[k as int].id == windows@[k as int].id@); }
        k = k + 1;
    }
    false
}

/// Reports on a bench: each tool's recorded window and where it sits, whether
/// all of them are present, whether the bench is the focused one, the windows
/// outside stowed workspaces, and the saved layout.
pub fn info(
    bench: Bench,
    focused: &Option<String>,
    tool_records: &Vec<(String, AssembledTool)>,
    windows: Vec<WindowInfo>,
    saved_layout: Option<AssembledBench>,
) -> (r: BenchInfo)
    ensures
        r.focused == (opt_text(*focused) == Some(bench.name@)),
        report_views(r.statuses@) == info_statuses(bench.bays@, tool_records@, window_views(windows@)),
        r.assembled == all_present(bench.bays@, tool_records@, window_views(windows@)),
        window_views(r.current_windows@) == active_windows(window_views(windows@)),
        r.bench == bench,
        r.saved_layout == saved_layout,
{
    let is_focused = match focused {
        Some(f) => *f == bench.name,
        None => false,
    };
    let ghost ws = window_views(windows@);
    let mut statuses: Vec<ToolStatus> = Vec::new();
    let mut assembled = true;
    let mut j: usize = 0;
    while j < bench.bays.len()
        invariant
            j <= bench.bays.len(),
            ws == window_views(windows@),
            report_views(statuses@) == info_statuses(bench.bays@.subrange(0, j as int), tool_records@, ws),
            assembled == forall|q: int, t: int| 0 <= q < j && 0 <= t < bench.bays@[q].tool_names@.len() ==>
                (#[trigger] record_of(tool_records@, bench.bays@[q].tool_names@[t]@)) is Some
                && window_present(ws, record_of(tool_records@, bench.bays@[q].tool_names@[t]@)->Some_0),
        decreases bench.bays.len() - j,
    {
        let bay = &bench.bays[j];
        let ghost base = report_views(statuses@);
        let ghost all_before = assembled;
        let mut t: usize = 0;
        while t < bay.tool_names.len()
            invariant
                t <= bay.tool_names.len(),
                j < bench.bays@.len(),
                *bay == bench.bays@[j as int],
                ws == window_views(windows@),
                report_views(statuses@) == base + info_bay(bay.name@, texts(bay.tool_names@).subrange(0, t as int), tool_records@, ws),
                assembled == (all_before && forall|t2: int| 0 <= t2 < t ==>
                    (#[trigger] record_of(tool_records@, bay.tool_names@[t2]@)) is Some
                    && window_present(ws, record_of(tool_records@, bay.tool_names@[t2]@)->Some_0)),
            decreases bay.tool_names.len() - t,
        {
            let name = &bay.tool_names[t];
            let rec = crate::assembly::lookup_record(tool_records, name.as_str());
            let (workspace, present) = match &rec {
                Some(id) => (crate::assembly::workspace_lookup(&windows, id.as_str()), find_window(&windows, id.as_str())),
                None => (None, false),
            };
            if !present {
                assembled = false;
            }
            let ghost prev = statuses@;
            statuses.push(ToolStatus { name: name.clone(), bay: bay.name.clone(), window_id: rec, workspace, assembled: false });
            proof {
                let names = texts(bay.tool_names@);
                assert(names.subrange(0, t + 1).drop_last() =~= names.subrange(0, t as int));
                assert(names.subrange(0, t + 1).last() == name@);
                assert(report_views(statuses@) =~= report_views(prev).push(statuses@.last()@));
            }
            t = t + 1;
        }
        proof {
            assert(texts(bay.tool_names@).subrange(0, bay.tool_names.len() as int) =~= texts(bay.tool_names@));
            assert(bench.bays@.subrange(0, j + 1).drop_last() =~= bench.bays@.subrange(0, j as int));
            assert(bench.bays@.subrange(0, j + 1).last() == *bay);
        }
        j = j + 1;
    }
    assert(bench.bays@.subrange(0, bench.bays.len() as int) =~= bench.bays@);
    let mut active: Vec<WindowInfo> = Vec::new();
    let mut k: usize = 0;
    while k < windows.len()
        invariant
            k <= windows.len(),
            ws == window_views(windows@),
            window_views(active@) == active_windows(ws.subrange(0, k as int)),
        decreases windows.len() - k,
    {
        let w = &windows[k];
        proof {
            assert(ws.subrange(0, k + 1).drop_last() =~= ws.subrange(0, k as int));
            assert(ws.subrange(0, k + 1).last() == w@);
        }
        let keep = match &w.workspace {
            Some(name) => !crate::layout_ops::is_stowed_workspace(name.as_str()),
            None => false,
        };
        if keep {
            let ghost prev = active@;
            active.push(crate::layout_ops::copy_window(w));
            assert(window_views(active@) =~= window_views(prev).push(w@));
        }
        k = k + 1;
    }
    assert(ws.subrange(0, windows.len() as int) =~= ws);
    BenchInfo { bench, assembled, focused: is_focused, statuses, current_windows: active, saved_layout }
}

/// The line of the plan for one tool: kept when its recorded window is alive,
/// else to be assembled.
pub open spec fn tool_line(tool: Seq<char>, recs: Seq<(String, AssembledTool)>, tree: TreeNode) -> Seq<char> {
    match record_of(recs, tool) {
        Some(id) => if tree_has(tree, id) {
            "  ✓ "@ + tool + " (window "@ + id + ") - already assembled\n"@
        } else {
            "  ✗ "@ + tool + " - will be assembled\n"@
        },
        None => "  ✗ "@ + tool + " - will be assembled\n"@,
    }
}

pub open spec fn tool_lines(names: Seq<Seq<char>>, recs: Seq<(String, AssembledTool)>, tree: TreeNode) -> Seq<char>
    decreases names.len(),
{
    if names.len() == 0 {
        Seq::empty()
    } else {
        tool_lines(names.drop_last(), recs, tree) + tool_line(names.last(), recs, tree)
    }
}

pub open spec fn bench_tool_lines(bays: Seq<Seq<Seq<char>>>, recs: Seq<(String, AssembledTool)>, tree: TreeNode) -> Seq<char>
    decreases bays.len(),
{
    if bays.len() == 0 {
        Seq::empty()
    } else {
        bench_tool_lines(bays.drop_last(), recs, tree) + tool_lines(bays.last(), recs, tree)
    }
}

/// The windows to stow before a focus: those that are no live recorded window of
/// the bench and are not stowed already.
pub open spec fn plan_stow(ws: Seq<WindowView>, bench: Bench, recs: Seq<(String, AssembledTool)>, tree: TreeNode) -> Seq<WindowView>
    decreases ws.len(),
{
    if ws.len() == 0 {
        Seq::empty()
    } else {
        let r = plan_stow(ws.drop_last(), bench, recs, tree);
        let w = ws.last();
        if bench_window(bench, recs, tree, w.id) || (w.workspace is Some && stowed_workspace(w.workspace->Some_0)) {
            r
        } else {
            r.push(w)
        }
    }
}

proof fn lemma_plan_stow(ws: Seq<WindowView>, b: Seq<Seq<char>>, bench: Bench, recs: Seq<(String, AssembledTool)>, tree: TreeNode)
    requires
        forall|id: Seq<char>| #[trigger] b.contains(id) <==> bench_window(bench, recs, tree, id),
    ensures
        to_stow(ws, b) == plan_stow(ws, bench, recs, tree),
    decreases ws.len(),
{
    if ws.len() > 0 {
        lemma_plan_stow(ws.drop_last(), b, bench, recs, tree);
        assert(b.contains(ws.last().id) == bench_window(bench, recs, tree, ws.last().id));
    }
}

pub open spec fn stow_lines(ws: Seq<WindowView>) -> Seq<char>
    decreases ws.len(),
{
    if ws.len() == 0 {
        Seq::empty()
    } else {
        let w = ws.last();
        stow_lines(ws.drop_last()) + "  → Window "@ + w.id + " from workspace "@ + match w.workspace {
            Some(x) => x,
            None => "<unknown>"@,
        } + "\n"@
    }
}

pub open spec fn layout_lines(v: Seq<BayView>) -> Seq<char>
    decreases v.len(),
{
    if v.len() == 0 {
        Seq::empty()
    } else {
        layout_lines(v.drop_last()) + "  Bay '"@ + v.last().0 + "': "@ + nat_text(v.last().1.len()) + " window(s)\n"@
    }
}

/// The plan of a focus, as text: which tools are kept and which will be
/// assembled, which windows will be stowed, and how the saved layout places the
/// bench's windows.
pub open spec fn focus_plan_text(
    bench_name: Seq<char>,
    bench: Bench,
    recs: Seq<(String, AssembledTool)>,
    tree: TreeNode,
    saved: Seq<BayView>,
) -> Seq<char> {
    let stow = plan_stow(windows_in(tree, None), bench, recs, tree);
    "Plan for focusing bench '"@ + bench_name + "'\n\n"@ + "Tools:\n"@ + bench_tool_lines(bay_tools(bench.bays@), recs, tree)
        + "\nWindows to stow:\n"@ + (if stow.len() == 0 { "  (none)\n"@ } else { stow_lines(stow) })
        + "\nBench window placement:\n"@ + (if saved.len() == 0 {
            "  (no saved layout - windows will be placed in their bay workspaces)\n"@
        } else {
            layout_lines(saved)
        })
}

/// Describes what focusing a bench would do, without doing it.
pub fn focus_plan(
    bench_name: &str,
    bench: &Bench,
    tool_records: &Vec<(String, AssembledTool)>,
    tree: &TreeNode,
    saved_layout: &Option<AssembledBench>,
) -> (r: String)
    ensures
        r@ == focus_plan_text(bench_name@, *bench, tool_records@, *tree, opt_layout(*saved_layout)),
{
    let mut out = crate::text::concat3("Plan for focusing bench '", bench_name, "'\n\n");
    out.append("Tools:\n");
    let ghost head = out@;
    let ghost bays = bay_tools(bench.bays@);
    let mut j: usize = 0;
    while j < bench.bays.len()
        invariant
            j <= bench.bays.len(),
            bays == bay_tools(bench.bays@),
            out@ == head + bench_tool_lines(bays.subrange(0, j as int), tool_records@, *tree),
        decreases bench.bays.len() - j,
    {
        let names = &bench.bays[j].tool_names;
        let ghost base = out@;
        let mut t: usize = 0;
        while t < names.len()
            invariant
                t <= names.len(),
                out@ == base + tool_lines(texts(names@).subrange(0, t as int), tool_records@, *tree),
            decreases names.len() - t,
        {
            let name = &names[t];
            proof {
                assert(texts(names@).subrange(0, t + 1).drop_last() =~= texts(names@).subrange(0, t as int));
                assert(texts(names@).subrange(0, t + 1).last() == name@);
            }
            let ghost before = out@;
            let rec = crate::assembly::lookup_record(tool_records, name.as_str());
            let alive = match &rec {
                Some(id) => if crate::sway::container_exists(tree, id.as_str()) { Some(id.clone()) } else { None },
                None => None,
            };
            match alive {
                Some(id) => {
                    out.append("  ✓ ");
                    out.append(name.as_str());
                    out.append(" (window ");
                    out.append(id.as_str());
                    out.append(") - already assembled\n");
                },
                None => {
                    out.append("  ✗ ");
                    out.append(name.as_str());
                    out.append(" - will be assembled\n");
                },
            }
            assert(out@ =~= before + tool_line(name@, tool_records@, *tree));
            t = t + 1;
        }
        proof {
            assert(texts(names@).subrange(0, names.len() as int) =~= texts(names@));
            assert(bays.subrange(0, j + 1).drop_last() =~= bays.subrange(0, j as int));
            assert(bays.subrange(0, j + 1).last() == texts(names@));
        }
        j = j + 1;
    }
    assert(bays.subrange(0, bench.bays.len() as int) =~= bays);
    out.append("\nWindows to stow:\n");
    let bench_windows = collect_bench_windows(bench, tool_records, tree);
    let windows = current_windows(tree);
    let stow = get_windows_to_stow(&bench_windows, &windows);
    proof { lemma_plan_stow(window_views(windows@), texts(bench_windows@), *bench, tool_records@, *tree); }
    if stow.len() == 0 {
        out.append("  (none)\n");
    } else {
        let ghost base = out@;
        let ghost sv = window_views(stow@);
        let mut k: usize = 0;
        while k < stow.len()
            invariant
                k <= stow.len(),
                sv == window_views(stow@),
                out@ == base + stow_lines(sv.subrange(0, k as int)),
            decreases stow.len() - k,
        {
            let w = &stow[k];
            proof {
                assert(sv.subrange(0, k + 1).drop_last() =~= sv.subrange(0, k as int));
                assert(sv.subrange(0, k + 1).last() == w@);
            }
            let ghost before = out@;
            out.append("  → Window ");
            out.append(w.id.as_str());
            out.append(" from workspace ");
            match &w.workspace {
                Some(x) => out.append(x.as_str()),
                None => out.append("<unknown>"),
            }
            out.append("\n");
            assert(out@ =~= before + ("  → Window "@ + w@.id + " from workspace "@ + match w@.workspace {
                Some(x) => x,
                None => "<unknown>"@,
            } + "\n"@));
            k = k + 1;
        }
        assert(sv.subrange(0, stow.len() as int) =~= sv);
    }
    out.append("\nBench window placement:\n");
    let empty = AssembledBench::new();
    let saved = match saved_layout {
        Some(a) => a,
        None => &empty,
    };
    assert(saved@ == opt_layout(*saved_layout));
    if saved.bay_windows.len() == 0 {
        out.append("  (no saved layout - windows will be placed in their bay workspaces)\n");
    } else {
        let ghost base = out@;
        let mut k: usize = 0;
        while k < saved.bay_windows.len()
            invariant
                k <= saved.bay_windows.len(),
                out@ == base + layout_lines(saved@.subrange(0, k as int)),
            decreases saved.bay_windows.len() - k,
        {
            let e = &saved.bay_windows[k];
            proof {
                assert(saved@.subrange(0, k + 1).drop_last() =~= saved@.subrange(0, k as int));
                assert(saved@.subrange(0, k + 1).last() == saved@[k as int]);
                assert(texts(e.windows@).len() == e.windows@.len());
            }
            let ghost before = out@;
            let count = u64_text(e.windows.len() as u64);
            out.append("  Bay '");
            out.append(e.bay.as_str());
            out.append("': ");
            out.append(count.as_str());
            out.append(" window(s)\n");
            assert(out@ =~= before + ("  Bay '"@ + saved@[k as int].0 + "': "@ + nat_text(saved@[k as int].1.len()) + " window(s)\n"@));
            k = k + 1;
        }
        assert(saved@.subrange(0, saved.bay_windows.len() as int) =~= saved@);
    }
    out
}

} // verus!
