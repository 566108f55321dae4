//! The bench assembler: resolving each declared tool to a live window (reuse the
//! recorded one, else discover one by signature, else launch and wait for a new
//! one), pruning closed windows from the snapshot, and the stow and focus plans.
use vstd::prelude::*;
use crate::apps::tool::kind_signatures;
use crate::apps::tool::copy_opt_state;
use crate::apps::{browser, terminal, zed, BenchTool, LaunchCommand, Tool, ToolKind, ToolState};
use crate::error::BenchError;
use crate::model::{copy_bays, find_definition, AssembledBench, AssembledTool, BayView, BaySpec, BayWindows, Bench, ToolDefinition, no_dups};
use crate::sway::{current_windows, first_new, wait_for_new_container, window_views, WaitStep, WindowInfo, WindowView};
use crate::apps::tool::{tool_identifier, StateView};
use crate::text::copy_opt;
use crate::layout_ops::{command_views, lemma_commands_push, lemma_placed_to, placed_after, scratch, target, touches, CommandView, LayoutCommand};
use crate::model::{bay_names, first_windows};
use crate::sway::{container_exists, matching_container_ids, matching_ids, sig_texts, tree_has, TreeNode};
use crate::text::{contains_text, lemma_texts_push, opt_text, str_eq, texts};

verus! {

/// What std's `DefaultHasher` yields for a string.
pub uninterp spec fn str_hash(key: Seq<char>) -> u64;

/// Relies on `std::collections::hash_map::DefaultHasher::new` with `Hash` for
/// `str`: every hasher built by `new` starts from the same fixed keys, so with a
/// given build of std the hash depends on the text alone (std leaves the
/// algorithm free to change between releases).
#[verifier::external_body]
fn hash_text(key: &str) -> (r: u64)
    ensures
        r == str_hash(key@),
{
    let mut hasher = std::collections::hash_map::DefaultHasher::new();
    std::hash::Hash::hash(key, &mut hasher);
    std::hash::Hasher::finish(&hasher)
}

/// The endpoint a key gets: `base` plus its hash modulo `span`.
pub open spec fn endpoint_of(key: Seq<char>, base: u16, span: u16) -> int {
    base + (str_hash(key) as int) % (span as int)
}

/// Derives an endpoint from a key: `base + hash(key) mod span`. Two keys may land
/// on the same endpoint; nothing probes for a free one.
pub fn stable_endpoint(key: &str, base: u16, span: u16) -> (r: u16)
    requires
        span > 0,
        base + span <= 65536,
    ensures
        r == endpoint_of(key@, base, span),
        base <= r < base + span,
{
    let h = hash_text(key);
    base + (h % (span as u64)) as u16
}

/// The same key always yields the same endpoint, within `base .. base + span`.
pub proof fn lemma_endpoint_deterministic(a: Seq<char>, b: Seq<char>, base: u16, span: u16)
    requires
        a == b,
        span > 0,
    ensures
        endpoint_of(a, base, span) == endpoint_of(b, base, span),
        base <= endpoint_of(a, base, span) < base + span,
{
}

/// The first DevTools port of the range browser tools get.
pub const DEBUG_PORT_BASE: u16 = 9222;

/// How many DevTools ports browser tools share.
pub const DEBUG_PORT_SPAN: u16 = 1000;

/// The DevTools port of a browser tool: the one it is launched with and the one
/// its tabs are read from.
pub open spec fn debug_port_of(key: Seq<char>) -> int {
    endpoint_of(key, DEBUG_PORT_BASE, DEBUG_PORT_SPAN)
}

/// The DevTools port of a browser tool, from its name.
pub fn stable_debug_port(key: &str) -> (r: u16)
    ensures
        r == debug_port_of(key@),
        9222 <= r < 10222,
{
    stable_endpoint(key, DEBUG_PORT_BASE, DEBUG_PORT_SPAN)
}

/// The DevTools port of a browser tool, from its name.
pub fn browser_debug_port(tool_name: &str) -> (r: u16)
    ensures
        r == debug_port_of(tool_name@),
{
    stable_debug_port(tool_name)
}

/// Where a tool ended up after an assembly pass.
#[derive(Clone, Debug)]
pub struct ToolStatus {
    pub name: String,
    pub bay: String,
    pub window_id: Option<String>,
    pub workspace: Option<String>,
    pub launched: bool,
}

/// How a tool was resolved to a window.
#[derive(Clone, Debug)]
pub enum Resolution {
    /// Its recorded window is still alive.
    Reused(String),
    /// Its recorded window is gone or unknown, and a window matching its kind exists.
    Discovered(String),
    /// No window can be reused: it must be launched.
    Launch,
}

/// The resolver's decision, in strict order: the recorded window when it is
/// alive, else the first window matching the signatures, else a launch.
pub open spec fn resolution_of(recorded: Option<Seq<char>>, tree: TreeNode, sigs: Seq<Seq<char>>) -> Option<Seq<char>> {
    if recorded is Some && tree_has(tree, recorded->Some_0) {
        recorded
    } else if matching_ids(tree, sigs).len() > 0 {
        Some(matching_ids(tree, sigs)[0])
    } else {
        None
    }
}

/// Decides how to resolve a tool: a recorded window that is still alive wins,
/// whatever else matches; else the first window matching the signatures, in the
/// window manager's order; else a launch.
pub fn resolve_tool_window(recorded: &Option<String>, tree: &TreeNode, patterns: &[&str]) -> (r: Resolution)
    ensures
        ({
            let t = opt_text(*recorded);
            let m = matching_ids(*tree, sig_texts(patterns@));
            match r {
                Resolution::Reused(id) => t == Some(id@) && tree_has(*tree, id@),
                Resolution::Discovered(id) => !(t is Some && tree_has(*tree, t->Some_0)) && m.len() > 0 && id@ == m[0],
                Resolution::Launch => !(t is Some && tree_has(*tree, t->Some_0)) && m.len() == 0,
            }
        }),
        opt_text(*recorded) matches Some(t) && tree_has(*tree, t) ==> r is Reused,
        match r {
            Resolution::Reused(id) => resolution_of(opt_text(*recorded), *tree, sig_texts(patterns@)) == Some(id@),
            Resolution::Discovered(id) => resolution_of(opt_text(*recorded), *tree, sig_texts(patterns@)) == Some(id@),
            Resolution::Launch => resolution_of(opt_text(*recorded), *tree, sig_texts(patterns@)) is None,
        },
{
    if let Some(id) = recorded {
        if container_exists(tree, id.as_str()) {
            return Resolution::Reused(id.clone());
        }
    }
    let ids = matching_container_ids(tree, patterns);
    if ids.len() > 0 {
        proof { assert(texts(ids@)[0] == ids@[0]@); }
        Resolution::Discovered(ids[0].clone())
    } else {
        Resolution::Launch
    }
}

/// The windows of a list that are alive in the tree, in order. Without a tree
/// every window counts as gone.
pub open spec fn alive_in(ids: Seq<Seq<char>>, tree: Option<TreeNode>) -> Seq<Seq<char>>
    decreases ids.len(),
{
    if ids.len() == 0 {
        Seq::empty()
    } else {
        let r = alive_in(ids.drop_last(), tree);
        if tree is Some && tree_has(tree->Some_0, ids.last()) { r.push(ids.last()) } else { r }
    }
}

/// Drops the windows the window manager no longer has. When the liveness query
/// failed (no tree), every window is treated as gone; pruning never fails.
pub fn prune_missing_windows(windows: &mut Vec<String>, tree: Option<&TreeNode>)
    ensures
        texts(final(windows)@) == alive_in(texts(old(windows)@), opt_tree(tree)),
{
    let ghost src = texts(windows@);
    let mut kept: Vec<String> = Vec::new();
    let mut i: usize = 0;
    while i < windows.len()
        invariant
            i <= windows.len(),
            src == texts(windows@),
            texts(kept@) == alive_in(src.subrange(0, i as int), opt_tree(tree)),
        decreases windows.len() - i,
    {
        proof { assert(src.subrange(0, i + 1).drop_last() =~= src.subrange(0, i as int)); }
        let alive = match tree {
            Some(t) => container_exists(t, windows[i].as_str()),
            None => false,
        };
        if alive {
            let ghost prev = kept@;
            kept.push(windows[i].clone());
            proof { lemma_texts_push(prev, windows@[i as int]); }
        }
        i = i + 1;
    }
    assert(src.subrange(0, src.len() as int) =~= src);
    *windows = kept;
}

pub open spec fn opt_tree(tree: Option<&TreeNode>) -> Option<TreeNode> {
    match tree {
        Some(t) => Some(*t),
        None => None,
    }
}

/// A pruned list keeps only windows of the given list that are alive.
pub proof fn lemma_pruned_alive(ids: Seq<Seq<char>>, tree: Option<TreeNode>, k: int)
    requires
        0 <= k < alive_in(ids, tree).len(),
    ensures
        tree is Some,
        tree_has(tree->Some_0, alive_in(ids, tree)[k]),
        ids.contains(alive_in(ids, tree)[k]),
    decreases ids.len(),
{
    let r = alive_in(ids.drop_last(), tree);
    if k < r.len() {
        lemma_pruned_alive(ids.drop_last(), tree, k);
        let j = choose|j: int| 0 <= j < ids.drop_last().len() && ids.drop_last()[j] == r[k];
        assert(ids[j] == r[k]);
    } else {
        assert(ids[ids.len() - 1] == ids.last());
    }
}

/// A list with `id` appended unless it already holds it.
pub open spec fn with_window(ids: Seq<Seq<char>>, id: Seq<char>) -> Seq<Seq<char>> {
    if ids.contains(id) { ids } else { ids.push(id) }
}

/// Appends a window to a list unless the list already holds it.
pub fn add_window(windows: &mut Vec<String>, id: &String)
    ensures
        texts(final(windows)@) == with_window(texts(old(windows)@), id@),
{
    if !contains_text(windows, id) {
        let ghost prev = windows@;
        windows.push(id.clone());
        proof { lemma_texts_push(prev, *id); }
    }
}


/// The window a record table gives a tool: its last entry for the tool, if any.
pub open spec fn record_of(recs: Seq<(String, AssembledTool)>, tool: Seq<char>) -> Option<Seq<char>>
    decreases recs.len(),
{
    if recs.len() == 0 {
        None
    } else if recs.last().0@ == tool {
        Some(recs.last().1.window_id@)
    } else {
        record_of(recs.drop_last(), tool)
    }
}

/// The window a record table gives a tool.
pub fn lookup_record(recs: &Vec<(String, AssembledTool)>, tool: &str) -> (r: Option<String>)
    ensures
        opt_text(r) == record_of(recs@, tool@),
{
    let mut k: usize = recs.len();
    assert(recs@.subrange(0, k as int) =~= recs@);
    while k > 0
        invariant
            k <= recs.len(),
            record_of(recs@, tool@) == record_of(recs@.subrange(0, k as int), tool@),
        decreases k,
    {
        let ghost pre = recs@.subrange(0, k as int);
        assert(pre.drop_last() =~= recs@.subrange(0, k - 1));
        assert(pre.last() == recs@[k - 1]);
        if str_eq(recs[k - 1].0.as_str(), tool) {
            return Some(recs[k - 1].1.window_id.clone());
        }
        k = k - 1;
    }
    None
}

/// Records a tool's window; it overrides any earlier entry for the tool.
pub fn set_record(recs: &mut Vec<(String, AssembledTool)>, tool: &str, window_id: &str)
    ensures
        final(recs)@.len() == old(recs)@.len() + 1,
        final(recs)@.drop_last() == old(recs)@,
        final(recs)@.last().0@ == tool@,
        final(recs)@.last().1.window_id@ == window_id@,
        record_of(final(recs)@, tool@) == Some(window_id@),
        forall|t: Seq<char>| t != tool@ ==> record_of(final(recs)@, t) == record_of(old(recs)@, t),
{
    let ghost prev = recs@;
    recs.push((tool.to_owned(), AssembledTool { window_id: window_id.to_owned() }));
    assert(recs@.drop_last() =~= prev);
}

/// What an assembly pass produced: the rebuilt snapshot, the window of each
/// tool, and each tool's status.
#[derive(Clone, Debug)]
pub struct AssemblyOutcome {
    pub assembled_bench: AssembledBench,
    pub tool_records: Vec<(String, AssembledTool)>,
    pub statuses: Vec<ToolStatus>,
}

pub struct StatusView {
    pub name: Seq<char>,
    pub bay: Seq<char>,
    pub window_id: Option<Seq<char>>,
    pub workspace: Option<Seq<char>>,
    pub launched: bool,
}

impl View for ToolStatus {
    type V = StatusView;

    open spec fn view(&self) -> StatusView {
        StatusView {
            name: self.name@,
            bay: self.bay@,
            window_id: opt_text(self.window_id),
            workspace: opt_text(self.workspace),
            launched: self.launched,
        }
    }
}

pub open spec fn status_views(s: Seq<ToolStatus>) -> Seq<StatusView> {
    s.map_values(|t: ToolStatus| t@)
}

/// Finds a bay's entry in a snapshot, adding an empty one at the end when the
/// bay is new.
pub fn bay_entry(ab: &mut AssembledBench, bay: &str) -> (i: usize)
    ensures
        i < final(ab)@.len(),
        final(ab)@[i as int].0 == bay@,
        forall|k: int| 0 <= k < i ==> final(ab)@[k].0 != bay@,
        i < old(ab)@.len() ==> final(ab)@ == old(ab)@,
        i >= old(ab)@.len() ==> i == old(ab)@.len() && final(ab)@ == old(ab)@.push((bay@, Seq::<Seq<char>>::empty()))
            && !crate::model::has_bay(old(ab)@, bay@),
{
    match ab.find_bay(bay) {
        Some(i) => i,
        None => {
            let ghost prev = ab@;
            let windows: Vec<String> = Vec::new();
            ab.bay_windows.push(BayWindows { bay: bay.to_owned(), windows });
            assert(texts(windows@) =~= Seq::<Seq<char>>::empty());
            assert(ab@ =~= prev.push((bay@, Seq::<Seq<char>>::empty())));
            ab.bay_windows.len() - 1
        },
    }
}

/// Prunes one bay of a snapshot (adding it empty when new) and says where it is.
pub fn prune_bay(ab: &mut AssembledBench, bay: &str, tree: Option<&TreeNode>) -> (i: usize)
    ensures
        i < final(ab)@.len(),
        final(ab)@[i as int].0 == bay@,
        forall|k: int| 0 <= k < i ==> final(ab)@[k].0 != bay@,
        final(ab)@[i as int].1 == alive_in(
            if i < old(ab)@.len() { old(ab)@[i as int].1 } else { Seq::empty() },
            opt_tree(tree),
        ),
        final(ab)@.len() == if i < old(ab)@.len() { old(ab)@.len() } else { old(ab)@.len() + 1 },
        forall|k: int| 0 <= k < old(ab)@.len() && k != i ==> final(ab)@[k] == old(ab)@[k],
        final(ab)@ == prune_entry(old(ab)@, bay@, opt_tree(tree)),
{
    let i = bay_entry(ab, bay);
    let ghost mid = ab@;
    proof {
        if crate::model::has_bay(old(ab)@, bay@) {
            assert(i < old(ab)@.len());
            assert(first_index(old(ab)@, bay@) == i as int);
        }
    }
    let mut entry = ab.bay_windows.remove(i);
    prune_missing_windows(&mut entry.windows, tree);
    ab.bay_windows.insert(i, entry);
    assert(ab@ =~= mid.update(i as int, (bay@, alive_in(mid[i as int].1, opt_tree(tree)))));
    proof {
        if !crate::model::has_bay(old(ab)@, bay@) {
            assert(alive_in(Seq::<Seq<char>>::empty(), opt_tree(tree)) =~= Seq::<Seq<char>>::empty());
            assert(ab@ =~= old(ab)@.push((bay@, Seq::<Seq<char>>::empty())));
        }
    }
    i
}

/// A snapshot with the first entry for a bay pruned against the tree; a new bay
/// is added empty at the end.
pub open spec fn prune_entry(v: Seq<BayView>, bay: Seq<char>, tree: Option<TreeNode>) -> Seq<BayView> {
    if crate::model::has_bay(v, bay) {
        let i = first_index(v, bay);
        v.update(i, (bay, alive_in(v[i].1, tree)))
    } else {
        v.push((bay, Seq::empty()))
    }
}

/// Adds a window to a bay of a snapshot unless the bay already lists it.
pub fn add_to_bay(ab: &mut AssembledBench, bay: &str, id: &String) -> (i: usize)
    ensures
        i < final(ab)@.len(),
        final(ab)@[i as int].0 == bay@,
        final(ab)@[i as int].1 == with_window(
            if i < old(ab)@.len() { old(ab)@[i as int].1 } else { Seq::empty() },
            id@,
        ),
        forall|k: int| 0 <= k < old(ab)@.len() && k != i ==> final(ab)@[k] == old(ab)@[k],
        final(ab)@ == add_window_to(old(ab)@, bay@, id@),
{
    let i = bay_entry(ab, bay);
    let ghost mid = ab@;
    proof {
        if crate::model::has_bay(old(ab)@, bay@) {
            assert(i < old(ab)@.len());
            assert(first_index(old(ab)@, bay@) == i as int);
        }
    }
    let mut entry = ab.bay_windows.remove(i);
    add_window(&mut entry.windows, id);
    ab.bay_windows.insert(i, entry);
    assert(ab@ =~= mid.update(i as int, (bay@, with_window(mid[i as int].1, id@))));
    proof {
        if !crate::model::has_bay(old(ab)@, bay@) {
            assert(with_window(Seq::<Seq<char>>::empty(), id@) =~= seq![id@]);
            assert(ab@ =~= old(ab)@.push((bay@, seq![id@])));
        }
    }
    i
}

/// The position of the first entry for a bay.
pub open spec fn first_index(v: Seq<BayView>, key: Seq<char>) -> int {
    choose|i: int| 0 <= i < v.len() && v[i].0 == key && forall|k: int| 0 <= k < i ==> v[k].0 != key
}

/// A snapshot with a window added to the first entry for a bay, unless that
/// entry lists it; a new bay is added at the end.
pub open spec fn add_window_to(v: Seq<BayView>, bay: Seq<char>, id: Seq<char>) -> Seq<BayView> {
    if crate::model::has_bay(v, bay) {
        let i = first_index(v, bay);
        v.update(i, (bay, with_window(v[i].1, id)))
    } else {
        v.push((bay, seq![id]))
    }
}

/// A snapshot with the live recorded windows of some tools added to a bay.
pub open spec fn add_live(v: Seq<BayView>, bay: Seq<char>, names: Seq<Seq<char>>, recs: Seq<(String, AssembledTool)>, tree: TreeNode) -> Seq<BayView>
    decreases names.len(),
{
    if names.len() == 0 {
        v
    } else {
        let v1 = add_live(v, bay, names.drop_last(), recs, tree);
        match record_of(recs, names.last()) {
            Some(id) => if tree_has(tree, id) { add_window_to(v1, bay, id) } else { v1 },
            None => v1,
        }
    }
}

/// The snapshot a focus leaves: the declared bays in order, each with the live
/// windows of its previous entry, then the live recorded windows of its tools.
pub open spec fn focus_snapshot(old: Seq<BayView>, bays: Seq<BaySpec>, recs: Seq<(String, AssembledTool)>, tree: TreeNode) -> Seq<BayView>
    decreases bays.len(),
{
    if bays.len() == 0 {
        Seq::empty()
    } else {
        let v = focus_snapshot(old, bays.drop_last(), recs, tree);
        let b = bays.last();
        let v1 = if crate::model::has_bay(v, b.name@) {
            v
        } else {
            v.push((b.name@, alive_in(first_windows(old, b.name@), Some(tree))))
        };
        add_live(v1, b.name@, texts(b.tool_names@), recs, tree)
    }
}

/// The entries of a snapshot whose bay is among `names`, in order.
pub open spec fn keep_declared(v: Seq<BayView>, names: Seq<Seq<char>>) -> Seq<BayView>
    decreases v.len(),
{
    if v.len() == 0 {
        Seq::empty()
    } else {
        let r = keep_declared(v.drop_last(), names);
        if names.contains(v.last().0) { r.push(v.last()) } else { r }
    }
}

/// After the filter, a bay is there exactly when it was there and is declared.
pub proof fn lemma_keep_declared_bays(v: Seq<BayView>, names: Seq<Seq<char>>, x: Seq<char>)
    ensures
        crate::model::has_bay(keep_declared(v, names), x) <==> (crate::model::has_bay(v, x) && names.contains(x)),
    decreases v.len(),
{
    if v.len() > 0 {
        let w = v.drop_last();
        lemma_keep_declared_bays(w, names, x);
        let r = keep_declared(w, names);
        if crate::model::has_bay(v, x) && names.contains(x) {
            let i = choose|i: int| 0 <= i < v.len() && v[i].0 == x;
            if i < w.len() {
                assert(w[i].0 == x);
                let k = choose|k: int| 0 <= k < r.len() && r[k].0 == x;
                if names.contains(v.last().0) {
                    assert(r.push(v.last())[k].0 == x);
                }
            } else {
                assert(names.contains(v.last().0));
                assert(r.push(v.last())[r.len() as int].0 == x);
            }
        }
        if crate::model::has_bay(keep_declared(v, names), x) {
            let k = choose|k: int| 0 <= k < keep_declared(v, names).len() && keep_declared(v, names)[k].0 == x;
            if names.contains(v.last().0) && k == r.len() {
                assert(v[v.len() - 1].0 == x);
            } else {
                assert(r[k].0 == x);
                let i = choose|i: int| 0 <= i < w.len() && w[i].0 == x;
                assert(v[i].0 == x);
            }
        }
    }
}

/// Reduces a snapshot to the bays a bench declares, keeping their order.
pub fn retain_bays(ab: &mut AssembledBench, bays: &Vec<BaySpec>)
    ensures
        final(ab)@ == keep_declared(old(ab)@, bay_names(bays@)),
{
    let ghost src = ab@;
    let ghost names = bay_names(bays@);
    let mut kept: Vec<BayWindows> = Vec::new();
    let mut rest: Vec<BayWindows> = Vec::new();
    std::mem::swap(&mut rest, &mut ab.bay_windows);
    let ghost all = rest@;
    assert(src =~= all.map_values(|b: BayWindows| (b.bay@, texts(b.windows@))));
    let mut i: usize = 0;
    let n = rest.len();
    while rest.len() > 0
        invariant
            rest@.len() + i == n,
            n == all.len(),
            rest@ == all.subrange(i as int, n as int),
            src == all.map_values(|b: BayWindows| (b.bay@, texts(b.windows@))),
            names == bay_names(bays@),
            (AssembledBench { bay_windows: kept })@ == keep_declared(src.subrange(0, i as int), names),
        decreases rest.len(),
    {
        let b = rest.remove(0);
        assert(b == all[i as int]);
        let mut declared = false;
        let mut j: usize = 0;
        while j < bays.len()
            invariant
                j <= bays.len(),
                declared == exists|q: int| 0 <= q < j && bays@[q].name@ == b.bay@,
            decreases bays.len() - j,
        {
            if str_eq(bays[j].name.as_str(), b.bay.as_str()) {
                declared = true;
            }
            j = j + 1;
        }
        proof {
            if declared {
                let q = choose|q: int| 0 <= q < bays.len() && bays@[q].name@ == b.bay@;
                assert(names[q] == b.bay@);
            } else {
                assert forall|q: int| 0 <= q < names.len() implies names[q] != b.bay@ by {
                    assert(names[q] == bays@[q].name@);
                }
            }
            assert(src.subrange(0, i + 1).drop_last() =~= src.subrange(0, i as int));
            assert(src.subrange(0, i + 1).last() == (b.bay@, texts(b.windows@)));
        }
        let ghost prev = kept@;
        if declared {
            kept.push(b);
        }
        proof {
            assert(rest@ =~= all.subrange(i + 1, n as int));
            assert((AssembledBench { bay_windows: kept })@ =~= keep_declared(src.subrange(0, i + 1), names));
        }
        i = i + 1;
    }
    assert(src.subrange(0, n as int) =~= src);
    ab.bay_windows = kept;
}

/// Where an assembly pass stands.
pub enum Phase {
    /// Waiting for a tree to prune the current bay against.
    Prune,
    /// Waiting for a tree to resolve the current tool against.
    Resolve,
    /// Waiting for the tree that fixes the windows present before a launch.
    Before,
    /// Waiting to hear whether the launch started.
    Launching,
    /// Polling for the launched tool's new window.
    Waiting,
    /// Waiting for the store to record the current tool's window.
    Persisting,
    /// Waiting for the tree that gives each status its workspace.
    Enrich,
    /// Finished or failed; nothing more happens.
    Stopped,
}

/// What the window manager, the launcher or the store answered.
pub enum Event {
    /// A tree from the window manager.
    Tree(TreeNode),
    /// The window manager could not be queried.
    TreeFailed(String),
    /// The launched process started.
    Launched,
    /// The process could not be started.
    LaunchFailed(String),
    /// A tree polled after a launch, and the milliseconds since the launch.
    Polled(TreeNode, u64),
    /// The store recorded the window.
    Persisted,
    /// The store could not record the window.
    PersistFailed(String),
}

/// What the pass asks for next.
pub enum Action {
    /// Query the window manager's tree and answer `Tree` or `TreeFailed`.
    Snapshot,
    /// Start this process and answer `Launched` or `LaunchFailed`.
    Launch(LaunchCommand),
    /// Wait this many milliseconds, query the tree and answer `Polled` or `TreeFailed`.
    Poll(u64),
    /// Record the window of the tool in the store and answer `Persisted` or `PersistFailed`.
    Persist(String, String),
    /// The pass is done.
    Finished(AssemblyOutcome),
    /// The pass failed.
    Failed(BenchError),
    /// The pass already ended.
    Stopped,
}

/// Every tool of the pass's bays has a recorded window, alive in `tree`.
pub open spec fn all_recorded_alive(run: BenchAssembly, tree: TreeNode) -> bool {
    forall|j: int, t: int| 0 <= j < run.bays@.len() && 0 <= t < run.bays@[j].tool_names@.len()
        ==> (#[trigger] record_of(run.records@, run.bays@[j].tool_names@[t]@)) is Some
            && tree_has(tree, record_of(run.records@, run.bays@[j].tool_names@[t]@)->Some_0)
}

/// The declared (bay, tool) pairs of one bay, in order.
pub open spec fn bay_pairs(bay: Seq<char>, names: Seq<Seq<char>>) -> Seq<(Seq<char>, Seq<char>)> {
    names.map_values(|n: Seq<char>| (bay, n))
}

/// The declared (bay, tool) pairs of a bench, bay by bay, in order.
pub open spec fn all_pairs(bays: Seq<BaySpec>) -> Seq<(Seq<char>, Seq<char>)>
    decreases bays.len(),
{
    if bays.len() == 0 {
        Seq::empty()
    } else {
        all_pairs(bays.drop_last()) + bay_pairs(bays.last().name@, texts(bays.last().tool_names@))
    }
}

/// The declared pairs before position (`b`, `k`): all tools of the earlier bays
/// and the first `k` tools of bay `b`; all pairs once `b` is past the last bay.
pub open spec fn done_pairs(bays: Seq<BaySpec>, b: int, k: int) -> Seq<(Seq<char>, Seq<char>)> {
    if b < bays.len() {
        all_pairs(bays.subrange(0, b)) + bay_pairs(bays[b].name@, texts(bays[b].tool_names@)).subrange(0, k)
    } else {
        all_pairs(bays)
    }
}

/// The (bay, tool) pairs of a list of statuses.
pub open spec fn status_pairs(s: Seq<ToolStatus>) -> Seq<(Seq<char>, Seq<char>)> {
    s.map_values(|t: ToolStatus| (t.bay@, t.name@))
}

pub proof fn lemma_done_pairs_push(bays: Seq<BaySpec>, b: int, k: int)
    requires
        0 <= b < bays.len(),
        0 <= k < bays[b].tool_names@.len(),
    ensures
        done_pairs(bays, b, k + 1) == done_pairs(bays, b, k).push((bays[b].name@, bays[b].tool_names@[k]@)),
{
    let p = bay_pairs(bays[b].name@, texts(bays[b].tool_names@));
    assert(p.subrange(0, k + 1) =~= p.subrange(0, k).push(p[k]));
    assert(done_pairs(bays, b, k + 1) =~= done_pairs(bays, b, k).push((bays[b].name@, bays[b].tool_names@[k]@)));
}

pub proof fn lemma_done_pairs_next_bay(bays: Seq<BaySpec>, b: int)
    requires
        0 <= b < bays.len(),
    ensures
        done_pairs(bays, b, bays[b].tool_names@.len() as int) == done_pairs(bays, b + 1, 0),
{
    let p = bay_pairs(bays[b].name@, texts(bays[b].tool_names@));
    assert(p.subrange(0, bays[b].tool_names@.len() as int) =~= p);
    assert(bays.subrange(0, b + 1).drop_last() =~= bays.subrange(0, b));
    assert(bays.subrange(0, b + 1).last() == bays[b]);
    if b + 1 < bays.len() {
        let q = bay_pairs(bays[b + 1].name@, texts(bays[b + 1].tool_names@));
        assert(q.subrange(0, 0) =~= Seq::<(Seq<char>, Seq<char>)>::empty());
        assert(done_pairs(bays, b + 1, 0) =~= all_pairs(bays.subrange(0, b + 1)));
    } else {
        assert(bays.subrange(0, b + 1) =~= bays);
    }
}

/// A bay that a snapshot has has a first entry.
pub proof fn lemma_first_index(v: Seq<BayView>, key: Seq<char>, i: int)
    requires
        0 <= i < v.len(),
        v[i].0 == key,
    ensures
        0 <= first_index(v, key) < v.len(),
        v[first_index(v, key)].0 == key,
        forall|k: int| 0 <= k < first_index(v, key) ==> v[k].0 != key,
    decreases i,
{
    if exists|k: int| 0 <= k < i && v[k].0 == key {
        let k = choose|k: int| 0 <= k < i && v[k].0 == key;
        lemma_first_index(v, key, k);
    } else {
        assert(0 <= i < v.len() && v[i].0 == key && forall|k: int| 0 <= k < i ==> v[k].0 != key);
    }
}

pub proof fn lemma_add_keeps_bays(v: Seq<BayView>, bay: Seq<char>, id: Seq<char>, x: Seq<char>)
    ensures
        crate::model::has_bay(v, x) ==> crate::model::has_bay(add_window_to(v, bay, id), x),
        crate::model::has_bay(add_window_to(v, bay, id), bay),
{
    let r = add_window_to(v, bay, id);
    if crate::model::has_bay(v, bay) {
        let w = choose|w: int| 0 <= w < v.len() && v[w].0 == bay;
        lemma_first_index(v, bay, w);
        let i = first_index(v, bay);
        assert(r[i].0 == bay);
    } else {
        assert(r[v.len() as int].0 == bay);
    }
    if crate::model::has_bay(v, x) {
        let k = choose|k: int| 0 <= k < v.len() && v[k].0 == x;
        assert(r[k].0 == x);
    }
}

pub proof fn lemma_prune_keeps_bays(v: Seq<BayView>, bay: Seq<char>, tree: Option<TreeNode>, x: Seq<char>)
    ensures
        crate::model::has_bay(v, x) ==> crate::model::has_bay(prune_entry(v, bay, tree), x),
        crate::model::has_bay(prune_entry(v, bay, tree), bay),
{
    let r = prune_entry(v, bay, tree);
    if crate::model::has_bay(v, bay) {
        let w = choose|w: int| 0 <= w < v.len() && v[w].0 == bay;
        lemma_first_index(v, bay, w);
        let i = first_index(v, bay);
        assert(r[i].0 == bay);
    } else {
        assert(r[v.len() as int].0 == bay);
    }
    if crate::model::has_bay(v, x) {
        let k = choose|k: int| 0 <= k < v.len() && v[k].0 == x;
        assert(r[k].0 == x);
    }
}

/// Phases in which one tool is being resolved.
pub open spec fn tool_phase(p: Phase) -> bool {
    p is Resolve || p is Before || p is Launching || p is Waiting || p is Persisting
}

/// Where the pass stands, and what it has done so far: bays before the current
/// one (and the current one once pruned) have an entry in the snapshot, and the
/// statuses name the declared (bay, tool) pairs before the current position, in
/// order, each with a window.
pub open spec fn pass_inv(run: BenchAssembly) -> bool {
    let bays = run.bays@;
    &&& run.bay <= bays.len()
    &&& run.phase is Prune ==> run.bay < bays.len() && run.tool == 0
    &&& run.phase is Enrich ==> run.bay == bays.len()
    &&& tool_phase(run.phase) ==> (run.bay < bays.len() && run.tool < bays[run.bay as int].tool_names@.len()
        && (run.current matches Some(c) && c.name@ == bays[run.bay as int].tool_names@[run.tool as int]@
        && c.bay@ == bays[run.bay as int].name@))
    &&& run.phase is Persisting ==> run.pending is Some
    &&& !(run.phase is Stopped) ==> status_pairs(run.outcome.statuses@) == done_pairs(bays, run.bay as int, run.tool as int)
    &&& forall|i: int| 0 <= i < run.outcome.statuses@.len() ==> (#[trigger] run.outcome.statuses@[i]).window_id is Some
    &&& !(run.phase is Stopped) ==> forall|j: int| 0 <= j < bays.len() && (j < run.bay || (j == run.bay && tool_phase(run.phase)))
        ==> crate::model::has_bay(run.outcome.assembled_bench@, #[trigger] bays[j].name@)
}

/// Where moving on to the next tool starts from: the statuses name the declared
/// pairs before the position, each with a window, and every bay up to the
/// current one has an entry.
pub open spec fn ready(run: BenchAssembly) -> bool {
    &&& run.bay < run.bays@.len()
    &&& run.tool <= run.bays@[run.bay as int].tool_names@.len()
    &&& status_pairs(run.outcome.statuses@) == done_pairs(run.bays@, run.bay as int, run.tool as int)
    &&& forall|i: int| 0 <= i < run.outcome.statuses@.len() ==> (#[trigger] run.outcome.statuses@[i]).window_id is Some
    &&& forall|j: int| 0 <= j < run.bays@.len() && j <= run.bay
        ==> crate::model::has_bay(run.outcome.assembled_bench@, #[trigger] run.bays@[j].name@)
}

/// What moving on from position (`b`, `k`) does: the next tool of the bay is
/// resolved when it is declared, and its missing definition fails the pass;
/// past the bay's last tool the next bay is pruned, or the pass ends.
pub open spec fn next_tool_effect(old: BenchAssembly, b: int, k: int, r: Action, new: BenchAssembly) -> bool {
    let bays = old.bays@;
    if k < bays[b].tool_names@.len() {
        let name = bays[b].tool_names@[k]@;
        if !crate::model::has_definition(old.definitions@, name) {
            &&& r matches Action::Failed(BenchError::ToolNotFound(n)) && n@ == name
            &&& new.phase is Stopped
        } else {
            &&& r is Snapshot && new.phase is Resolve && new.bay == b && new.tool == k
            &&& new.current matches Some(c) && c.name@ == name && c.bay@ == bays[b].name@
                && exists|i: int| 0 <= i < old.definitions@.len() && #[trigger] old.definitions@[i].name@ == name
                    && c.kind == old.definitions@[i].kind
                    && crate::apps::tool::opt_state(c.state) == crate::apps::tool::opt_state(old.definitions@[i].state)
        }
    } else if b + 1 < bays.len() {
        r is Snapshot && new.phase is Prune && new.bay == b + 1 && new.tool == 0
    } else {
        r is Snapshot && new.phase is Enrich && new.bay == b + 1
    }
}

/// The snapshot a pass leaves when nothing changed since: every listed window
/// is alive, every declared bay and only those have an entry, and each tool's
/// recorded window is in its bay's list.
pub open spec fn snapshot_settled(run: BenchAssembly, tree: TreeNode) -> bool {
    let v = run.outcome.assembled_bench@;
    let bays = run.bays@;
    &&& forall|i: int, x: Seq<char>| 0 <= i < v.len() && #[trigger] v[i].1.contains(x) ==> tree_has(tree, x)
    &&& forall|j: int| 0 <= j < bays.len() ==> crate::model::has_bay(v, #[trigger] bays[j].name@)
    &&& forall|i: int| 0 <= i < v.len() ==> bay_names(bays).contains(#[trigger] v[i].0)
    &&& forall|j: int, t: int| 0 <= j < bays.len() && 0 <= t < bays[j].tool_names@.len()
        ==> (#[trigger] record_of(run.records@, bays[j].tool_names@[t]@)) is Some
            && first_windows(v, bays[j].name@).contains(record_of(run.records@, bays[j].tool_names@[t]@)->Some_0)
}

pub proof fn lemma_alive_all(ids: Seq<Seq<char>>, tree: TreeNode)
    requires
        forall|x: Seq<char>| ids.contains(x) ==> tree_has(tree, x),
    ensures
        alive_in(ids, Some(tree)) == ids,
    decreases ids.len(),
{
    if ids.len() > 0 {
        assert forall|x: Seq<char>| ids.drop_last().contains(x) implies tree_has(tree, x) by {
            let k = choose|k: int| 0 <= k < ids.drop_last().len() && ids.drop_last()[k] == x;
            assert(ids[k] == x);
        }
        lemma_alive_all(ids.drop_last(), tree);
        assert(ids.contains(ids.last())) by { assert(ids[ids.len() - 1] == ids.last()); }
        assert(ids.drop_last().push(ids.last()) =~= ids);
    }
}

pub proof fn lemma_keep_all(v: Seq<BayView>, names: Seq<Seq<char>>)
    requires
        forall|i: int| 0 <= i < v.len() ==> names.contains(#[trigger] v[i].0),
    ensures
        keep_declared(v, names) == v,
    decreases v.len(),
{
    if v.len() > 0 {
        assert forall|i: int| 0 <= i < v.drop_last().len() implies names.contains(#[trigger] v.drop_last()[i].0) by {
            assert(v.drop_last()[i] == v[i]);
        }
        lemma_keep_all(v.drop_last(), names);
        assert(names.contains(v[v.len() - 1].0));
        assert(v.drop_last().push(v.last()) =~= v);
    }
}

/// The milliseconds between two polls for a launched tool's window.
pub const POLL_INTERVAL_MS: u64 = 150;

/// An assembly pass over a bench, driven one event at a time: bays in
/// declaration order, each pruned and then its tools resolved in order; then the
/// undeclared bays dropped and the statuses given their workspaces.
pub struct BenchAssembly {
    pub bays: Vec<BaySpec>,
    pub definitions: Vec<ToolDefinition>,
    /// The window recorded for each tool, including those recorded by this pass.
    pub records: Vec<(String, AssembledTool)>,
    pub home: Option<String>,
    pub timeout_ms: u64,
    pub bay: usize,
    pub tool: usize,
    pub phase: Phase,
    /// The tool being resolved.
    pub current: Option<Tool>,
    /// The matching windows present before the current launch.
    pub before: Vec<String>,
    /// The window found for the current tool, while it is being recorded.
    pub pending: Option<String>,
    pub launched: bool,
    pub outcome: AssemblyOutcome,
}

fn empty_outcome() -> (r: AssemblyOutcome)
    ensures
        r.assembled_bench@ == Seq::<BayView>::empty(),
        r.tool_records@ == Seq::<(String, AssembledTool)>::empty(),
        r.statuses@ == Seq::<ToolStatus>::empty(),
{
    AssemblyOutcome { assembled_bench: AssembledBench::new(), tool_records: Vec::new(), statuses: Vec::new() }
}

fn opt_str(o: &Option<String>) -> (r: Option<&str>)
    ensures
        match r {
            Some(h) => *o matches Some(s) && h@ == s@,
            None => o is None,
        },
{
    match o {
        Some(s) => Some(s.as_str()),
        None => None,
    }
}

/// Starts an assembly pass over a bench. `definitions` holds the declared tools
/// that exist, `records` the window recorded for each tool, `previous` the last
/// snapshot of the bench. The first action is returned with the pass.
pub fn assemble_bench(
    bench: &Bench,
    previous: AssembledBench,
    definitions: Vec<ToolDefinition>,
    records: Vec<(String, AssembledTool)>,
    home: Option<String>,
    timeout_ms: u64,
) -> (r: (BenchAssembly, Action))
    ensures
        r.0.outcome.assembled_bench@ == previous@,
        r.0.outcome.statuses@.len() == 0,
        r.0.records@ == records@,
        bay_names(r.0.bays@) == bay_names(bench.bays@),
        crate::model::bay_tools(r.0.bays@) == crate::model::bay_tools(bench.bays@),
        bench.bays@.len() > 0 ==> r.0.phase is Prune && r.0.bay == 0,
        r.0.phase is Prune || r.0.phase is Enrich,
        pass_inv(r.0),
        r.0.definitions@ == definitions@,
        r.1 is Snapshot,
{
    let mut outcome = empty_outcome();
    outcome.assembled_bench = previous;
    let mut run = BenchAssembly {
        bays: copy_bays(&bench.bays),
        definitions,
        records,
        home,
        timeout_ms,
        bay: 0,
        tool: 0,
        phase: Phase::Prune,
        current: None,
        before: Vec::new(),
        pending: None,
        launched: false,
        outcome,
    };
    proof {
        assert(crate::model::bay_names(run.bays@).len() == run.bays@.len());
        assert(crate::model::bay_names(bench.bays@).len() == bench.bays@.len());
        assert(status_pairs(run.outcome.statuses@) =~= Seq::<(Seq<char>, Seq<char>)>::empty());
        if run.bays@.len() > 0 {
            let p = bay_pairs(run.bays@[0].name@, texts(run.bays@[0].tool_names@));
            assert(p.subrange(0, 0) =~= Seq::<(Seq<char>, Seq<char>)>::empty());
            assert(run.bays@.subrange(0, 0) =~= Seq::<BaySpec>::empty());
        }
    }
    let first = run.begin_bay();
    (run, first)
}

impl BenchAssembly {
    fn fail(&mut self, e: BenchError) -> (r: Action)
        ensures
            final(self).phase is Stopped,
            r == Action::Failed(e),
            final(self).outcome == old(self).outcome,
            final(self).records == old(self).records,
            final(self).before == old(self).before,
            final(self).bays == old(self).bays,
            final(self).definitions == old(self).definitions,
            final(self).current == old(self).current,
            final(self).bay == old(self).bay,
            final(self).tool == old(self).tool,
    {
        self.phase = Phase::Stopped;
        Action::Failed(e)
    }

    /// Starts the current bay, or the final steps after the last one.
    fn begin_bay(&mut self) -> (r: Action)
        requires
            old(self).bay <= old(self).bays@.len(),
        ensures
            r is Snapshot,
            old(self).bay < old(self).bays@.len() ==> final(self).phase is Prune,
            old(self).bay >= old(self).bays@.len() ==> final(self).phase is Enrich,
            final(self).outcome == old(self).outcome,
            final(self).bays == old(self).bays,
            final(self).definitions == old(self).definitions,
            final(self).records == old(self).records,
            final(self).bay == old(self).bay,
            final(self).tool == old(self).tool,
            final(self).current == old(self).current,
            (old(self).tool == 0
                && status_pairs(old(self).outcome.statuses@) == done_pairs(old(self).bays@, old(self).bay as int, 0)
                && (forall|i: int| 0 <= i < old(self).outcome.statuses@.len() ==> (#[trigger] old(self).outcome.statuses@[i]).window_id is Some)
                && (forall|j: int| 0 <= j < old(self).bays@.len() && j < old(self).bay
                    ==> crate::model::has_bay(old(self).outcome.assembled_bench@, #[trigger] old(self).bays@[j].name@)))
                ==> pass_inv(*final(self)),
    {
        if self.bay < self.bays.len() {
            self.phase = Phase::Prune;
        } else {
            self.phase = Phase::Enrich;
        }
        Action::Snapshot
    }

    /// Starts the current tool of the current bay, or moves to the next bay.
    fn next_tool(&mut self) -> (r: Action)
        requires
            old(self).bay < old(self).bays@.len(),
            old(self).tool <= old(self).bays@[old(self).bay as int].tool_names@.len(),
        ensures
            next_tool_effect(*old(self), old(self).bay as int, old(self).tool as int, r, *final(self)),
            r is Snapshot || r matches Action::Failed(BenchError::ToolNotFound(_)),
            r is Failed ==> final(self).phase is Stopped,
            final(self).phase is Prune || final(self).phase is Resolve || final(self).phase is Enrich
                || final(self).phase is Stopped,
            ready(*old(self)) ==> pass_inv(*final(self)),
            final(self).bays == old(self).bays,
            final(self).definitions == old(self).definitions,
            final(self).outcome == old(self).outcome,
            final(self).records == old(self).records,
    {
        let b = self.bay;
        if self.tool < self.bays[b].tool_names.len() {
            let name = self.bays[b].tool_names[self.tool].clone();
            match find_definition(&self.definitions, name.as_str()) {
                None => self.fail(BenchError::ToolNotFound(name)),
                Some(i) => {
                    let def = &self.definitions[i];
                    self.current = Some(Tool {
                        name: def.name.clone(),
                        kind: def.kind,
                        bay: self.bays[b].name.clone(),
                        state: copy_opt_state(&def.state),
                    });
                    self.phase = Phase::Resolve;
                    Action::Snapshot
                },
            }
        } else {
            proof { lemma_done_pairs_next_bay(self.bays@, b as int); }
            let n = self.bays.len();
            assert(b < n);
            self.bay = b + 1;
            self.tool = 0;
            self.begin_bay()
        }
    }
}

/// The workspace of the last window with this id; none when no window has it.
pub open spec fn workspace_of(ws: Seq<WindowView>, id: Seq<char>) -> Option<Seq<char>>
    decreases ws.len(),
{
    if ws.len() == 0 {
        None
    } else if ws.last().id == id {
        ws.last().workspace
    } else {
        workspace_of(ws.drop_last(), id)
    }
}

pub fn workspace_lookup(windows: &Vec<WindowInfo>, id: &str) -> (r: Option<String>)
    ensures
        opt_text(r) == workspace_of(window_views(windows@), id@),
{
    let ghost v = window_views(windows@);
    let mut k: usize = windows.len();
    assert(v.subrange(0, k as int) =~= v);
    while k > 0
        invariant
            k <= windows.len(),
            v == window_views(windows@),
            workspace_of(v, id@) == workspace_of(v.subrange(0, k as int), id@),
        decreases k,
    {
        assert(v.subrange(0, k as int).drop_last() =~= v.subrange(0, k - 1));
        assert(v.subrange(0, k as int).last() == windows@[k - 1]@);
        if str_eq(windows[k - 1].id.as_str(), id) {
            return copy_opt(&windows[k - 1].workspace);
        }
        k = k - 1;
    }
    None
}

/// A status with the workspace its window now sits on; one without a window
/// stays as it is.
pub open spec fn enriched(s: StatusView, ws: Seq<WindowView>) -> StatusView {
    match s.window_id {
        Some(id) => StatusView { workspace: workspace_of(ws, id), ..s },
        None => s,
    }
}

/// Gives each status the workspace its window sits on now.
pub fn enrich_status_workspaces(statuses: &mut Vec<ToolStatus>, windows: &Vec<WindowInfo>)
    ensures
        final(statuses)@.len() == old(statuses)@.len(),
        forall|i: int| 0 <= i < old(statuses)@.len() ==> #[trigger] final(statuses)@[i]@ == enriched(
            old(statuses)@[i]@,
            window_views(windows@),
        ),
{
    let ghost src = statuses@;
    let mut i: usize = 0;
    while i < statuses.len()
        invariant
            i <= statuses.len(),
            statuses@.len() == src.len(),
            forall|k: int| 0 <= k < i ==> #[trigger] statuses@[k]@ == enriched(src[k]@, window_views(windows@)),
            forall|k: int| i <= k < src.len() ==> #[trigger] statuses@[k] == src[k],
        decreases statuses.len() - i,
    {
        let ws = match &statuses[i].window_id {
            Some(id) => Some(workspace_lookup(windows, id.as_str())),
            None => None,
        };
        if let Some(w) = ws {
            let mut st = statuses.remove(i);
            st.workspace = w;
            statuses.insert(i, st);
        }
        i = i + 1;
    }
}

/// The process that opens a tool: the browser with its saved tabs and its
/// DevTools port, the terminal in its directory, the editor on its path.
pub fn launch_tool(tool: &Tool, home: Option<&str>) -> (r: Result<LaunchCommand, BenchError>)
    ensures
        tool.tool_state() matches Some(StateView::Browser(urls)) ==> tool.kind == ToolKind::Browser ==> (r matches Ok(c)
            && c.program@ == "chromium"@ && texts(c.args@) == browser::browser_args(urls, debug_port_of(tool.name@) as nat)),
        (tool.kind == ToolKind::Browser && tool.state is None) ==> (r matches Ok(c) && c.program@ == "chromium"@
            && texts(c.args@) == browser::browser_args(Seq::empty(), debug_port_of(tool.name@) as nat)),
        tool.tool_state() matches Some(StateView::Terminal(cwd, command)) ==> tool.kind == ToolKind::Terminal ==> (r matches Ok(c)
            && c.program@ == "kitty"@ && texts(c.args@) == command && opt_text(c.cwd) == match cwd {
                Some(d) => Some(crate::apps::expanded(d, match home { Some(x) => Some(x@), None => None })),
                None => None,
            }),
        (tool.kind == ToolKind::Terminal && tool.state is None) ==> (r matches Ok(c) && c.program@ == "kitty"@
            && c.args@.len() == 0 && c.cwd is None),
        tool.tool_state() matches Some(StateView::Zed(path)) ==> tool.kind == ToolKind::Zed ==> (r matches Ok(c)
            && c.program@ == "zed"@ && texts(c.args@) == match path {
                Some(p) => seq![crate::apps::expanded(p, match home { Some(x) => Some(x@), None => None })],
                None => Seq::<Seq<char>>::empty(),
            }),
        (tool.kind == ToolKind::Zed && tool.state is None) ==> (r matches Ok(c) && c.program@ == "zed"@ && c.args@.len() == 0),
        r is Err <==> (tool.state matches Some(st) && !(match (tool.kind, st) {
            (ToolKind::Browser, ToolState::Browser(_)) => true,
            (ToolKind::Terminal, ToolState::Terminal(_)) => true,
            (ToolKind::Zed, ToolState::Zed(_)) => true,
            _ => false,
        })),
        r matches Err(e) ==> (e matches BenchError::Config(crate::apps::ToolError::InvalidState { tool: t, expected })
            && t@ == tool_identifier(tool.name@, tool.kind, tool.bay@) && expected == tool.kind),
{
    match tool.kind() {
        ToolKind::Browser => {
            let port = stable_debug_port(tool.name.as_str());
            match tool.browser_config() {
                Ok(config) => {
                    proof {
                        if config.urls@.len() == 0 {
                            assert(texts(config.urls@) =~= Seq::<Seq<char>>::empty());
                        }
                    }
                    Ok(browser::launch_command(&config, port))
                },
                Err(e) => Err(BenchError::Config(e)),
            }
        },
        ToolKind::Terminal => match tool.terminal_config() {
            Ok(config) => {
                let c = terminal::launch_command(&config, home);
                proof {
                    if config.command@.len() == 0 {
                        assert(texts(c.args@).len() == 0);
                    }
                }
                Ok(c)
            },
            Err(e) => Err(BenchError::Config(e)),
        },
        ToolKind::Zed => match tool.zed_config() {
            Ok(config) => {
                let c = zed::launch_command(&config, home);
                assert(texts(c.args@).len() == c.args@.len());
                Ok(c)
            },
            Err(e) => Err(BenchError::Config(e)),
        },
    }
}

impl BenchAssembly {
    /// Records the current tool's window and moves on to the next tool.
    #[verifier::rlimit(100)]
    fn finish_tool(&mut self, id: String, launched: bool) -> (r: Action)
        requires
            old(self).current is Some,
            old(self).bay < old(self).bays@.len(),
            old(self).tool < old(self).bays@[old(self).bay as int].tool_names@.len(),
        ensures
            finish_effect(*old(self), id@, launched, r, *final(self)),
            r is Snapshot || r matches Action::Failed(BenchError::ToolNotFound(_)),
            r is Failed ==> final(self).phase is Stopped,
            final(self).phase is Prune || final(self).phase is Resolve || final(self).phase is Enrich
                || final(self).phase is Stopped,
            (pass_inv(*old(self)) && tool_phase(old(self).phase)) ==> pass_inv(*final(self)),
            final(self).bays == old(self).bays,
            final(self).definitions == old(self).definitions,
    {
        let ghost pre = *self;
        let t = match &self.current {
            Some(t) => t,
            None => { return Action::Snapshot; },
        };
        let name = t.name.clone();
        let bay = t.bay.clone();
        add_to_bay(&mut self.outcome.assembled_bench, bay.as_str(), &id);
        set_record(&mut self.outcome.tool_records, name.as_str(), id.as_str());
        set_record(&mut self.records, name.as_str(), id.as_str());
        let ghost prev = self.outcome.statuses@;
        self.outcome.statuses.push(ToolStatus { name, bay, window_id: Some(id), workspace: None, launched });
        assert(status_views(self.outcome.statuses@) =~= status_views(prev).push(self.outcome.statuses@.last()@));
        proof {
            let c = pre.current->Some_0;
            lemma_done_pairs_push(pre.bays@, pre.bay as int, pre.tool as int);
            if pass_inv(pre) && tool_phase(pre.phase) {
            assert(status_pairs(self.outcome.statuses@) =~= status_pairs(prev).push((c.bay@, c.name@)));
            assert forall|j: int| 0 <= j < self.bays@.len() && j <= self.bay
                implies crate::model::has_bay(self.outcome.assembled_bench@, #[trigger] self.bays@[j].name@) by {
                lemma_add_keeps_bays(pre.outcome.assembled_bench@, c.bay@, id@, self.bays@[j].name@);
            }
            assert forall|i: int| 0 <= i < self.outcome.statuses@.len() implies (#[trigger] self.outcome.statuses@[i]).window_id is Some by {
                if i < prev.len() {
                    assert(self.outcome.statuses@[i] == pre.outcome.statuses@[i]);
                }
            }
            }
        }
        let n = self.bays[self.bay].tool_names.len();
        assert(self.tool < n);
        self.tool = self.tool + 1;
        let ghost mid = *self;
        let r = self.next_tool();
        proof {
            assert(mid.bays == pre.bays && mid.definitions == pre.definitions);
            assert(next_tool_effect(mid, mid.bay as int, mid.tool as int, r, *self));
        }
        r
    }
}

/// What recording the current tool's window does: the window joins its bay's
/// list, the tool gets a status and a record, and the pass moves on.
pub open spec fn finish_effect(old: BenchAssembly, id: Seq<char>, launched: bool, r: Action, new: BenchAssembly) -> bool {
    let c = old.current->Some_0;
    &&& new.outcome.assembled_bench@ == add_window_to(old.outcome.assembled_bench@, c.bay@, id)
    &&& status_views(new.outcome.statuses@) == status_views(old.outcome.statuses@).push(
        StatusView { name: c.name@, bay: c.bay@, window_id: Some(id), workspace: None, launched },
    )
    &&& record_of(new.outcome.tool_records@, c.name@) == Some(id)
    &&& record_of(new.records@, c.name@) == Some(id)
    &&& forall|x: Seq<char>| x != c.name@ ==> record_of(new.records@, x) == record_of(old.records@, x)
    &&& next_tool_effect(old, old.bay as int, old.tool + 1, r, new)
}

impl BenchAssembly {
    /// The window the records give a tool.
    pub open spec fn recorded(&self, tool: Seq<char>) -> Option<Seq<char>> {
        record_of(self.records@, tool)
    }

    /// Takes the answer to the last action and returns the next one.
    #[verifier::rlimit(100)]
    pub fn step(&mut self, event: Event) -> (r: Action)
        ensures
            // A pass that ended stays ended.
            old(self).phase is Stopped ==> r is Stopped,
            r is Finished || r is Failed ==> final(self).phase is Stopped,
            // Pruning a bay never fails on the window manager's account: a
            // failed query counts every window of the bay as gone.
            (pass_inv(*old(self)) && old(self).phase is Prune && (event is Tree || event is TreeFailed)) ==> (r is Snapshot || r matches Action::Failed(BenchError::ToolNotFound(_))),
            // A recorded window that is alive is reused: no launch, nothing
            // written, and the tool's status names that window.
            (pass_inv(*old(self)) && old(self).phase is Resolve) ==> (old(self).current matches Some(t) ==> (event matches Event::Tree(tree) ==> (
                old(self).recorded(t.name@) matches Some(id) ==> (tree_has(tree, id) ==> (
                    (r is Snapshot || r matches Action::Failed(BenchError::ToolNotFound(_)))
                    && finish_effect(*old(self), id, false, r, *final(self))
                ))))),
            // The pass keeps its invariant.
            pass_inv(*old(self)) ==> pass_inv(*final(self)),
            // Pruning: the bay's first entry keeps only live windows (all of them
            // when the query failed), and the pass moves to the bay's first tool.
            (pass_inv(*old(self)) && old(self).phase is Prune) ==> (event matches Event::Tree(tree) ==> (
                final(self).outcome.assembled_bench@ == prune_entry(old(self).outcome.assembled_bench@,
                    old(self).bays@[old(self).bay as int].name@, Some(tree))
                && next_tool_effect(*old(self), old(self).bay as int, 0, r, *final(self)))),
            (pass_inv(*old(self)) && old(self).phase is Prune) ==> (event is TreeFailed ==> (
                final(self).outcome.assembled_bench@ == prune_entry(old(self).outcome.assembled_bench@,
                    old(self).bays@[old(self).bay as int].name@, None)
                && next_tool_effect(*old(self), old(self).bay as int, 0, r, *final(self)))),
            // The window found after a launch, or by discovery, is the one kept
            // for recording, with the launch flag set accordingly.
            r matches Action::Persist(n, w) ==> (final(self).pending matches Some(p) && p@ == w@
                && final(self).phase is Persisting
                && (old(self).phase is Resolve ==> !final(self).launched)
                && (old(self).phase is Waiting ==> final(self).launched)),
            // Once the store has the window, the tool's status and record follow.
            (pass_inv(*old(self)) && old(self).phase is Persisting) ==> (old(self).pending matches Some(id) ==> (
                event is Persisted ==> finish_effect(*old(self), id@, old(self).launched, r, *final(self)))),
            // The end: undeclared bays are dropped, every declared bay has an
            // entry, and the statuses name every declared (bay, tool) pair in order.
            (pass_inv(*old(self)) && old(self).phase is Enrich) ==> (event matches Event::Tree(tree) ==> (r matches Action::Finished(o)
                && o.assembled_bench@ == keep_declared(old(self).outcome.assembled_bench@, bay_names(old(self).bays@))
                && (forall|x: Seq<char>| #[trigger] crate::model::has_bay(o.assembled_bench@, x) <==> bay_names(old(self).bays@).contains(x))
                && status_pairs(o.statuses@) == all_pairs(old(self).bays@)
                && (forall|i: int| 0 <= i < o.statuses@.len() ==> (#[trigger] o.statuses@[i]).window_id is Some))),
            // While waiting, only a matching window that was not there before the
            // launch is taken, and it is written before anything else happens.
            old(self).phase is Waiting ==> (old(self).current matches Some(t) ==> (event matches Event::Polled(tree, elapsed) ==> ({
                let new = first_new(matching_ids(tree, kind_signatures(t.kind)), texts(old(self).before@));
                &&& new matches Some(id) ==> (r matches Action::Persist(n, w) && n@ == t.name@ && w@ == id
                    && !texts(old(self).before@).contains(id) && final(self).phase is Persisting)
                &&& (new is None && elapsed <= old(self).timeout_ms) ==> r == Action::Poll(POLL_INTERVAL_MS)
                &&& (new is None && elapsed > old(self).timeout_ms) ==> (r matches Action::Failed(BenchError::Timeout { tool, signatures })
                    && tool@ == t.name@ && texts(signatures@) == kind_signatures(t.kind) && final(self).phase is Stopped)
            }))),
            // Only a window that resolution picked is written to the store.
            r matches Action::Persist(n, w) ==> ((old(self).phase is Resolve || old(self).phase is Waiting)
                && (old(self).current matches Some(t) && n@ == t.name@)),
            // Without a live recorded window, the first matching window is taken
            // and written; without one either, the windows present before the
            // launch are fixed next.
            old(self).phase is Resolve ==> (old(self).current matches Some(t) ==> (event matches Event::Tree(tree) ==> ({
                let rec = old(self).recorded(t.name@);
                let m = matching_ids(tree, kind_signatures(t.kind));
                !(rec is Some && tree_has(tree, rec->Some_0)) ==> (
                    (m.len() > 0 ==> (r matches Action::Persist(n, w) && w@ == m[0] && final(self).phase is Persisting))
                    && (m.len() == 0 ==> (r is Snapshot && final(self).phase is Before)))
            }))),
            // Before a launch: the matching windows are fixed, then the tool's
            // process is requested, unless its saved state does not fit its kind.
            old(self).phase is Before ==> (old(self).current matches Some(t) ==> (event matches Event::Tree(tree) ==> (
                texts(final(self).before@) == matching_ids(tree, kind_signatures(t.kind))))),
            old(self).phase is Before ==> (old(self).current is Some ==> (event is Tree ==> (
                (r is Launch && final(self).phase is Launching) || r matches Action::Failed(BenchError::Config(_))))),
            old(self).phase is Launching ==> (old(self).current matches Some(t) ==> (
                (event is Launched ==> r == Action::Poll(0) && final(self).phase is Waiting)
                && (event matches Event::LaunchFailed(m) ==> (r matches Action::Failed(BenchError::Launch { tool, message })
                    && tool@ == t.name@ && message == m)))),
            // A failed query of the window manager ends the pass, except while pruning.
            (old(self).phase is Resolve || old(self).phase is Before || old(self).phase is Waiting || old(self).phase is Enrich)
                ==> (event matches Event::TreeFailed(m) ==> r == Action::Failed(BenchError::WindowManager(m))),
            // Assembling again with nothing changed: when every tool's recorded
            // window is alive in the tree, nothing is launched or written, the
            // records keep naming the same windows, and that stays so.
            (old(self).phase is Prune || old(self).phase is Resolve || old(self).phase is Enrich)
                ==> (event matches Event::Tree(tree) ==> ((all_recorded_alive(*old(self), tree)
                && pass_inv(*old(self))) ==> (
                    !(r is Launch) && !(r is Persist)
                    && (forall|x: Seq<char>| #[trigger] record_of(final(self).records@, x) == record_of(old(self).records@, x))
                    && final(self).bays == old(self).bays
                    && all_recorded_alive(*final(self), tree)
                    && (final(self).phase is Prune || final(self).phase is Resolve || final(self).phase is Enrich
                        || final(self).phase is Stopped)))),
            // With a settled snapshot as well, the snapshot stays as it is.
            (pass_inv(*old(self)) && (old(self).phase is Prune || old(self).phase is Resolve || old(self).phase is Enrich))
                ==> (event matches Event::Tree(tree) ==> ((all_recorded_alive(*old(self), tree)
                && snapshot_settled(*old(self), tree)) ==> (
                    (old(self).phase is Enrich ==> (r matches Action::Finished(o) && o.assembled_bench@ == old(self).outcome.assembled_bench@))
                    && (!(old(self).phase is Enrich) ==> (final(self).outcome.assembled_bench@ == old(self).outcome.assembled_bench@
                        && snapshot_settled(*final(self), tree)))))),
            // The last tree gives each status the workspace its window sits on.
            old(self).phase is Enrich ==> (event matches Event::Tree(tree) ==> (r matches Action::Finished(o)
                && status_views(o.statuses@).len() == old(self).outcome.statuses@.len()
                && (forall|i: int| 0 <= i < old(self).outcome.statuses@.len() ==> #[trigger] status_views(o.statuses@)[i]
                    == enriched(old(self).outcome.statuses@[i]@, crate::sway::windows_in(tree, None)))
                && o.tool_records == old(self).outcome.tool_records)),
    {
        match self.phase {
            Phase::Stopped => Action::Stopped,
            Phase::Prune => {
                let tree = match event {
                    Event::Tree(t) => Some(t),
                    Event::TreeFailed(_) => None,
                    _ => { return self.unexpected(); },
                };
                if self.bay >= self.bays.len() {
                    return self.unexpected();
                }
                let ghost pre = *self;
                let tref = tree.as_ref();
                prune_bay(&mut self.outcome.assembled_bench, self.bays[self.bay].name.as_str(), tref);
                proof {
                    if pass_inv(pre) {
                        assert forall|j: int| 0 <= j < self.bays@.len() && j <= self.bay
                            implies crate::model::has_bay(self.outcome.assembled_bench@, #[trigger] self.bays@[j].name@) by {
                            lemma_prune_keeps_bays(pre.outcome.assembled_bench@, self.bays@[self.bay as int].name@,
                                opt_tree(tref), self.bays@[j].name@);
                        }
                    }
                }
                proof {
                    if let Some(t) = tree {
                        if pass_inv(pre) && snapshot_settled(pre, t) {
                            let v = pre.outcome.assembled_bench@;
                            let name = pre.bays@[pre.bay as int].name@;
                            assert(crate::model::has_bay(v, name));
                            let w = choose|w: int| 0 <= w < v.len() && v[w].0 == name;
                            lemma_first_index(v, name, w);
                            let i = first_index(v, name);
                            assert forall|x: Seq<char>| v[i].1.contains(x) implies tree_has(t, x) by {}
                            lemma_alive_all(v[i].1, t);
                            assert(prune_entry(v, name, Some(t)) =~= v);
                        }
                    }
                }
                self.tool = 0;
                let ghost mid = *self;
                let r = self.next_tool();
                proof {
                    assert(mid.bays == pre.bays && mid.definitions == pre.definitions);
                }
                r
            },
            Phase::Resolve => {
                let tree = match event {
                    Event::Tree(t) => t,
                    Event::TreeFailed(m) => { return self.fail(BenchError::WindowManager(m)); },
                    _ => { return self.unexpected(); },
                };
                let (name, kind) = match &self.current {
                    Some(t) => (t.name.clone(), t.kind),
                    None => { return self.unexpected(); },
                };
                let recorded = lookup_record(&self.records, name.as_str());
                match resolve_tool_window(&recorded, &tree, kind.sway_patterns()) {
                    Resolution::Reused(id) => {
                        if !self.at_tool() {
                            return self.unexpected();
                        }
                        proof {
                            if pass_inv(*self) && snapshot_settled(*self, tree) && all_recorded_alive(*self, tree) {
                                let v = self.outcome.assembled_bench@;
                                let c = self.current->Some_0;
                                let j = self.bay as int;
                                let t = self.tool as int;
                                assert(record_of(self.records@, self.bays@[j].tool_names@[t]@) is Some);
                                assert(crate::model::has_bay(v, self.bays@[j].name@));
                                let w = choose|w: int| 0 <= w < v.len() && v[w].0 == c.bay@;
                                lemma_first_index(v, c.bay@, w);
                                let i = first_index(v, c.bay@);
                                crate::model::lemma_first_windows(v, c.bay@, i);
                                assert(add_window_to(v, c.bay@, id@) =~= v);
                            }
                        }
                        self.finish_tool(id, false)
                    },
                    Resolution::Discovered(id) => {
                        self.pending = Some(id.clone());
                        self.launched = false;
                        self.phase = Phase::Persisting;
                        Action::Persist(name, id)
                    },
                    Resolution::Launch => {
                        self.phase = Phase::Before;
                        Action::Snapshot
                    },
                }
            },
            Phase::Before => {
                let tree = match event {
                    Event::Tree(t) => t,
                    Event::TreeFailed(m) => { return self.fail(BenchError::WindowManager(m)); },
                    _ => { return self.unexpected(); },
                };
                let command = match &self.current {
                    Some(t) => {
                        self.before = matching_container_ids(&tree, t.kind.sway_patterns());
                        launch_tool(t, opt_str(&self.home))
                    },
                    None => { return self.unexpected(); },
                };
                match command {
                    Ok(c) => {
                        self.phase = Phase::Launching;
                        Action::Launch(c)
                    },
                    Err(e) => self.fail(e),
                }
            },
            Phase::Launching => {
                let name = match &self.current {
                    Some(t) => t.name.clone(),
                    None => { return self.unexpected(); },
                };
                match event {
                    Event::Launched => {
                        self.phase = Phase::Waiting;
                        Action::Poll(0)
                    },
                    Event::LaunchFailed(m) => self.fail(BenchError::Launch { tool: name, message: m }),
                    _ => self.unexpected(),
                }
            },
            Phase::Waiting => {
                let (tree, elapsed) = match event {
                    Event::Polled(t, e) => (t, e),
                    Event::TreeFailed(m) => { return self.fail(BenchError::WindowManager(m)); },
                    _ => { return self.unexpected(); },
                };
                let (name, kind) = match &self.current {
                    Some(t) => (t.name.clone(), t.kind),
                    None => { return self.unexpected(); },
                };
                match wait_for_new_container(&tree, kind.sway_patterns(), &self.before, elapsed, self.timeout_ms) {
                    WaitStep::Found(id) => {
                        self.pending = Some(id.clone());
                        self.launched = true;
                        self.phase = Phase::Persisting;
                        Action::Persist(name, id)
                    },
                    WaitStep::KeepWaiting => Action::Poll(POLL_INTERVAL_MS),
                    WaitStep::TimedOut => {
                        let signatures = crate::sway::owned_signatures(kind.sway_patterns());
                        self.fail(BenchError::Timeout { tool: name, signatures })
                    },
                }
            },
            Phase::Persisting => {
                match event {
                    Event::Persisted => {},
                    Event::PersistFailed(m) => { return self.fail(BenchError::Store(m)); },
                    _ => { return self.unexpected(); },
                }
                let id = match &self.pending {
                    Some(id) => id.clone(),
                    None => { return self.unexpected(); },
                };
                if self.current.is_none() || !self.at_tool() {
                    return self.unexpected();
                }
                let launched = self.launched;
                proof { assert(old(self).pending == Some(id)); }
                self.finish_tool(id, launched)
            },
            Phase::Enrich => {
                let tree = match event {
                    Event::Tree(t) => t,
                    Event::TreeFailed(m) => { return self.fail(BenchError::WindowManager(m)); },
                    _ => { return self.unexpected(); },
                };
                let ghost pre = *self;
                retain_bays(&mut self.outcome.assembled_bench, &self.bays);
                let windows = current_windows(&tree);
                let ghost before_enrich = self.outcome.statuses@;
                enrich_status_workspaces(&mut self.outcome.statuses, &windows);
                proof {
                    if pass_inv(pre) {
                        assert(status_pairs(self.outcome.statuses@) =~= status_pairs(before_enrich)) by {
                            assert forall|i: int| 0 <= i < before_enrich.len() implies
                                #[trigger] status_pairs(self.outcome.statuses@)[i] == status_pairs(before_enrich)[i] by {
                                assert(self.outcome.statuses@[i]@ == enriched(before_enrich[i]@, window_views(windows@)));
                            }
                        }
                        assert forall|i: int| 0 <= i < self.outcome.statuses@.len() implies (#[trigger] self.outcome.statuses@[i]).window_id is Some by {
                            assert(self.outcome.statuses@[i]@ == enriched(before_enrich[i]@, window_views(windows@)));
                            assert(before_enrich[i].window_id is Some);
                        }
                        if snapshot_settled(pre, tree) {
                            lemma_keep_all(pre.outcome.assembled_bench@, bay_names(self.bays@));
                        }
                        assert forall|x: Seq<char>| #[trigger] crate::model::has_bay(self.outcome.assembled_bench@, x)
                            <==> bay_names(self.bays@).contains(x) by {
                            lemma_keep_declared_bays(pre.outcome.assembled_bench@, bay_names(self.bays@), x);
                            if bay_names(self.bays@).contains(x) {
                                let j = choose|j: int| 0 <= j < bay_names(self.bays@).len() && bay_names(self.bays@)[j] == x;
                                assert(self.bays@[j].name@ == x);
                            }
                        }
                    }
                }
                let mut done = empty_outcome();
                std::mem::swap(&mut done, &mut self.outcome);
                self.phase = Phase::Stopped;
                Action::Finished(done)
            },
        }
    }

    /// Whether the position names a tool of a bay.
    fn at_tool(&self) -> (r: bool)
        ensures
            r == (self.bay < self.bays@.len() && self.tool < self.bays@[self.bay as int].tool_names@.len()),
    {
        self.bay < self.bays.len() && self.tool < self.bays[self.bay].tool_names.len()
    }

    /// An answer that does not fit the last action ends the pass.
    fn unexpected(&mut self) -> (r: Action)
        ensures
            final(self).phase is Stopped,
            r matches Action::Failed(BenchError::UnexpectedEvent),
            final(self).outcome == old(self).outcome,
            final(self).bays == old(self).bays,
            final(self).bay == old(self).bay,
            final(self).tool == old(self).tool,
            final(self).records == old(self).records,
            final(self).before == old(self).before,
    {
        self.fail(BenchError::UnexpectedEvent)
    }
}

/// Whether a window is listed for one of the declared bays.
pub open spec fn listed(v: Seq<BayView>, bays: Seq<Seq<char>>, id: Seq<char>) -> bool {
    exists|j: int| 0 <= j < bays.len() && #[trigger] first_windows(v, bays[j]).contains(id)
}

/// Whether a window with this id sits on a workspace other than the scratchpad.
pub open spec fn visible_in(windows: Seq<crate::sway::WindowView>, id: Seq<char>) -> bool {
    exists|k: int| 0 <= k < windows.len() && windows[k].id == id && windows[k].workspace is Some
        && windows[k].workspace->Some_0 != scratch()
}

/// Pushing a command keeps every command already there.
proof fn lemma_keeps(prev: Seq<LayoutCommand>, c: LayoutCommand)
    ensures
        forall|x: CommandView| #[trigger] command_views(prev).contains(x) ==> command_views(prev.push(c)).contains(x),
        command_views(prev.push(c)).contains(c@),
{
    lemma_commands_push(prev, c);
    assert forall|x: CommandView| #[trigger] command_views(prev).contains(x) implies command_views(prev.push(c)).contains(x) by {
        let k = choose|k: int| 0 <= k < command_views(prev).len() && command_views(prev)[k] == x;
        assert(command_views(prev.push(c))[k] == x);
    }
    assert(command_views(prev.push(c))[prev.len() as int] == c@);
}

/// The commands of a focus: for each declared bay, show it and move each of its
/// windows onto it; then, when asked, send every window that sits on a workspace
/// other than the scratchpad and is listed for no bay to the scratchpad.
pub open spec fn focus_commands(
    cmds: Seq<CommandView>,
    v: Seq<BayView>,
    bays: Seq<Seq<char>>,
    windows: Seq<crate::sway::WindowView>,
    stow_others: bool,
) -> bool {
    &&& forall|k: int| 0 <= k < cmds.len() ==> match #[trigger] cmds[k] {
        CommandView::Show(b) => bays.contains(b),
        CommandView::MoveTo(id, b) => bays.contains(b) && first_windows(v, b).contains(id),
        CommandView::Stow(id) => stow_others && !listed(v, bays, id) && visible_in(windows, id),
    }
    &&& forall|j: int| 0 <= j < bays.len() ==> cmds.contains(CommandView::Show(#[trigger] bays[j]))
    &&& forall|j: int, id: Seq<char>| 0 <= j < bays.len() && #[trigger] first_windows(v, bays[j]).contains(id)
        ==> cmds.contains(CommandView::MoveTo(id, bays[j]))
    &&& stow_others ==> forall|k: int| 0 <= k < windows.len() && (#[trigger] windows[k]).workspace is Some
        && windows[k].workspace->Some_0 != scratch() && !listed(v, bays, windows[k].id)
        ==> cmds.contains(CommandView::Stow(windows[k].id))
}

fn listed_exec(ab: &AssembledBench, bays: &Vec<BaySpec>, id: &String) -> (r: bool)
    ensures
        r == listed(ab@, bay_names(bays@), id@),
{
    let mut j: usize = 0;
    while j < bays.len()
        invariant
            j <= bays.len(),
            forall|q: int| 0 <= q < j ==> !first_windows(ab@, #[trigger] bay_names(bays@)[q]).contains(id@),
        decreases bays.len() - j,
    {
        let ws = ab.first_bay_windows(bays[j].name.as_str());
        proof { assert(bay_names(bays@)[j as int] == bays@[j as int].name@); }
        if contains_text(&ws, id) {
            return true;
        }
        j = j + 1;
    }
    false
}

/// Brings a bench into view. Its snapshot is rebuilt from the declared bays in
/// order, each with the live windows of its previous entry and the live
/// recorded windows of its tools; then each
/// bay is shown with its windows moved onto it, and, when `stow_others` is set,
/// every other window not already on the scratchpad goes there. The commands are
/// to be run in order.
pub fn focus_bench(
    bench: &Bench,
    assembled_bench: &mut AssembledBench,
    tool_records: &Vec<(String, AssembledTool)>,
    tree: &TreeNode,
    stow_others: bool,
) -> (r: (Vec<LayoutCommand>, Vec<ToolStatus>))
    ensures
        focus_commands(command_views(r.0@), final(assembled_bench)@, bay_names(bench.bays@),
            crate::sway::windows_in(*tree, None), stow_others),
        status_views(r.1@) == bench_statuses(bench.bays@, tool_records@, true),
        final(assembled_bench)@ == focus_snapshot(old(assembled_bench)@, bench.bays@, tool_records@, *tree),
{
    let ghost old_v = assembled_bench@;
    let mut fresh = AssembledBench::new();
    let mut statuses: Vec<ToolStatus> = Vec::new();
    let mut j: usize = 0;
    while j < bench.bays.len()
        invariant
            j <= bench.bays.len(),
            old_v == assembled_bench@,
            fresh@ == focus_snapshot(old_v, bench.bays@.subrange(0, j as int), tool_records@, *tree),
            status_views(statuses@) == bench_statuses(bench.bays@.subrange(0, j as int), tool_records@, true),
        decreases bench.bays.len() - j,
    {
        let bay = &bench.bays[j];
        let ghost v0 = fresh@;
        if fresh.find_bay(bay.name.as_str()).is_none() {
            let mut windows = assembled_bench.first_bay_windows(bay.name.as_str());
            prune_missing_windows(&mut windows, Some(tree));
            let ghost prev = fresh@;
            fresh.bay_windows.push(BayWindows { bay: bay.name.clone(), windows });
            assert(fresh@ =~= prev.push((bay.name@, alive_in(first_windows(old_v, bay.name@), Some(*tree)))));
        }
        let ghost v1 = fresh@;
        let ghost names = texts(bay.tool_names@);
        let mut t: usize = 0;
        while t < bay.tool_names.len()
            invariant
                t <= bay.tool_names.len(),
                names == texts(bay.tool_names@),
                fresh@ == add_live(v1, bay.name@, names.subrange(0, t as int), tool_records@, *tree),
            decreases bay.tool_names.len() - t,
        {
            proof {
                assert(names.subrange(0, t + 1).drop_last() =~= names.subrange(0, t as int));
                assert(names.subrange(0, t + 1).last() == bay.tool_names@[t as int]@);
            }
            let rec = lookup_record(tool_records, bay.tool_names[t].as_str());
            if let Some(id) = &rec {
                if container_exists(tree, id.as_str()) {
                    add_to_bay(&mut fresh, bay.name.as_str(), id);
                }
            }
            t = t + 1;
        }
        assert(names.subrange(0, bay.tool_names.len() as int) =~= names);
        push_bay_statuses(&mut statuses, bay, tool_records, true);
        proof {
            assert(bench.bays@.subrange(0, j + 1).drop_last() =~= bench.bays@.subrange(0, j as int));
            assert(bench.bays@.subrange(0, j + 1).last() == *bay);
        }
        j = j + 1;
    }
    assert(bench.bays@.subrange(0, bench.bays.len() as int) =~= bench.bays@);
    *assembled_bench = fresh;
    let ghost v = assembled_bench@;
    let ghost bays = bay_names(bench.bays@);
    let mut plan: Vec<LayoutCommand> = Vec::new();
    let mut j: usize = 0;
    while j < bench.bays.len()
        invariant
            j <= bench.bays.len(),
            v == assembled_bench@,
            bays == bay_names(bench.bays@),
            forall|k: int| 0 <= k < plan@.len() ==> match #[trigger] command_views(plan@)[k] {
                CommandView::Show(b) => bays.contains(b),
                CommandView::MoveTo(id, b) => bays.contains(b) && first_windows(v, b).contains(id),
                CommandView::Stow(id) => false,
            },
            forall|q: int, id: Seq<char>| 0 <= q < j && #[trigger] first_windows(v, bays[q]).contains(id)
                ==> command_views(plan@).contains(CommandView::MoveTo(id, bays[q])),
            forall|q: int| 0 <= q < j ==> command_views(plan@).contains(CommandView::Show(#[trigger] bays[q])),
        decreases bench.bays.len() - j,
    {
        let bay = &bench.bays[j];
        proof { assert(bays[j as int] == bay.name@); }
        let ghost prev = plan@;
        plan.push(LayoutCommand::Show(bay.name.clone()));
        proof {
            lemma_commands_push(prev, plan@.last());
            lemma_keeps(prev, plan@.last());
            assert forall|q: int| 0 <= q < j + 1 implies command_views(plan@).contains(CommandView::Show(#[trigger] bays[q])) by {
                if q < j {
                    assert(command_views(prev).contains(CommandView::Show(bays[q])));
                }
            }
            assert(bays.contains(bay.name@)) by { assert(0 <= j < bays.len() && bays[j as int] == bay.name@); }
            assert forall|x: int| 0 <= x < plan@.len() implies match #[trigger] command_views(plan@)[x] {
                CommandView::Show(b) => bays.contains(b),
                CommandView::MoveTo(id, b) => bays.contains(b) && first_windows(v, b).contains(id),
                CommandView::Stow(id) => false,
            } by {
                if x < prev.len() {
                    assert(command_views(plan@)[x] == command_views(prev)[x]);
                }
            }
            assert forall|q: int, id: Seq<char>| 0 <= q < j && #[trigger] first_windows(v, bays[q]).contains(id)
                implies command_views(plan@).contains(CommandView::MoveTo(id, bays[q])) by {
                let k = choose|k: int| 0 <= k < command_views(prev).len() && command_views(prev)[k] == CommandView::MoveTo(id, bays[q]);
                assert(command_views(plan@)[k] == command_views(prev)[k]);
            }
        }
        let ids = assembled_bench.first_bay_windows(bay.name.as_str());
        let ghost start = plan@.len();
        let mut k: usize = 0;
        while k < ids.len()
            invariant
                k <= ids.len(),
                v == assembled_bench@,
                bays == bay_names(bench.bays@),
                j < bays.len(),
                bays[j as int] == bay.name@,
                texts(ids@) == first_windows(v, bay.name@),
                start <= plan@.len(),
                forall|x: int| 0 <= x < plan@.len() ==> match #[trigger] command_views(plan@)[x] {
                    CommandView::Show(b) => bays.contains(b),
                    CommandView::MoveTo(id, b) => bays.contains(b) && first_windows(v, b).contains(id),
                    CommandView::Stow(id) => false,
                },
                forall|q: int, id: Seq<char>| 0 <= q < j && #[trigger] first_windows(v, bays[q]).contains(id)
                    ==> command_views(plan@).contains(CommandView::MoveTo(id, bays[q])),
                forall|y: int| 0 <= y < k ==> command_views(plan@).contains(CommandView::MoveTo(#[trigger] texts(ids@)[y], bay.name@)),
                forall|q: int| 0 <= q < j + 1 ==> command_views(plan@).contains(CommandView::Show(#[trigger] bays[q])),
            decreases ids.len() - k,
        {
            let ghost prev = plan@;
            proof { assert(texts(ids@)[k as int] == ids@[k as int]@); }
            plan.push(LayoutCommand::MoveTo(ids[k].clone(), bay.name.clone()));
            proof {
                lemma_commands_push(prev, plan@.last());
                lemma_keeps(prev, plan@.last());
                assert forall|q: int| 0 <= q < j + 1 implies command_views(plan@).contains(CommandView::Show(#[trigger] bays[q])) by {
                    assert(command_views(prev).contains(CommandView::Show(bays[q])));
                }
                assert(command_views(plan@)[prev.len() as int] == CommandView::MoveTo(texts(ids@)[k as int], bay.name@));
                assert(bays.contains(bay.name@)) by { assert(0 <= j < bays.len() && bays[j as int] == bay.name@); }
                assert(first_windows(v, bay.name@).contains(texts(ids@)[k as int])) by {
                    assert(first_windows(v, bay.name@)[k as int] == texts(ids@)[k as int]);
                }
                assert forall|x: int| 0 <= x < plan@.len() implies match #[trigger] command_views(plan@)[x] {
                    CommandView::Show(b) => bays.contains(b),
                    CommandView::MoveTo(id, b) => bays.contains(b) && first_windows(v, b).contains(id),
                    CommandView::Stow(id) => false,
                } by {
                    if x < prev.len() {
                        assert(command_views(plan@)[x] == command_views(prev)[x]);
                    }
                }
                assert forall|q: int, id: Seq<char>| 0 <= q < j && #[trigger] first_windows(v, bays[q]).contains(id)
                    implies command_views(plan@).contains(CommandView::MoveTo(id, bays[q])) by {
                    let x = choose|x: int| 0 <= x < command_views(prev).len() && command_views(prev)[x] == CommandView::MoveTo(id, bays[q]);
                    assert(command_views(plan@)[x] == command_views(prev)[x]);
                }
                assert forall|y: int| 0 <= y < k + 1 implies command_views(plan@).contains(CommandView::MoveTo(#[trigger] texts(ids@)[y], bay.name@)) by {
                    if y < k {
                        let x = choose|x: int| 0 <= x < command_views(prev).len() && command_views(prev)[x] == CommandView::MoveTo(texts(ids@)[y], bay.name@);
                        assert(command_views(plan@)[x] == command_views(prev)[x]);
                    } else {
                        assert(command_views(plan@)[prev.len() as int] == CommandView::MoveTo(texts(ids@)[y], bay.name@));
                    }
                }
            }
            k = k + 1;
        }
        proof {
            assert forall|q: int, id: Seq<char>| 0 <= q < j + 1 && #[trigger] first_windows(v, bays[q]).contains(id)
                implies command_views(plan@).contains(CommandView::MoveTo(id, bays[q])) by {
                if q == j {
                    let y = choose|y: int| 0 <= y < texts(ids@).len() && texts(ids@)[y] == id;
                    assert(command_views(plan@).contains(CommandView::MoveTo(texts(ids@)[y], bay.name@)));
                }
            }
        }
        j = j + 1;
    }
    if stow_others {
        let windows = current_windows(tree);
        let ghost ws = window_views(windows@);
        let ghost mid = plan@.len();
        let mut k: usize = 0;
        while k < windows.len()
            invariant
                k <= windows.len(),
                ws == window_views(windows@),
                ws == crate::sway::windows_in(*tree, None),
                v == assembled_bench@,
                bays == bay_names(bench.bays@),
                forall|x: int| 0 <= x < plan@.len() ==> match #[trigger] command_views(plan@)[x] {
                    CommandView::Show(b) => bays.contains(b),
                    CommandView::MoveTo(id, b) => bays.contains(b) && first_windows(v, b).contains(id),
                    CommandView::Stow(id) => !listed(v, bays, id) && visible_in(ws, id),
                },
                forall|q: int, id: Seq<char>| 0 <= q < bays.len() && #[trigger] first_windows(v, bays[q]).contains(id)
                    ==> command_views(plan@).contains(CommandView::MoveTo(id, bays[q])),
                forall|q: int| 0 <= q < bays.len() ==> command_views(plan@).contains(CommandView::Show(#[trigger] bays[q])),
                forall|y: int| 0 <= y < k && (#[trigger] ws[y]).workspace is Some && ws[y].workspace->Some_0 != scratch()
                    && !listed(v, bays, ws[y].id) ==> command_views(plan@).contains(CommandView::Stow(ws[y].id)),
            decreases windows.len() - k,
        {
            let w = &windows[k];
            proof { assert(ws[k as int] == w@); }
            let visible = match &w.workspace {
                Some(name) => {
                    proof { reveal_strlit("__i3_scratch"); }
                    !str_eq(name.as_str(), "__i3_scratch")
                },
                None => false,
            };
            if visible && !listed_exec(assembled_bench, &bench.bays, &w.id) {
                let ghost prev = plan@;
                plan.push(LayoutCommand::Stow(w.id.clone()));
                proof {
                    lemma_commands_push(prev, plan@.last());
                    lemma_keeps(prev, plan@.last());
                    assert forall|q: int| 0 <= q < bays.len() implies command_views(plan@).contains(CommandView::Show(#[trigger] bays[q])) by {
                        assert(command_views(prev).contains(CommandView::Show(bays[q])));
                    }
                    assert(command_views(plan@)[prev.len() as int] == CommandView::Stow(ws[k as int].id));
                    assert(visible_in(ws, w@.id)) by {
                        assert(ws[k as int].id == w@.id);
                    }
                    assert forall|x: int| 0 <= x < plan@.len() implies match #[trigger] command_views(plan@)[x] {
                        CommandView::Show(b) => bays.contains(b),
                        CommandView::MoveTo(id, b) => bays.contains(b) && first_windows(v, b).contains(id),
                        CommandView::Stow(id) => !listed(v, bays, id) && visible_in(ws, id),
                    } by {
                        if x < prev.len() {
                            assert(command_views(plan@)[x] == command_views(prev)[x]);
                        }
                    }
                    assert forall|q: int, id: Seq<char>| 0 <= q < bays.len() && #[trigger] first_windows(v, bays[q]).contains(id)
                        implies command_views(plan@).contains(CommandView::MoveTo(id, bays[q])) by {
                        let x = choose|x: int| 0 <= x < command_views(prev).len() && command_views(prev)[x] == CommandView::MoveTo(id, bays[q]);
                        assert(command_views(plan@)[x] == command_views(prev)[x]);
                    }
                    assert forall|y: int| 0 <= y < k && (#[trigger] ws[y]).workspace is Some && ws[y].workspace->Some_0 != scratch()
                        && !listed(v, bays, ws[y].id) implies command_views(plan@).contains(CommandView::Stow(ws[y].id)) by {
                        let x = choose|x: int| 0 <= x < command_views(prev).len() && command_views(prev)[x] == CommandView::Stow(ws[y].id);
                        assert(command_views(plan@)[x] == command_views(prev)[x]);
                    }
                }
            }
            k = k + 1;
        }
    }
    (plan, statuses)
}

/// After a focus that stows the others, each window listed for a bay of the
/// bench sits on that bay, and each window that sat on a workspace other than the
/// scratchpad and is listed for no bay sits on the scratchpad. A window listed
/// for two different bays cannot sit on both, so such snapshots are left out.
pub proof fn lemma_focus_complement(
    cmds: Seq<CommandView>,
    v: Seq<BayView>,
    bays: Seq<Seq<char>>,
    windows: Seq<crate::sway::WindowView>,
)
    requires
        focus_commands(cmds, v, bays, windows, true),
        forall|a: int, b: int, id: Seq<char>| 0 <= a < bays.len() && 0 <= b < bays.len() && bays[a] != bays[b]
            && #[trigger] first_windows(v, bays[a]).contains(id) ==> !#[trigger] first_windows(v, bays[b]).contains(id),
    ensures
        forall|j: int, id: Seq<char>, start: Option<Seq<char>>| 0 <= j < bays.len() && #[trigger] first_windows(v, bays[j]).contains(id)
            ==> #[trigger] placed_after(cmds, id, start) == Some(bays[j]),
        forall|k: int| 0 <= k < windows.len() && (#[trigger] windows[k]).workspace is Some
            && windows[k].workspace->Some_0 != scratch() && !listed(v, bays, windows[k].id)
            ==> placed_after(cmds, windows[k].id, windows[k].workspace) == Some(scratch()),
{
    assert forall|j: int, id: Seq<char>, start: Option<Seq<char>>| 0 <= j < bays.len() && #[trigger] first_windows(v, bays[j]).contains(id)
        implies #[trigger] placed_after(cmds, id, start) == Some(bays[j]) by {
        assert(cmds.contains(CommandView::MoveTo(id, bays[j])));
        let k0 = choose|k: int| 0 <= k < cmds.len() && cmds[k] == CommandView::MoveTo(id, bays[j]);
        assert(touches(cmds[k0], id));
        assert forall|k: int| 0 <= k < cmds.len() && touches(#[trigger] cmds[k], id) implies target(cmds[k]) == bays[j] by {
            match cmds[k] {
                CommandView::MoveTo(i, b) => {
                    let a = choose|a: int| 0 <= a < bays.len() && bays[a] == b;
                    assert(first_windows(v, bays[a]).contains(id));
                }
                CommandView::Stow(i) => {
                    assert(listed(v, bays, id));
                }
                CommandView::Show(_) => {}
            }
        }
        lemma_placed_to(cmds, id, start, bays[j]);
    }
    assert forall|k: int| 0 <= k < windows.len() && (#[trigger] windows[k]).workspace is Some
        && windows[k].workspace->Some_0 != scratch() && !listed(v, bays, windows[k].id)
        implies placed_after(cmds, windows[k].id, windows[k].workspace) == Some(scratch()) by {
        let id = windows[k].id;
        assert(cmds.contains(CommandView::Stow(id)));
        let k0 = choose|x: int| 0 <= x < cmds.len() && cmds[x] == CommandView::Stow(id);
        assert(touches(cmds[k0], id));
        assert forall|x: int| 0 <= x < cmds.len() && touches(#[trigger] cmds[x], id) implies target(cmds[x]) == scratch() by {
            match cmds[x] {
                CommandView::MoveTo(i, b) => {
                    let a = choose|a: int| 0 <= a < bays.len() && bays[a] == b;
                    assert(first_windows(v, bays[a]).contains(id));
                }
                _ => {}
            }
        }
        lemma_placed_to(cmds, id, windows[k].workspace, scratch());
    }
}

/// One status per tool of a bay, in order, each with the window its record gives.
pub open spec fn tool_statuses(bay: Seq<char>, names: Seq<Seq<char>>, recs: Seq<(String, AssembledTool)>, ws: Option<Seq<char>>) -> Seq<StatusView>
    decreases names.len(),
{
    if names.len() == 0 {
        Seq::empty()
    } else {
        tool_statuses(bay, names.drop_last(), recs, ws).push(StatusView {
            name: names.last(),
            bay,
            window_id: record_of(recs, names.last()),
            workspace: ws,
            launched: false,
        })
    }
}

/// The statuses of every tool of every bay, in declaration order; `on_bay` puts
/// each on its bay's workspace, else the workspace is left unknown.
pub open spec fn bench_statuses(bays: Seq<BaySpec>, recs: Seq<(String, AssembledTool)>, on_bay: bool) -> Seq<StatusView>
    decreases bays.len(),
{
    if bays.len() == 0 {
        Seq::empty()
    } else {
        let b = bays.last();
        bench_statuses(bays.drop_last(), recs, on_bay) + tool_statuses(
            b.name@,
            texts(b.tool_names@),
            recs,
            if on_bay { Some(b.name@) } else { None },
        )
    }
}

/// The statuses of the tools of one bay.
fn push_bay_statuses(
    statuses: &mut Vec<ToolStatus>,
    bay: &BaySpec,
    tool_records: &Vec<(String, AssembledTool)>,
    on_bay: bool,
)
    ensures
        status_views(final(statuses)@) == status_views(old(statuses)@) + tool_statuses(
            bay.name@,
            texts(bay.tool_names@),
            tool_records@,
            if on_bay { Some(bay.name@) } else { None },
        ),
{
    let ghost base = status_views(statuses@);
    let ghost names = texts(bay.tool_names@);
    let ghost ws: Option<Seq<char>> = if on_bay { Some(bay.name@) } else { None };
    let mut t: usize = 0;
    while t < bay.tool_names.len()
        invariant
            t <= bay.tool_names.len(),
            names == texts(bay.tool_names@),
            ws == (if on_bay { Some(bay.name@) } else { None::<Seq<char>> }),
            status_views(statuses@) == base + tool_statuses(bay.name@, names.subrange(0, t as int), tool_records@, ws),
        decreases bay.tool_names.len() - t,
    {
        let name = &bay.tool_names[t];
        let rec = lookup_record(tool_records, name.as_str());
        let workspace = if on_bay { Some(bay.name.clone()) } else { None };
        let ghost prev = statuses@;
        statuses.push(ToolStatus { name: name.clone(), bay: bay.name.clone(), window_id: rec, workspace, launched: false });
        proof {
            assert(names.subrange(0, t + 1).drop_last() =~= names.subrange(0, t as int));
            assert(names[t as int] == name@);
            assert(status_views(statuses@) =~= status_views(prev).push(statuses@.last()@));
        }
        t = t + 1;
    }
    assert(names.subrange(0, names.len() as int) =~= names);
}

/// A command that sends a live window to the scratchpad.
pub open spec fn live_stow(c: CommandView, tree: TreeNode) -> bool {
    match c {
        CommandView::Stow(id) => tree_has(tree, id),
        _ => false,
    }
}


/// When the record of a tool names a live window, the plan stows it.
pub open spec fn record_stowed(recs: Seq<(String, AssembledTool)>, name: Seq<char>, tree: TreeNode, cmds: Seq<CommandView>) -> bool {
    match record_of(recs, name) {
        Some(id) => tree_has(tree, id) ==> stows(cmds, id),
        None => true,
    }
}

/// Whether the plan stows this window.
pub open spec fn stows(cmds: Seq<CommandView>, id: Seq<char>) -> bool {
    cmds.contains(CommandView::Stow(id))
}

/// Pushing a command stows what was stowed before, and the pushed window if the
/// command stows it.
proof fn lemma_stows_push(prev: Seq<LayoutCommand>, c: LayoutCommand)
    ensures
        forall|x: Seq<char>| #[trigger] stows(command_views(prev.push(c)), x) <==> (stows(command_views(prev), x) || c@ == CommandView::Stow(x)),
        forall|k: int| 0 <= k < prev.len() ==> command_views(prev.push(c))[k] == #[trigger] command_views(prev)[k],
        command_views(prev.push(c)).last() == c@,
{
    lemma_commands_push(prev, c);
    let a = command_views(prev);
    let b = command_views(prev.push(c));
    assert forall|x: Seq<char>| #[trigger] stows(b, x) <==> (stows(a, x) || c@ == CommandView::Stow(x)) by {
        if stows(b, x) {
            let k = choose|k: int| 0 <= k < b.len() && b[k] == CommandView::Stow(x);
            if k < a.len() {
                assert(a[k] == b[k]);
            }
        }
        if stows(a, x) {
            let k = choose|k: int| 0 <= k < a.len() && a[k] == CommandView::Stow(x);
            assert(b[k] == a[k]);
        }
        if c@ == CommandView::Stow(x) {
            assert(b[a.len() as int] == c@);
        }
    }
}

proof fn lemma_moved_push(m: Seq<String>, s: String)
    ensures
        forall|x: Seq<char>| #[trigger] texts(m.push(s)).contains(x) <==> (texts(m).contains(x) || x == s@),
{
    lemma_texts_push(m, s);
    assert forall|x: Seq<char>| #[trigger] texts(m.push(s)).contains(x) <==> (texts(m).contains(x) || x == s@) by {
        if texts(m.push(s)).contains(x) {
            let k = choose|k: int| 0 <= k < texts(m.push(s)).len() && texts(m.push(s))[k] == x;
            if k < m.len() {
                assert(texts(m)[k] == x);
            }
        }
        if texts(m).contains(x) {
            let k = choose|k: int| 0 <= k < texts(m).len() && texts(m)[k] == x;
            assert(texts(m.push(s))[k] == x);
        }
        if x == s@ {
            assert(texts(m.push(s))[m.len() as int] == x);
        }
    }
}

/// The stow plan so far: each command sends a live window to the scratchpad,
/// none twice, and exactly the live windows marked moved are sent.
spec fn stow_state(cmds: Seq<CommandView>, moved: Seq<Seq<char>>, tree: TreeNode) -> bool {
    &&& forall|k: int| 0 <= k < cmds.len() ==> live_stow(#[trigger] cmds[k], tree)
    &&& no_dups(cmds)
    &&& forall|x: Seq<char>| #[trigger] stows(cmds, x) <==> (moved.contains(x) && tree_has(tree, x))
}

/// Marks a window moved and, when it is alive, stows it, unless it was moved
/// already.
fn stow_once(plan: &mut Vec<LayoutCommand>, moved: &mut Vec<String>, id: &String, tree: &TreeNode)
    requires
        stow_state(command_views(old(plan)@), texts(old(moved)@), *tree),
    ensures
        stow_state(command_views(final(plan)@), texts(final(moved)@), *tree),
        forall|x: Seq<char>| #[trigger] texts(final(moved)@).contains(x) <==> (texts(old(moved)@).contains(x) || x == id@),
{
    if contains_text(moved, id) {
        return;
    }
    let ghost pm = moved@;
    moved.push(id.clone());
    proof { lemma_moved_push(pm, *id); }
    if container_exists(tree, id.as_str()) {
        let ghost prev = plan@;
        plan.push(LayoutCommand::Stow(id.clone()));
        proof {
            lemma_stows_push(prev, plan@.last());
            let b = command_views(plan@);
            assert forall|k: int| 0 <= k < b.len() implies live_stow(#[trigger] b[k], *tree) by {
                if k < prev.len() {
                    assert(b[k] == command_views(prev)[k]);
                }
            }
            assert forall|a: int, c: int| 0 <= a < c < b.len() implies b[a] != b[c] by {
                if c < prev.len() {
                    assert(b[a] == command_views(prev)[a]);
                    assert(b[c] == command_views(prev)[c]);
                } else {
                    assert(b[a] == command_views(prev)[a]);
                    if b[a] == CommandView::Stow(id@) {
                        assert(stows(command_views(prev), id@));
                    }
                }
            }
        }
    }
}

/// Whether a window is listed in a bay of the snapshot or recorded for a tool
/// of the bench.
pub open spec fn stow_origin(v: Seq<BayView>, bays: Seq<BaySpec>, recs: Seq<(String, AssembledTool)>, x: Seq<char>) -> bool {
    (exists|i: int| 0 <= i < v.len() && #[trigger] v[i].1.contains(x))
    || (exists|j: int, t: int| 0 <= j < bays.len() && 0 <= t < bays[j].tool_names@.len()
        && #[trigger] record_of(recs, bays[j].tool_names@[t]@) == Some(x))
}

/// Puts a bench away: every bay of its snapshot is pruned of closed windows, and
/// each live window of the snapshot, then each live recorded window of the
/// bench's tools, goes to the scratchpad once. The statuses' workspaces are left
/// unknown until the moves have run.
pub fn stow_bench(
    bench: &Bench,
    assembled_bench: &mut AssembledBench,
    tool_records: &Vec<(String, AssembledTool)>,
    tree: &TreeNode,
) -> (r: (Vec<LayoutCommand>, Vec<ToolStatus>))
    ensures
        final(assembled_bench)@.len() == old(assembled_bench)@.len(),
        forall|i: int| 0 <= i < old(assembled_bench)@.len() ==> #[trigger] final(assembled_bench)@[i] == (
            old(assembled_bench)@[i].0, alive_in(old(assembled_bench)@[i].1, Some(*tree))),
        forall|k: int| 0 <= k < r.0@.len() ==> live_stow(#[trigger] command_views(r.0@)[k], *tree),
        no_dups(command_views(r.0@)),
        forall|i: int, id: Seq<char>| 0 <= i < final(assembled_bench)@.len() && #[trigger] final(assembled_bench)@[i].1.contains(id)
            ==> stows(command_views(r.0@), id),
        forall|j: int, t: int| 0 <= j < bench.bays@.len() && 0 <= t < bench.bays@[j].tool_names@.len()
            ==> #[trigger] record_stowed(tool_records@, bench.bays@[j].tool_names@[t]@, *tree, command_views(r.0@)),
        status_views(r.1@) == bench_statuses(bench.bays@, tool_records@, false),
        forall|x: Seq<char>| #[trigger] stows(command_views(r.0@), x) ==> stow_origin(final(assembled_bench)@, bench.bays@, tool_records@, x),
{
    let ghost src = assembled_bench@;
    let mut i: usize = 0;
    while i < assembled_bench.bay_windows.len()
        invariant
            i <= assembled_bench.bay_windows.len(),
            assembled_bench@.len() == src.len(),
            forall|k: int| 0 <= k < i ==> #[trigger] assembled_bench@[k] == (src[k].0, alive_in(src[k].1, Some(*tree))),
            forall|k: int| i <= k < src.len() ==> #[trigger] assembled_bench@[k] == src[k],
        decreases assembled_bench.bay_windows.len() - i,
    {
        let ghost mid = assembled_bench@;
        let mut entry = assembled_bench.bay_windows.remove(i);
        assert(mid[i as int] == src[i as int]);
        assert((entry.bay@, texts(entry.windows@)) == mid[i as int]);
        prune_missing_windows(&mut entry.windows, Some(tree));
        assert(opt_tree(Some(tree)) == Some(*tree));
        assembled_bench.bay_windows.insert(i, entry);
        assert(assembled_bench@ =~= mid.update(i as int, (src[i as int].0, alive_in(src[i as int].1, Some(*tree)))));
        i = i + 1;
    }
    let ghost v = assembled_bench@;
    let mut moved: Vec<String> = Vec::new();
    let mut plan: Vec<LayoutCommand> = Vec::new();
    proof {
        assert(command_views(plan@) =~= Seq::<CommandView>::empty());
        assert(texts(moved@) =~= Seq::<Seq<char>>::empty());
    }
    let mut i: usize = 0;
    while i < assembled_bench.bay_windows.len()
        invariant
            i <= assembled_bench.bay_windows.len(),
            v == assembled_bench@,
            forall|k: int| 0 <= k < v.len() ==> #[trigger] v[k] == (src[k].0, alive_in(src[k].1, Some(*tree))),
            stow_state(command_views(plan@), texts(moved@), *tree),
            forall|k: int, id: Seq<char>| 0 <= k < i && #[trigger] v[k].1.contains(id) ==> texts(moved@).contains(id),
            forall|x: Seq<char>| #[trigger] texts(moved@).contains(x) ==> stow_origin(v, bench.bays@, tool_records@, x),
        decreases assembled_bench.bay_windows.len() - i,
    {
        let entry = &assembled_bench.bay_windows[i];
        let ghost ids = texts(entry.windows@);
        assert(ids == v[i as int].1);
        let mut k: usize = 0;
        while k < entry.windows.len()
            invariant
                k <= entry.windows.len(),
                ids == texts(entry.windows@),
                stow_state(command_views(plan@), texts(moved@), *tree),
                forall|q: int, id: Seq<char>| 0 <= q < i && #[trigger] v[q].1.contains(id) ==> texts(moved@).contains(id),
                forall|y: int| 0 <= y < k ==> texts(moved@).contains(#[trigger] ids[y]),
                i < v.len(),
                ids == v[i as int].1,
                forall|x: Seq<char>| #[trigger] texts(moved@).contains(x) ==> stow_origin(v, bench.bays@, tool_records@, x),
            decreases entry.windows.len() - k,
        {
            proof { assert(ids[k as int] == entry.windows@[k as int]@); }
            stow_once(&mut plan, &mut moved, &entry.windows[k], tree);
            proof {
                assert(v[i as int].1.contains(ids[k as int]));
            }
            k = k + 1;
        }
        proof {
            assert forall|q: int, id: Seq<char>| 0 <= q < i + 1 && #[trigger] v[q].1.contains(id) implies texts(moved@).contains(id) by {
                if q == i {
                    let y = choose|y: int| 0 <= y < ids.len() && ids[y] == id;
                    assert(texts(moved@).contains(ids[y]));
                }
            }
        }
        i = i + 1;
    }
    let mut statuses: Vec<ToolStatus> = Vec::new();
    let mut j: usize = 0;
    while j < bench.bays.len()
        invariant
            j <= bench.bays.len(),
            v == assembled_bench@,
            forall|k: int| 0 <= k < v.len() ==> #[trigger] v[k] == (src[k].0, alive_in(src[k].1, Some(*tree))),
            stow_state(command_views(plan@), texts(moved@), *tree),
            forall|k: int, id: Seq<char>| 0 <= k < v.len() && #[trigger] v[k].1.contains(id) ==> texts(moved@).contains(id),
            forall|q: int, t: int| 0 <= q < j && 0 <= t < bench.bays@[q].tool_names@.len()
                ==> (#[trigger] record_of(tool_records@, bench.bays@[q].tool_names@[t]@)) is None
                    || texts(moved@).contains(record_of(tool_records@, bench.bays@[q].tool_names@[t]@)->Some_0),
            status_views(statuses@) == bench_statuses(bench.bays@.subrange(0, j as int), tool_records@, false),
            forall|x: Seq<char>| #[trigger] texts(moved@).contains(x) ==> stow_origin(v, bench.bays@, tool_records@, x),
        decreases bench.bays.len() - j,
    {
        let bay = &bench.bays[j];
        let mut t: usize = 0;
        while t < bay.tool_names.len()
            invariant
                t <= bay.tool_names.len(),
                j < bench.bays@.len(),
                *bay == bench.bays@[j as int],
                stow_state(command_views(plan@), texts(moved@), *tree),
                forall|k: int, id: Seq<char>| 0 <= k < v.len() && #[trigger] v[k].1.contains(id) ==> texts(moved@).contains(id),
                forall|q: int, t2: int| 0 <= q < j && 0 <= t2 < bench.bays@[q].tool_names@.len()
                    ==> (#[trigger] record_of(tool_records@, bench.bays@[q].tool_names@[t2]@)) is None
                        || texts(moved@).contains(record_of(tool_records@, bench.bays@[q].tool_names@[t2]@)->Some_0),
                forall|t2: int| 0 <= t2 < t ==> (#[trigger] record_of(tool_records@, bay.tool_names@[t2]@)) is None
                    || texts(moved@).contains(record_of(tool_records@, bay.tool_names@[t2]@)->Some_0),
                forall|x: Seq<char>| #[trigger] texts(moved@).contains(x) ==> stow_origin(v, bench.bays@, tool_records@, x),
            decreases bay.tool_names.len() - t,
        {
            let rec = lookup_record(tool_records, bay.tool_names[t].as_str());
            if let Some(id) = &rec {
                stow_once(&mut plan, &mut moved, id, tree);
                proof {
                    assert(record_of(tool_records@, bench.bays@[j as int].tool_names@[t as int]@) == Some(id@));
                }
            }
            t = t + 1;
        }
        push_bay_statuses(&mut statuses, bay, tool_records, false);
        proof {
            assert(bench.bays@.subrange(0, j + 1).drop_last() =~= bench.bays@.subrange(0, j as int));
            assert(bench.bays@.subrange(0, j + 1).last() == *bay);
        }
        j = j + 1;
    }
    assert(bench.bays@.subrange(0, bench.bays.len() as int) =~= bench.bays@);
    proof {
        assert forall|q: int, id: Seq<char>| 0 <= q < v.len() && #[trigger] v[q].1.contains(id) implies stows(command_views(plan@), id) by {
            let y = choose|y: int| 0 <= y < v[q].1.len() && v[q].1[y] == id;
            lemma_pruned_alive(src[q].1, Some(*tree), y);
        }
    }
    (plan, statuses)
}

/// A window the window manager no longer has is dropped from a bay when it is
/// pruned, and pruning raises nothing.
pub proof fn lemma_prune_drops_closed(ids: Seq<Seq<char>>, tree: TreeNode, id: Seq<char>)
    requires
        !tree_has(tree, id),
    ensures
        !alive_in(ids, Some(tree)).contains(id),
{
    if alive_in(ids, Some(tree)).contains(id) {
        let k = choose|k: int| 0 <= k < alive_in(ids, Some(tree)).len() && alive_in(ids, Some(tree))[k] == id;
        lemma_pruned_alive(ids, Some(tree), k);
    }
}

/// Assembling again with nothing changed: a pass records for each tool the
/// window it resolved, and when that window is still alive the next pass
/// resolves the tool to the same window without discovering or launching,
/// whatever other windows match its kind.
pub proof fn lemma_reassemble_reuses(
    recs: Seq<(String, AssembledTool)>,
    tool: Seq<char>,
    id: Seq<char>,
    tree: TreeNode,
    sigs: Seq<Seq<char>>,
)
    requires
        record_of(recs, tool) == Some(id),
        tree_has(tree, id),
    ensures
        resolution_of(record_of(recs, tool), tree, sigs) == Some(id),
{
}

/// Starts resolving one tool for a bay; the tool must be declared.
pub fn assign_tool_to_bay(
    tool_name: &str,
    bay: &BaySpec,
    definitions: Vec<ToolDefinition>,
    records: Vec<(String, AssembledTool)>,
    home: Option<String>,
    timeout_ms: u64,
) -> (r: Result<(BenchAssembly, Action), BenchError>)
    ensures
        !crate::model::has_definition(definitions@, tool_name@) ==> (r matches Err(BenchError::ToolNotFound(n)) && n@ == tool_name@),
        crate::model::has_definition(definitions@, tool_name@) ==> (r matches Ok(p) && bay_names(p.0.bays@) == seq![bay.name@]
            && crate::model::bay_tools(p.0.bays@) == seq![seq![tool_name@]] && p.1 is Snapshot && p.0.phase is Prune
            && pass_inv(p.0) && p.0.records@ == records@ && p.0.definitions@ == definitions@),
{
    crate::bench_ops::assemble_tool(tool_name, bay.name.as_str(), definitions, records, home, timeout_ms)
}

} // verus!
