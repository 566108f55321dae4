//! The window manager's tree as the library sees it, and what is read from it:
//! the windows with their workspaces, whether a container still exists, which
//! windows match a kind's signatures, and the commands sent back to it.
use vstd::prelude::*;
use crate::text::{
    concat3, copy_opt, eq_ignore_ascii_case, i64_text, int_text, opt_text,
    same_ignoring_ascii_case, str_eq, texts, contains_text,
};

verus! {

broadcast use vstd::std_specs::vec::group_vec_axioms;

/// One node of the window manager's layout tree: the root, an output, a
/// workspace, a container or a window.
#[derive(Debug)]
pub struct TreeNode {
    pub id: Option<i64>,
    /// The node's `type` (`"workspace"` for a workspace).
    pub node_type: Option<String>,
    /// A workspace's name, or a window's title.
    pub name: Option<String>,
    pub app_id: Option<String>,
    /// The legacy window class, from the node's window properties.
    pub class: Option<String>,
    /// Whether the node carries a native window handle.
    pub has_window: bool,
    pub nodes: Vec<TreeNode>,
    pub floating_nodes: Vec<TreeNode>,
}

/// A window of the current layout, with the workspace it sits on, if any.
#[derive(Clone, Debug)]
pub struct WindowInfo {
    pub id: String,
    pub app_id: Option<String>,
    pub class: Option<String>,
    pub title: Option<String>,
    pub workspace: Option<String>,
}

pub struct WindowView {
    pub id: Seq<char>,
    pub app_id: Option<Seq<char>>,
    pub class: Option<Seq<char>>,
    pub title: Option<Seq<char>>,
    pub workspace: Option<Seq<char>>,
}

impl View for WindowInfo {
    type V = WindowView;

    open spec fn view(&self) -> WindowView {
        WindowView {
            id: self.id@,
            app_id: opt_text(self.app_id),
            class: opt_text(self.class),
            title: opt_text(self.title),
            workspace: opt_text(self.workspace),
        }
    }
}

/// The views of a sequence of windows.
pub open spec fn window_views(s: Seq<WindowInfo>) -> Seq<WindowView> {
    s.map_values(|w: WindowInfo| w@)
}

/// The identifier of a node as text, as the tree's integer id reads in decimal.
pub open spec fn id_text(n: TreeNode) -> Option<Seq<char>> {
    match n.id {
        Some(i) => Some(int_text(i as int)),
        None => None,
    }
}

pub open spec fn is_workspace(n: TreeNode) -> bool {
    opt_text(n.node_type) == Some("workspace"@)
}

/// A node counts as a window when it has an id and either a window handle, an
/// app id or a class.
pub open spec fn is_window(n: TreeNode) -> bool {
    n.id is Some && (n.has_window || n.app_id is Some || n.class is Some)
}

/// The workspace in force at `n` when `ws` was in force at its parent.
pub open spec fn workspace_at(n: TreeNode, ws: Option<Seq<char>>) -> Option<Seq<char>> {
    if is_workspace(n) { opt_text(n.name) } else { ws }
}

pub open spec fn window_at(n: TreeNode, ws: Option<Seq<char>>) -> WindowView {
    WindowView {
        id: id_text(n)->Some_0,
        app_id: opt_text(n.app_id),
        class: opt_text(n.class),
        title: opt_text(n.name),
        workspace: workspace_at(n, ws),
    }
}

/// The windows of the tree under `n`, in depth-first order (a node before its
/// tiled children, those before its floating children).
pub open spec fn windows_in(n: TreeNode, ws: Option<Seq<char>>) -> Seq<WindowView>
    decreases n,
{
    let here = workspace_at(n, ws);
    let own = if is_window(n) { seq![window_at(n, ws)] } else { Seq::empty() };
    own + windows_in_all(n.nodes@, here) + windows_in_all(n.floating_nodes@, here)
}

pub open spec fn windows_in_all(s: Seq<TreeNode>, ws: Option<Seq<char>>) -> Seq<WindowView>
    decreases s,
{
    if s.len() == 0 {
        Seq::empty()
    } else {
        windows_in_all(s.drop_last(), ws) + windows_in(s.last(), ws)
    }
}

/// Whether a node with identifier `target` is in the tree under `n`.
pub open spec fn tree_has(n: TreeNode, target: Seq<char>) -> bool
    decreases n,
{
    id_text(n) == Some(target) || tree_has_any(n.nodes@, target) || tree_has_any(
        n.floating_nodes@,
        target,
    )
}

pub open spec fn tree_has_any(s: Seq<TreeNode>, target: Seq<char>) -> bool
    decreases s,
{
    s.len() > 0 && (tree_has_any(s.drop_last(), target) || tree_has(s.last(), target))
}

/// Whether `t` equals one of the signatures, ignoring ASCII case.
pub open spec fn matches_any(t: Seq<char>, sigs: Seq<Seq<char>>) -> bool {
    exists|j: int| 0 <= j < sigs.len() && eq_ignore_ascii_case(t, #[trigger] sigs[j])
}

pub open spec fn field_matches(f: Option<String>, sigs: Seq<Seq<char>>) -> bool {
    f is Some && matches_any(f->Some_0@, sigs)
}

/// The id a node contributes: its own, once, when its app id or its class
/// matches.
pub open spec fn own_matches(n: TreeNode, sigs: Seq<Seq<char>>) -> Seq<Seq<char>> {
    if (field_matches(n.app_id, sigs) || field_matches(n.class, sigs)) && n.id is Some {
        seq![id_text(n)->Some_0]
    } else {
        Seq::empty()
    }
}

/// The ids of the windows under `n` whose app id or class matches a signature,
/// in depth-first order.
pub open spec fn matching_ids(n: TreeNode, sigs: Seq<Seq<char>>) -> Seq<Seq<char>>
    decreases n,
{
    own_matches(n, sigs) + matching_ids_all(n.nodes@, sigs) + matching_ids_all(
        n.floating_nodes@,
        sigs,
    )
}

pub open spec fn matching_ids_all(s: Seq<TreeNode>, sigs: Seq<Seq<char>>) -> Seq<Seq<char>>
    decreases s,
{
    if s.len() == 0 {
        Seq::empty()
    } else {
        matching_ids_all(s.drop_last(), sigs) + matching_ids(s.last(), sigs)
    }
}

/// The texts of a list of signature strings.
pub open spec fn sig_texts(p: Seq<&str>) -> Seq<Seq<char>> {
    p.map_values(|s: &str| s@)
}

/// Owned copies of a list of signatures.
pub fn owned_signatures(patterns: &[&str]) -> (r: Vec<String>)
    ensures
        texts(r@) == sig_texts(patterns@),
{
    let mut out: Vec<String> = Vec::new();
    let mut i: usize = 0;
    while i < patterns.len()
        invariant
            i <= patterns@.len(),
            texts(out@) == sig_texts(patterns@).subrange(0, i as int),
        decreases patterns@.len() - i,
    {
        let ghost prev = out@;
        out.push(patterns[i].to_owned());
        proof {
            crate::text::lemma_texts_push(prev, out@.last());
            assert(texts(out@) =~= sig_texts(patterns@).subrange(0, i + 1));
        }
        i = i + 1;
    }
    assert(sig_texts(patterns@).subrange(0, patterns@.len() as int) =~= sig_texts(patterns@));
    out
}

fn node_is_workspace(n: &TreeNode) -> (r: bool)
    ensures
        r == is_workspace(*n),
{
    match &n.node_type {
        Some(t) => {
            proof { reveal_strlit("workspace"); }
            str_eq(t.as_str(), "workspace")
        },
        None => false,
    }
}

proof fn lemma_prefix_step<A>(s: Seq<A>, i: int)
    requires
        0 <= i < s.len(),
    ensures
        s.subrange(0, i + 1).drop_last() == s.subrange(0, i),
        s.subrange(0, i + 1).last() == s[i],
{
    assert(s.subrange(0, i + 1).drop_last() =~= s.subrange(0, i));
}

fn collect_windows(v: &TreeNode, current_ws: Option<String>, out: &mut Vec<WindowInfo>)
    ensures
        window_views(final(out)@) == window_views(old(out)@) + windows_in(*v, opt_text(current_ws)),
    decreases v,
{
    let ghost start = window_views(out@);
    let ghost ws = opt_text(current_ws);
    let here = if node_is_workspace(v) {
        copy_opt(&v.name)
    } else {
        current_ws
    };
    if let Some(id) = v.id {
        if v.has_window || v.app_id.is_some() || v.class.is_some() {
            let w = WindowInfo {
                id: i64_text(id),
                app_id: copy_opt(&v.app_id),
                class: copy_opt(&v.class),
                title: copy_opt(&v.name),
                workspace: copy_opt(&here),
            };
            out.push(w);
            proof {
                assert(window_views(out@) =~= start + seq![window_at(*v, ws)]);
            }
        }
    }
    let ghost own = if is_window(*v) { seq![window_at(*v, ws)] } else { Seq::<WindowView>::empty() };
    assert(window_views(out@) =~= start + own);
    let mut i: usize = 0;
    while i < v.nodes.len()
        invariant
            i <= v.nodes.len(),
            opt_text(here) == workspace_at(*v, ws),
            window_views(out@) == start + own + windows_in_all(v.nodes@.subrange(0, i as int), opt_text(here)),
        decreases v.nodes.len() - i,
    {
        let ghost before = window_views(out@);
        collect_windows(&v.nodes[i], copy_opt(&here), out);
        proof {
            lemma_prefix_step(v.nodes@, i as int);
            assert(window_views(out@) =~= start + own + windows_in_all(v.nodes@.subrange(0, i + 1), opt_text(here)));
        }
        i = i + 1;
    }
    assert(v.nodes@.subrange(0, v.nodes.len() as int) =~= v.nodes@);
    let ghost mid = window_views(out@);
    let mut j: usize = 0;
    while j < v.floating_nodes.len()
        invariant
            j <= v.floating_nodes.len(),
            opt_text(here) == workspace_at(*v, ws),
            window_views(out@) == mid + windows_in_all(v.floating_nodes@.subrange(0, j as int), opt_text(here)),
        decreases v.floating_nodes.len() - j,
    {
        collect_windows(&v.floating_nodes[j], copy_opt(&here), out);
        proof {
            lemma_prefix_step(v.floating_nodes@, j as int);
            assert(window_views(out@) =~= mid + windows_in_all(v.floating_nodes@.subrange(0, j + 1), opt_text(here)));
        }
        j = j + 1;
    }
    assert(v.floating_nodes@.subrange(0, v.floating_nodes.len() as int) =~= v.floating_nodes@);
    assert(window_views(out@) =~= start + windows_in(*v, ws));
}

/// The windows of the current layout, each with the workspace it sits on.
pub fn current_windows(tree: &TreeNode) -> (r: Vec<WindowInfo>)
    ensures
        window_views(r@) == windows_in(*tree, None),
{
    let mut windows: Vec<WindowInfo> = Vec::new();
    collect_windows(tree, None, &mut windows);
    assert(window_views(Seq::<WindowInfo>::empty()) =~= Seq::<WindowView>::empty());
    assert(Seq::<WindowView>::empty() + windows_in(*tree, None) =~= windows_in(*tree, None));
    windows
}

fn container_in_tree(node: &TreeNode, target_id: &str) -> (r: bool)
    ensures
        r == tree_has(*node, target_id@),
    decreases node,
{
    if let Some(id) = node.id {
        let t = i64_text(id);
        if str_eq(t.as_str(), target_id) {
            return true;
        }
    }
    let mut i: usize = 0;
    while i < node.nodes.len()
        invariant
            i <= node.nodes.len(),
            !tree_has_any(node.nodes@.subrange(0, i as int), target_id@),
        decreases node.nodes.len() - i,
    {
        proof { lemma_prefix_step(node.nodes@, i as int); }
        if container_in_tree(&node.nodes[i], target_id) {
            proof {
                assert(node.nodes@.subrange(0, i + 1).drop_last() == node.nodes@.subrange(0, i as int));
                assert(tree_has_any(node.nodes@.subrange(0, i + 1), target_id@));
                lemma_has_any_prefix(node.nodes@, i + 1, target_id@);
            }
            return true;
        }
        i = i + 1;
    }
    assert(node.nodes@.subrange(0, node.nodes.len() as int) =~= node.nodes@);
    let mut j: usize = 0;
    while j < node.floating_nodes.len()
        invariant
            j <= node.floating_nodes.len(),
            !tree_has_any(node.floating_nodes@.subrange(0, j as int), target_id@),
        decreases node.floating_nodes.len() - j,
    {
        proof { lemma_prefix_step(node.floating_nodes@, j as int); }
        if container_in_tree(&node.floating_nodes[j], target_id) {
            proof {
                assert(tree_has_any(node.floating_nodes@.subrange(0, j + 1), target_id@));
                lemma_has_any_prefix(node.floating_nodes@, j + 1, target_id@);
            }
            return true;
        }
        j = j + 1;
    }
    assert(node.floating_nodes@.subrange(0, node.floating_nodes.len() as int) =~= node.floating_nodes@);
    false
}

/// A node found in a prefix of a list of subtrees is found in the whole list.
proof fn lemma_has_any_prefix(s: Seq<TreeNode>, k: int, target: Seq<char>)
    requires
        0 <= k <= s.len(),
        tree_has_any(s.subrange(0, k), target),
    ensures
        tree_has_any(s, target),
    decreases s.len() - k,
{
    if k < s.len() {
        lemma_prefix_step(s, k);
        lemma_has_any_prefix(s, k + 1, target);
    } else {
        assert(s.subrange(0, k) =~= s);
    }
}

/// Whether the window manager still has a container with this identifier.
pub fn container_exists(tree: &TreeNode, container_id: &str) -> (r: bool)
    ensures
        r == tree_has(*tree, container_id@),
{
    container_in_tree(tree, container_id)
}

/// Whether `text` equals one of the signatures, ignoring ASCII case.
pub fn matches_signature(text: &str, patterns: &[&str]) -> (r: bool)
    ensures
        r == matches_any(text@, sig_texts(patterns@)),
{
    let mut j: usize = 0;
    while j < patterns.len()
        invariant
            j <= patterns@.len(),
            forall|k: int| 0 <= k < j ==> !eq_ignore_ascii_case(text@, #[trigger] sig_texts(patterns@)[k]),
        decreases patterns@.len() - j,
    {
        if same_ignoring_ascii_case(text, patterns[j]) {
            proof { assert(sig_texts(patterns@)[j as int] == patterns@[j as int]@); }
            return true;
        }
        j = j + 1;
    }
    false
}

fn field_matches_exec(f: &Option<String>, patterns: &[&str]) -> (r: bool)
    ensures
        r == field_matches(*f, sig_texts(patterns@)),
{
    match f {
        Some(t) => matches_signature(t.as_str(), patterns),
        None => false,
    }
}

fn collect_ids_from_tree(v: &TreeNode, patterns: &[&str], out: &mut Vec<String>)
    ensures
        texts(final(out)@) == texts(old(out)@) + matching_ids(*v, sig_texts(patterns@)),
    decreases v,
{
    let ghost sigs = sig_texts(patterns@);
    let ghost start = texts(out@);
    if field_matches_exec(&v.app_id, patterns) || field_matches_exec(&v.class, patterns) {
        if let Some(id) = v.id {
            out.push(i64_text(id));
        }
    }
    assert(texts(out@) =~= start + own_matches(*v, sigs));
    let ghost own = own_matches(*v, sigs);
    let mut i: usize = 0;
    while i < v.nodes.len()
        invariant
            i <= v.nodes.len(),
            sigs == sig_texts(patterns@),
            texts(out@) == start + own + matching_ids_all(v.nodes@.subrange(0, i as int), sigs),
        decreases v.nodes.len() - i,
    {
        collect_ids_from_tree(&v.nodes[i], patterns, out);
        proof {
            lemma_prefix_step(v.nodes@, i as int);
            assert(texts(out@) =~= start + own + matching_ids_all(v.nodes@.subrange(0, i + 1), sigs));
        }
        i = i + 1;
    }
    assert(v.nodes@.subrange(0, v.nodes.len() as int) =~= v.nodes@);
    let ghost mid = texts(out@);
    let mut j: usize = 0;
    while j < v.floating_nodes.len()
        invariant
            j <= v.floating_nodes.len(),
            sigs == sig_texts(patterns@),
            texts(out@) == mid + matching_ids_all(v.floating_nodes@.subrange(0, j as int), sigs),
        decreases v.floating_nodes.len() - j,
    {
        collect_ids_from_tree(&v.floating_nodes[j], patterns, out);
        proof {
            lemma_prefix_step(v.floating_nodes@, j as int);
            assert(texts(out@) =~= mid + matching_ids_all(v.floating_nodes@.subrange(0, j + 1), sigs));
        }
        j = j + 1;
    }
    assert(v.floating_nodes@.subrange(0, v.floating_nodes.len() as int) =~= v.floating_nodes@);
    assert(texts(out@) =~= start + matching_ids(*v, sigs));
}

/// The ids of the windows whose app id or class matches one of the signatures,
/// ignoring ASCII case, in the order the tree lists them.
pub fn matching_container_ids(tree: &TreeNode, patterns: &[&str]) -> (r: Vec<String>)
    ensures
        texts(r@) == matching_ids(*tree, sig_texts(patterns@)),
{
    let mut ids: Vec<String> = Vec::new();
    collect_ids_from_tree(tree, patterns, &mut ids);
    assert(texts(Seq::<String>::empty()) + matching_ids(*tree, sig_texts(patterns@)) =~= matching_ids(*tree, sig_texts(patterns@)));
    ids
}

/// The command that shows a workspace, creating it if needed.
pub fn ensure_workspace_visible(name: &str) -> (r: Vec<String>)
    ensures
        texts(r@) == seq!["workspace"@, name@],
{
    let r = vec!["workspace".to_owned(), name.to_owned()];
    assert(texts(r@) =~= seq!["workspace"@, name@]);
    r
}

/// The two commands that show a workspace and then give it a new name.
pub fn rename_workspace(workspace: &str, new_name: &str) -> (r: Vec<Vec<String>>)
    ensures
        r@.len() == 2,
        texts(r@[0]@) == seq!["workspace"@, workspace@],
        texts(r@[1]@) == seq!["rename"@, "workspace"@, "to"@, new_name@],
{
    let show = ensure_workspace_visible(workspace);
    let rename = vec!["rename".to_owned(), "workspace".to_owned(), "to".to_owned(), new_name.to_owned()];
    assert(texts(rename@) =~= seq!["rename"@, "workspace"@, "to"@, new_name@]);
    vec![show, rename]
}

/// The criterion that picks one container by its id.
pub open spec fn selector(container_id: Seq<char>) -> Seq<char> {
    "[con_id=\""@ + container_id + "\"]"@
}

fn con_selector(container_id: &str) -> (r: String)
    ensures
        r@ == selector(container_id@),
{
    concat3("[con_id=\"", container_id, "\"]")
}

/// The command that moves one container to a workspace.
pub fn move_container_to_workspace(container_id: &str, workspace: &str) -> (r: Vec<String>)
    ensures
        texts(r@) == seq![selector(container_id@), "move"@, "container"@, "to"@, "workspace"@, workspace@],
{
    let r = vec![
        con_selector(container_id),
        "move".to_owned(),
        "container".to_owned(),
        "to".to_owned(),
        "workspace".to_owned(),
        workspace.to_owned(),
    ];
    assert(texts(r@) =~= seq![selector(container_id@), "move"@, "container"@, "to"@, "workspace"@, workspace@]);
    r
}

/// The command that moves one container to the scratchpad.
pub fn move_container_to_scratchpad(container_id: &str) -> (r: Vec<String>)
    ensures
        texts(r@) == seq![selector(container_id@), "move"@, "container"@, "to"@, "scratchpad"@],
{
    let r = vec![
        con_selector(container_id),
        "move".to_owned(),
        "container".to_owned(),
        "to".to_owned(),
        "scratchpad".to_owned(),
    ];
    assert(texts(r@) =~= seq![selector(container_id@), "move"@, "container"@, "to"@, "scratchpad"@]);
    r
}

/// The first id of `after` that `before` does not hold.
pub open spec fn first_new(after: Seq<Seq<char>>, before: Seq<Seq<char>>) -> Option<Seq<char>>
    decreases after.len(),
{
    if after.len() == 0 {
        None
    } else if !before.contains(after[0]) {
        Some(after[0])
    } else {
        first_new(after.drop_first(), before)
    }
}

/// The first id in `after` that is not in `before`.
pub fn first_new_id(after: &Vec<String>, before: &Vec<String>) -> (r: Option<String>)
    ensures
        opt_text(r) == first_new(texts(after@), texts(before@)),
{
    let ghost a = texts(after@);
    let ghost b = texts(before@);
    assert(a.subrange(0, a.len() as int) =~= a);
    let mut k: usize = 0;
    while k < after.len()
        invariant
            k <= after.len(),
            a == texts(after@),
            b == texts(before@),
            first_new(a, b) == first_new(a.subrange(k as int, a.len() as int), b),
        decreases after.len() - k,
    {
        let ghost rest = a.subrange(k as int, a.len() as int);
        assert(rest[0] == after@[k as int]@);
        if !contains_text(before, &after[k]) {
            return Some(after[k].clone());
        }
        assert(rest.drop_first() =~= a.subrange(k + 1, a.len() as int));
        k = k + 1;
    }
    assert(a.subrange(k as int, a.len() as int) =~= Seq::<Seq<char>>::empty());
    None
}

/// A new window never comes from the set captured before the launch, and is one
/// of the matching windows seen after it.
pub proof fn lemma_new_window_not_before(after: Seq<Seq<char>>, before: Seq<Seq<char>>)
    ensures
        first_new(after, before) matches Some(id) ==> !before.contains(id) && after.contains(id),
    decreases after.len(),
{
    if after.len() > 0 && before.contains(after[0]) {
        lemma_new_window_not_before(after.drop_first(), before);
        if let Some(id) = first_new(after, before) {
            let j = choose|j: int| 0 <= j < after.drop_first().len() && after.drop_first()[j] == id;
            assert(after[j + 1] == id);
        }
    } else if after.len() > 0 {
        assert(after[0] == after[0]);
    }
}

/// What one poll of the window manager decides while waiting for a launched tool.
pub enum WaitStep {
    /// A matching window that was not there before the launch.
    Found(String),
    /// Nothing new yet, and time is left: poll again.
    KeepWaiting,
    /// Nothing new, and the timeout has passed.
    TimedOut,
}

/// Decides one poll of Launch-and-Wait: the first matching window that is not in
/// `before` is the new one; without one, waiting goes on until more than
/// `timeout_ms` has passed since the launch.
pub fn wait_for_new_container(
    tree: &TreeNode,
    patterns: &[&str],
    before: &Vec<String>,
    elapsed_ms: u64,
    timeout_ms: u64,
) -> (r: WaitStep)
    ensures
        ({
            let new = first_new(matching_ids(*tree, sig_texts(patterns@)), texts(before@));
            match r {
                WaitStep::Found(id) => new == Some(id@),
                WaitStep::KeepWaiting => new is None && elapsed_ms <= timeout_ms,
                WaitStep::TimedOut => new is None && elapsed_ms > timeout_ms,
            }
        }),
        r matches WaitStep::Found(id) ==> !texts(before@).contains(id@),
{
    let after = matching_container_ids(tree, patterns);
    proof { lemma_new_window_not_before(texts(after@), texts(before@)); }
    match first_new_id(&after, before) {
        Some(id) => WaitStep::Found(id),
        None => {
            if elapsed_ms > timeout_ms {
                WaitStep::TimedOut
            } else {
                WaitStep::KeepWaiting
            }
        },
    }
}

} // verus!
