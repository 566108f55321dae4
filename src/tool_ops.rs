//! Operations on single tools: whether a recorded window is still there, the
//! DevTools port of a browser, assembling one tool, and saving live state back.
use vstd::prelude::*;
use crate::apps::tool::{opt_state, StateView};
use crate::apps::{browser, ToolState};
use crate::assembly::{assemble_bench, debug_port_of, Action, BenchAssembly};
use crate::error::BenchError;
use crate::layout_ops::{CommandView, LayoutCommand};
use crate::model::{bay_names, bay_tools, AssembledBench, AssembledTool, BaySpec, Bench, ToolDefinition};
use crate::sway::{container_exists, tree_has, TreeNode};
use crate::text::{opt_text, texts};

verus! {

/// The recorded window of a tool, when the window manager still has it.
pub fn tool_window_exists(record: &Option<AssembledTool>, tree: &TreeNode) -> (r: Option<String>)
    ensures
        match *record {
            Some(a) => if tree_has(*tree, a.window_id@) { opt_text(r) == Some(a.window_id@) } else { r is None },
            None => r is None,
        },
{
    match record {
        Some(a) => {
            if container_exists(tree, a.window_id.as_str()) {
                Some(a.window_id.clone())
            } else {
                None
            }
        },
        None => None,
    }
}

/// The DevTools port of a browser tool, the same one the assembler launches it
/// with: 9222 plus its name's hash modulo 1000.
pub fn browser_debug_port(tool_name: &str) -> (r: u16)
    ensures
        r == debug_port_of(tool_name@),
        9222 <= r < 10222,
{
    crate::assembly::stable_debug_port(tool_name)
}

/// Starts an assembly pass over one tool in one bay.
pub fn assemble_tool(
    tool_name: &str,
    bay: &str,
    definitions: Vec<ToolDefinition>,
    records: Vec<(String, AssembledTool)>,
    home: Option<String>,
    timeout_ms: u64,
) -> (r: (BenchAssembly, Action))
    ensures
        bay_names(r.0.bays@) == seq![bay@],
        bay_tools(r.0.bays@) == seq![seq![tool_name@]],
        r.0.records@ == records@,
        r.0.definitions@ == definitions@,
        r.0.phase is Prune,
        crate::assembly::pass_inv(r.0),
        r.1 is Snapshot,
{
    let spec_bay = BaySpec { name: bay.to_owned(), tool_names: vec![tool_name.to_owned()] };
    let bench = Bench {
        name: tool_name.to_owned(),
        bays: vec![spec_bay],
        created_at: 0,
        last_focused_at: None,
        assembled: AssembledBench::new(),
    };
    proof {
        assert(bay_names(bench.bays@) =~= seq![bay@]);
        assert(texts(bench.bays@[0].tool_names@) =~= seq![tool_name@]);
        assert(bay_tools(bench.bays@) =~= seq![seq![tool_name@]]);
    }
    assemble_bench(&bench, AssembledBench::new(), definitions, records, home, timeout_ms)
}

/// After a single tool was assembled: the move that puts a window it launched
/// onto its bay. A reused or discovered window stays where it is.
pub fn bay_move(status: &crate::assembly::ToolStatus) -> (r: Option<LayoutCommand>)
    ensures
        match r {
            Some(c) => status.launched && status.window_id is Some
                && c@ == CommandView::MoveTo(status.window_id->Some_0@, status.bay@),
            None => !status.launched || status.window_id is None,
        },
{
    if !status.launched {
        return None;
    }
    match &status.window_id {
        Some(id) => Some(LayoutCommand::MoveTo(id.clone(), status.bay.clone())),
        None => None,
    }
}

/// Saves a fetched live state into a tool's definition; says whether there was one.
pub fn sync_tool(definition: &mut ToolDefinition, live: Option<ToolState>) -> (r: bool)
    ensures
        r == live is Some,
        opt_state(final(definition).state) == if live is Some { opt_state(live) } else { opt_state(old(definition).state) },
        final(definition).name == old(definition).name,
        final(definition).kind == old(definition).kind,
{
    match live {
        Some(state) => {
            definition.state = Some(state);
            true
        },
        None => false,
    }
}

/// The live state of a browser from the URLs of its open tabs.
pub fn browser_state(urls: Vec<String>) -> (r: ToolState)
    ensures
        r@ == StateView::Browser(texts(urls@)),
{
    ToolState::Browser(browser::Config { urls })
}

/// The tools of a bench in declaration order, each once.
pub open spec fn first_mentions(bays: Seq<Seq<Seq<char>>>) -> Seq<Seq<char>>
    decreases bays.len(),
{
    if bays.len() == 0 {
        Seq::empty()
    } else {
        add_new(first_mentions(bays.drop_last()), bays.last())
    }
}

/// `acc` followed by the names of `names` it does not hold yet, each once.
pub open spec fn add_new(acc: Seq<Seq<char>>, names: Seq<Seq<char>>) -> Seq<Seq<char>>
    decreases names.len(),
{
    if names.len() == 0 {
        acc
    } else {
        let a = add_new(acc, names.drop_last());
        if a.contains(names.last()) { a } else { a.push(names.last()) }
    }
}

/// The tools whose live state is to be saved: those of the focused bench, each
/// once, in declaration order.
pub fn sync_all_tools(focused: &Option<String>, bench: &Bench) -> (r: Result<Vec<String>, BenchError>)
    ensures
        focused is None ==> r matches Err(BenchError::NoFocusedBench),
        focused is Some ==> (r matches Ok(v) && texts(v@) == first_mentions(bay_tools(bench.bays@))),
{
    if focused.is_none() {
        return Err(BenchError::NoFocusedBench);
    }
    let mut out: Vec<String> = Vec::new();
    let mut j: usize = 0;
    while j < bench.bays.len()
        invariant
            j <= bench.bays.len(),
            texts(out@) == first_mentions(bay_tools(bench.bays@.subrange(0, j as int))),
        decreases bench.bays.len() - j,
    {
        let names = &bench.bays[j].tool_names;
        let ghost acc = texts(out@);
        let mut t: usize = 0;
        while t < names.len()
            invariant
                t <= names.len(),
                texts(out@) == add_new(acc, texts(names@).subrange(0, t as int)),
            decreases names.len() - t,
        {
            proof {
                assert(texts(names@).subrange(0, t + 1).drop_last() =~= texts(names@).subrange(0, t as int));
                assert(texts(names@).subrange(0, t + 1).last() == names@[t as int]@);
            }
            if !crate::text::contains_text(&out, &names[t]) {
                let ghost prev = out@;
                out.push(names[t].clone());
                proof { crate::text::lemma_texts_push(prev, names@[t as int]); }
            }
            t = t + 1;
        }
        proof {
            assert(texts(names@).subrange(0, names.len() as int) =~= texts(names@));
            let sub = bench.bays@.subrange(0, j + 1);
            assert(bay_tools(sub).drop_last() =~= bay_tools(bench.bays@.subrange(0, j as int)));
            assert(bay_tools(sub).last() == texts(names@));
        }
        j = j + 1;
    }
    assert(bench.bays@.subrange(0, bench.bays.len() as int) =~= bench.bays@);
    Ok(out)
}

} // verus!
