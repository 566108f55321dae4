//! Declared benches and tools, and the engine's record of where their windows are.
use vstd::prelude::*;
use crate::apps::{ToolKind, ToolState};
use crate::text::{copy_strings, str_eq, texts};

verus! {

/// A workspace slot of a bench and the tools declared in it.
#[derive(Clone, Debug)]
pub struct BaySpec {
    pub name: String,
    pub tool_names: Vec<String>,
}

/// A named, declared set of bays. Times are Unix seconds.
#[derive(Clone, Debug)]
pub struct Bench {
    pub name: String,
    pub bays: Vec<BaySpec>,
    pub created_at: i64,
    pub last_focused_at: Option<i64>,
    pub assembled: AssembledBench,
}

/// The windows last known to occupy one bay.
#[derive(Clone, Debug)]
pub struct BayWindows {
    pub bay: String,
    pub windows: Vec<String>,
}

/// The snapshot of a bench's windows, bay by bay. Each bay appears once.
#[derive(Clone, Debug)]
pub struct AssembledBench {
    pub bay_windows: Vec<BayWindows>,
}

/// The window last believed to host a tool.
#[derive(Clone, Debug)]
pub struct AssembledTool {
    pub window_id: String,
}

/// A declared tool. Times are Unix seconds.
#[derive(Clone, Debug)]
pub struct ToolDefinition {
    pub name: String,
    pub kind: ToolKind,
    pub created_at: i64,
    pub last_assembled_at: Option<i64>,
    pub state: Option<ToolState>,
    pub assembled: Option<AssembledTool>,
}

/// A bay and its windows, as text.
pub type BayView = (Seq<char>, Seq<Seq<char>>);

impl View for AssembledBench {
    type V = Seq<BayView>;

    open spec fn view(&self) -> Seq<BayView> {
        self.bay_windows@.map_values(|b: BayWindows| (b.bay@, texts(b.windows@)))
    }
}

/// The bays of a bench declaration, as text.
pub open spec fn bay_names(bays: Seq<BaySpec>) -> Seq<Seq<char>> {
    bays.map_values(|b: BaySpec| b.name@)
}

/// The tool names of each bay, as text.
pub open spec fn bay_tools(bays: Seq<BaySpec>) -> Seq<Seq<Seq<char>>> {
    bays.map_values(|b: BaySpec| texts(b.tool_names@))
}

/// The position of `key` among the bays of a snapshot.
pub open spec fn bay_index(v: Seq<BayView>, key: Seq<char>) -> int {
    choose|i: int| 0 <= i < v.len() && v[i].0 == key
}

pub open spec fn has_bay(v: Seq<BayView>, key: Seq<char>) -> bool {
    exists|i: int| 0 <= i < v.len() && v[i].0 == key
}

/// The windows of a bay in a snapshot; none when the bay is absent.
pub open spec fn windows_of(v: Seq<BayView>, key: Seq<char>) -> Seq<Seq<char>> {
    if has_bay(v, key) { v[bay_index(v, key)].1 } else { Seq::empty() }
}

/// The windows of the first entry for a bay; none when the bay is absent.
pub open spec fn first_windows(v: Seq<BayView>, key: Seq<char>) -> Seq<Seq<char>>
    decreases v.len(),
{
    if v.len() == 0 {
        Seq::empty()
    } else if v[0].0 == key {
        v[0].1
    } else {
        first_windows(v.drop_first(), key)
    }
}

pub proof fn lemma_first_windows(v: Seq<BayView>, key: Seq<char>, i: int)
    requires
        0 <= i < v.len(),
        v[i].0 == key,
        forall|k: int| 0 <= k < i ==> v[k].0 != key,
    ensures
        first_windows(v, key) == v[i].1,
    decreases i,
{
    if i > 0 {
        lemma_first_windows(v.drop_first(), key, i - 1);
    }
}

pub proof fn lemma_first_windows_absent(v: Seq<BayView>, key: Seq<char>)
    requires
        !has_bay(v, key),
    ensures
        first_windows(v, key) == Seq::<Seq<char>>::empty(),
    decreases v.len(),
{
    if v.len() > 0 {
        assert(v[0].0 != key);
        assert forall|i: int| 0 <= i < v.drop_first().len() implies v.drop_first()[i].0 != key by {
            assert(v.drop_first()[i] == v[i + 1]);
        }
        lemma_first_windows_absent(v.drop_first(), key);
    }
}

/// Each bay appears once.
pub open spec fn unique_bays(v: Seq<BayView>) -> bool {
    forall|i: int, j: int| 0 <= i < j < v.len() ==> v[i].0 != v[j].0
}

/// A sequence without repeats.
pub open spec fn no_dups<A>(s: Seq<A>) -> bool {
    forall|i: int, j: int| 0 <= i < j < s.len() ==> s[i] != s[j]
}


impl AssembledBench {
    /// An empty snapshot.
    pub fn new() -> (r: AssembledBench)
        ensures
            r@ == Seq::<BayView>::empty(),
    {
        let r = AssembledBench { bay_windows: Vec::new() };
        assert(r@ =~= Seq::<BayView>::empty());
        r
    }

    /// The position of a bay, if the snapshot has it.
    pub fn find_bay(&self, bay: &str) -> (r: Option<usize>)
        ensures
            match r {
                Some(i) => i < self@.len() && self@[i as int].0 == bay@ && forall|k: int|
                    0 <= k < i ==> self@[k].0 != bay@,
                None => !has_bay(self@, bay@),
            },
    {
        let mut i: usize = 0;
        while i < self.bay_windows.len()
            invariant
                i <= self.bay_windows.len(),
                self@.len() == self.bay_windows.len(),
                forall|k: int| 0 <= k < i ==> self@[k].0 != bay@,
            decreases self.bay_windows.len() - i,
        {
            if str_eq(self.bay_windows[i].bay.as_str(), bay) {
                return Some(i);
            }
            i = i + 1;
        }
        None
    }

    /// A copy of the windows of the first entry for a bay; none when the bay is absent.
    pub fn first_bay_windows(&self, bay: &str) -> (r: Vec<String>)
        ensures
            texts(r@) == first_windows(self@, bay@),
    {
        match self.find_bay(bay) {
            Some(i) => {
                proof { lemma_first_windows(self@, bay@, i as int); }
                copy_strings(&self.bay_windows[i].windows)
            },
            None => {
                proof { lemma_first_windows_absent(self@, bay@); }
                let r: Vec<String> = Vec::new();
                assert(texts(r@) =~= Seq::<Seq<char>>::empty());
                r
            },
        }
    }

    /// A copy of the windows of a bay; none when the bay is absent.
    pub fn windows(&self, bay: &str) -> (r: Vec<String>)
        requires
            unique_bays(self@),
        ensures
            texts(r@) == windows_of(self@, bay@),
    {
        match self.find_bay(bay) {
            Some(i) => {
                proof { assert(bay_index(self@, bay@) == i as int); }
                copy_strings(&self.bay_windows[i].windows)
            },
            None => {
                let r: Vec<String> = Vec::new();
                assert(texts(r@) =~= Seq::<Seq<char>>::empty());
                r
            },
        }
    }
}

impl BaySpec {
    pub fn copy(&self) -> (r: BaySpec)
        ensures
            r.name@ == self.name@,
            r.tool_names@ == self.tool_names@,
    {
        BaySpec { name: self.name.clone(), tool_names: copy_strings(&self.tool_names) }
    }
}

/// A copy of a list of bays.
pub fn copy_bays(bays: &Vec<BaySpec>) -> (r: Vec<BaySpec>)
    ensures
        bay_names(r@) == bay_names(bays@),
        bay_tools(r@) == bay_tools(bays@),
{
    let mut out: Vec<BaySpec> = Vec::new();
    let mut i: usize = 0;
    while i < bays.len()
        invariant
            i <= bays.len(),
            bay_names(out@) == bay_names(bays@.subrange(0, i as int)),
            bay_tools(out@) == bay_tools(bays@.subrange(0, i as int)),
        decreases bays.len() - i,
    {
        let ghost prev = out@;
        out.push(bays[i].copy());
        proof {
            let sub = bays@.subrange(0, i as int);
            assert(bays@.subrange(0, i + 1) =~= sub.push(bays@[i as int]));
            assert(bay_names(out@) =~= bay_names(prev).push(bays@[i as int].name@));
            assert(bay_names(sub.push(bays@[i as int])) =~= bay_names(sub).push(bays@[i as int].name@));
            assert(bay_tools(out@) =~= bay_tools(prev).push(texts(bays@[i as int].tool_names@)));
            assert(bay_tools(sub.push(bays@[i as int])) =~= bay_tools(sub).push(texts(bays@[i as int].tool_names@)));
        }
        i = i + 1;
    }
    assert(bays@.subrange(0, bays.len() as int) =~= bays@);
    out
}

/// Whether a definition of that name is among the declared tools.
pub open spec fn has_definition(defs: Seq<ToolDefinition>, name: Seq<char>) -> bool {
    exists|i: int| 0 <= i < defs.len() && defs[i].name@ == name
}

/// The position of the first definition of a tool.
pub fn find_definition(defs: &Vec<ToolDefinition>, name: &str) -> (r: Option<usize>)
    ensures
        match r {
            Some(i) => i < defs@.len() && defs@[i as int].name@ == name@,
            None => !has_definition(defs@, name@),
        },
{
    let mut i: usize = 0;
    while i < defs.len()
        invariant
            i <= defs.len(),
            forall|k: int| 0 <= k < i ==> defs@[k].name@ != name@,
        decreases defs.len() - i,
    {
        if str_eq(defs[i].name.as_str(), name) {
            return Some(i);
        }
        i = i + 1;
    }
    None
}

} // verus!
