//! Where the store keeps its records: one file per bench, tool and snapshot under
//! a data directory, and one for the active bench.
use vstd::prelude::*;
use crate::text::{concat2, concat3};

verus! {

/// A name with each `/` and `\` replaced by `_`, so that it stays one file name.
pub open spec fn sanitized(name: Seq<char>) -> Seq<char> {
    Seq::new(name.len(), |i: int| if name[i] == '/' || name[i] == '\\' { '_' } else { name[i] })
}

/// Replaces each `/` and `\` of a name by `_`.
pub fn sanitize_name(value: &str) -> (r: String)
    ensures
        r@ == sanitized(value@),
{
    let n = value.unicode_len();
    let mut out = String::new();
    let mut i: usize = 0;
    while i < n
        invariant
            n == value@.len(),
            i <= n,
            out@ == sanitized(value@).subrange(0, i as int),
        decreases n - i,
    {
        let c = value.get_char(i);
        if c == '/' || c == '\\' {
            proof { reveal_strlit("_"); }
            out.append("_");
        } else {
            out.append(value.substring_char(i, i + 1));
        }
        assert(out@ =~= sanitized(value@).subrange(0, i + 1));
        i = i + 1;
    }
    assert(sanitized(value@).subrange(0, n as int) =~= sanitized(value@));
    out
}

/// The data directory: `$XDG_DATA_HOME/bench`, else `$HOME/.local/share/bench`;
/// none when neither is known.
pub fn data_dir(xdg_data_home: Option<&str>, home: Option<&str>) -> (r: Option<String>)
    ensures
        match (xdg_data_home, home) {
            (Some(x), _) => r matches Some(d) && d@ == x@ + "/bench"@,
            (None, Some(h)) => r matches Some(d) && d@ == h@ + "/.local/share"@ + "/bench"@,
            (None, None) => r is None,
        },
{
    match (xdg_data_home, home) {
        (Some(x), _) => Some(concat2(x, "/bench")),
        (None, Some(h)) => Some(concat3(h, "/.local/share", "/bench")),
        (None, None) => None,
    }
}

pub fn benches_dir(data_dir: &str) -> (r: String)
    ensures
        r@ == data_dir@ + "/benches"@,
{
    concat2(data_dir, "/benches")
}

pub fn tools_dir(data_dir: &str) -> (r: String)
    ensures
        r@ == data_dir@ + "/tools"@,
{
    concat2(data_dir, "/tools")
}

pub fn assembled_benches_dir(data_dir: &str) -> (r: String)
    ensures
        r@ == data_dir@ + "/assembled-benches"@,
{
    concat2(data_dir, "/assembled-benches")
}

pub fn assembled_tools_dir(data_dir: &str) -> (r: String)
    ensures
        r@ == data_dir@ + "/assembled-tools"@,
{
    concat2(data_dir, "/assembled-tools")
}

pub fn active_bench_path(data_dir: &str) -> (r: String)
    ensures
        r@ == data_dir@ + "/active-bench"@,
{
    concat2(data_dir, "/active-bench")
}

/// The file of a record: its directory, the sanitized name and the extension.
pub open spec fn record_file(dir: Seq<char>, name: Seq<char>, ext: Seq<char>) -> Seq<char> {
    dir + "/"@ + sanitized(name) + ext
}

fn record_path(dir: &str, name: &str, ext: &str) -> (r: String)
    ensures
        r@ == record_file(dir@, name@, ext@),
{
    let clean = sanitize_name(name);
    let mut p = concat3(dir, "/", clean.as_str());
    p.append(ext);
    p
}

pub fn bench_path(data_dir: &str, name: &str) -> (r: String)
    ensures
        r@ == record_file(data_dir@ + "/benches"@, name@, ".yml"@),
{
    let dir = benches_dir(data_dir);
    record_path(dir.as_str(), name, ".yml")
}

pub fn tool_path(data_dir: &str, name: &str) -> (r: String)
    ensures
        r@ == record_file(data_dir@ + "/tools"@, name@, ".yml"@),
{
    let dir = tools_dir(data_dir);
    record_path(dir.as_str(), name, ".yml")
}

pub fn assembled_bench_path(data_dir: &str, name: &str) -> (r: String)
    ensures
        r@ == record_file(data_dir@ + "/assembled-benches"@, name@, ".json"@),
{
    let dir = assembled_benches_dir(data_dir);
    record_path(dir.as_str(), name, ".json")
}

pub fn assembled_tool_path(data_dir: &str, name: &str) -> (r: String)
    ensures
        r@ == record_file(data_dir@ + "/assembled-tools"@, name@, ".json"@),
{
    let dir = assembled_tools_dir(data_dir);
    record_path(dir.as_str(), name, ".json")
}

} // verus!
