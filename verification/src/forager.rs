//! What every forager plugin provides, and the output parsers of the
//! bundled foragers.
use vstd::prelude::*;

use crate::cargo_args::{lemma_ws_index, ws_index};
use crate::text::{
    append_str, chars_of, eq_str, is_whitespace, is_ws, lines, parse_u64, parse_unsigned, slice_of,
    split_lines, starts_with, starts_with_str, string_of, trim, trim_start, trimmed,
};

verus! {

/// Contract implemented by every forager binary.
pub trait Forager {
    /// Forager identifier as it appears in `experiment.toml`.
    const NAME: &'static str;
    /// One-line description shown in tool listings.
    const DESCRIPTION: &'static str;
    /// Markdown documenting the measurements this forager emits.
    const MEASUREMENTS_DOC: &'static str;
}


/// The line a forager prints when its run fails.
pub fn failure_message<F: Forager>(err: &str) -> (r: String)
    ensures
        r@ == "forager-"@ + F::NAME@ + ": "@ + err@,
{
    let mut m: Vec<char> = Vec::new();
    append_str(&mut m, "forager-");
    append_str(&mut m, F::NAME);
    append_str(&mut m, ": ");
    append_str(&mut m, err);
    string_of(&m)
}


// ── cargo llvm-lines ─────────────────────────────────────────────────────────

/// The first whitespace-separated field of `s`.
pub open spec fn first_field(s: Seq<char>) -> Seq<char> {
    let u = trim_start(s);
    u.subrange(0, ws_index(u))
}

/// `s` after its first whitespace-separated field.
pub open spec fn after_field(s: Seq<char>) -> Seq<char> {
    let u = trim_start(s);
    u.subrange(ws_index(u), u.len() as int)
}

/// A data row of the report, `<count> (<pct>%) <copies> (<pct>%) <name>`
/// with fields split on runs of whitespace: its line count (0 where the
/// first field is not a number) and the rest of the row after the fourth
/// field, trimmed (empty where there is none). Blank lines and the two
/// header lines are no rows.
pub open spec fn llvm_row(line: Seq<char>) -> Option<(nat, Seq<char>)> {
    let t = trim(line);
    if t.len() == 0 || starts_with(t, "Lines"@) || starts_with(t, "-----"@) {
        None
    } else {
        let count = match parse_unsigned(first_field(t), u64::MAX as nat) {
            Some(v) => v,
            None => 0,
        };
        Some((count, trim(after_field(after_field(after_field(after_field(t)))))))
    }
}


/// The total (from the last `(TOTAL)` row, 0 without one) and up to fifty
/// named rows, in report order.
pub open spec fn llvm_report(rows: Seq<Seq<char>>) -> (nat, Seq<(Seq<char>, nat)>)
    decreases rows.len(),
{
    if rows.len() == 0 {
        (0, Seq::empty())
    } else {
        let (total, detail) = llvm_report(rows.drop_last());
        match llvm_row(rows.last()) {
            None => (total, detail),
            Some((count, name)) => if name == "(TOTAL)"@ {
                (count, detail)
            } else if name.len() > 0 && detail.len() < 50 {
                (total, detail.push((name, count)))
            } else {
                (total, detail)
            },
        }
    }
}

pub proof fn lemma_ws_index_bounds(s: Seq<char>)
    ensures
        0 <= ws_index(s) <= s.len(),
    decreases s.len(),
{
    if s.len() > 0 && !is_ws(s[0]) {
        lemma_ws_index_bounds(s.drop_first());
    }
}

fn ws_position(v: &[char]) -> (r: usize)
    ensures
        r == ws_index(v@),
        r <= v@.len(),
{
    let mut i: usize = 0;
    while i < v.len() && !is_whitespace(v[i])
        invariant
            i <= v@.len(),
            forall|k: int| 0 <= k < i ==> !is_ws(v@[k]),
        decreases v.len() - i,
    {
        i = i + 1;
    }
    proof {
        lemma_ws_index(v@, i as int);
    }
    i
}

pub open spec fn views(v: Seq<Vec<char>>) -> Seq<Seq<char>> {
    v.map_values(|x: Vec<char>| x@)
}

/// `str::trim_start`.
fn trimmed_start(v: &[char]) -> (r: Vec<char>)
    ensures
        r@ == trim_start(v@),
{
    let n = v.len();
    let mut i: usize = 0;
    assert(v@.subrange(0, n as int) == v@);
    while i < n && is_whitespace(v[i])
        invariant
            n == v@.len(),
            i <= n,
            trim_start(v@) == trim_start(v@.subrange(i as int, n as int)),
        decreases n - i,
    {
        assert(v@.subrange(i as int, n as int).drop_first() == v@.subrange(i + 1, n as int));
        i = i + 1;
    }
    slice_of(v, i, n)
}

fn first_field_exec(v: &[char]) -> (r: Vec<char>)
    ensures
        r@ == first_field(v@),
{
    let u = trimmed_start(v);
    let i = ws_position(&u);
    slice_of(&u, 0, i)
}

fn after_field_exec(v: &[char]) -> (r: Vec<char>)
    ensures
        r@ == after_field(v@),
{
    let u = trimmed_start(v);
    let i = ws_position(&u);
    slice_of(&u, i, u.len())
}

fn llvm_row_exec(line: &[char]) -> (r: Option<(u64, Vec<char>)>)
    ensures
        r is None <==> llvm_row(line@) is None,
        r matches Some((c, name)) ==> llvm_row(line@) == Some((c as nat, name@)),
{
    let t = trimmed(line);
    if t.len() == 0 || starts_with_str(&t, "Lines") || starts_with_str(&t, "-----") {
        return None;
    }
    let count: u64 = match parse_u64(&first_field_exec(&t)) {
        Some(v) => v,
        None => 0,
    };
    let rest = after_field_exec(&after_field_exec(&after_field_exec(&after_field_exec(&t))));
    Some((count, trimmed(&rest)))
}


/// One named row of the report.
#[derive(Debug, Clone)]
pub struct LlvmLinesItem {
    pub name: String,
    pub lines: u64,
}

pub open spec fn item_view(x: LlvmLinesItem) -> (Seq<char>, nat) {
    (x.name@, x.lines as nat)
}

/// The total line count and the top rows of `cargo llvm-lines` output.
pub fn parse_llvm_lines_output(s: &str) -> (r: (u64, Vec<LlvmLinesItem>))
    ensures
        (r.0 as nat, r.1@.map_values(|x: LlvmLinesItem| item_view(x))) == llvm_report(lines(s@)),
{
    let v = chars_of(s);
    let ls = split_lines(&v);
    let ghost lv = views(ls@);
    let mut total: u64 = 0;
    let mut detail: Vec<LlvmLinesItem> = Vec::new();
    let mut i: usize = 0;
    while i < ls.len()
        invariant
            i <= ls@.len(),
            lv == views(ls@),
            lv == lines(s@),
            (total as nat, detail@.map_values(|x: LlvmLinesItem| item_view(x))) == llvm_report(
                lv.subrange(0, i as int),
            ),
        decreases ls.len() - i,
    {
        let ghost pre = lv.subrange(0, i + 1);
        assert(pre.drop_last() == lv.subrange(0, i as int));
        assert(pre.last() == ls@[i as int]@);
        let ghost before = detail@.map_values(|x: LlvmLinesItem| item_view(x));
        match llvm_row_exec(&ls[i]) {
            None => {},
            Some((count, name)) => {
                if eq_str(&name, "(TOTAL)") {
                    total = count;
                } else if name.len() > 0 && detail.len() < 50 {
                    detail.push(LlvmLinesItem { name: string_of(&name), lines: count });
                    assert(detail@.map_values(|x: LlvmLinesItem| item_view(x)) == before.push(
                        (name@, count as nat),
                    ));
                }
            },
        }
        i = i + 1;
    }
    assert(lv.subrange(0, lv.len() as int) == lv);
    (total, detail)
}


// ── Scenario runner ──────────────────────────────────────────────────────────

/// The forager a scenario step runs: the one it names, else `exec` for a
/// step with a `cmd` field; a step with neither is refused with the
/// message returned.
pub fn step_forager(step_name: &str, forager: Option<String>, has_cmd: bool) -> (r: Result<String, String>)
    ensures
        forager matches Some(f) ==> (r matches Ok(x) && x@ == f@),
        forager is None && has_cmd ==> (r matches Ok(x) && x@ == "exec"@),
        forager is None && !has_cmd ==> (r matches Err(m) && m@ == "step '"@ + step_name@
            + "' has no forager name and no cmd field"@),
{
    match forager {
        Some(f) => Ok(f),
        None => if has_cmd {
            Ok("exec".to_string())
        } else {
            let mut m: Vec<char> = Vec::new();
            append_str(&mut m, "step '");
            append_str(&mut m, step_name);
            append_str(&mut m, "' has no forager name and no cmd field");
            Err(string_of(&m))
        },
    }
}

/// The patch file a step applies when it exists: named after the step's
/// `diff` field, else after the step.
pub fn patch_file_name(step_name: &str, diff: Option<&str>) -> (r: String)
    ensures
        r@ == (match diff {
            Some(d) => d@,
            None => step_name@,
        }) + ".patch"@,
{
    let mut m: Vec<char> = Vec::new();
    match diff {
        Some(d) => append_str(&mut m, d),
        None => append_str(&mut m, step_name),
    }
    append_str(&mut m, ".patch");
    string_of(&m)
}

/// What a metadata query to git yields: its trimmed output when it
/// succeeded, else `fallback`.
pub fn git_output_or(succeeded: bool, stdout: &str, fallback: &str) -> (r: String)
    ensures
        r@ == (if succeeded {
            trim(stdout@)
        } else {
            fallback@
        }),
{
    if succeeded {
        string_of(&trimmed(&chars_of(stdout)))
    } else {
        fallback.to_string()
    }
}

} // verus!
