//! Standalone mode: baselines and bisections kept as files on a git data
//! branch, and the git tree plumbing that edits that branch.
use vstd::prelude::*;

use crate::text::{
    append_chars, append_str, chars_of, find_char, index_of, is_ws, is_whitespace,
    lemma_index_of, lemma_index_of_bounds, lines, slice_of, split_lines, string_of,
    strip_suffix, strip_suffix_str, terminated_line, trim, trimmed,
};

verus! {

/// What a standalone pass did for one experiment.
#[derive(Debug, Clone, Copy, PartialEq, Eq, Structural)]
pub enum Action {
    /// Nothing was done.
    NoAction,
    BaselineCreated,
    BaselineUpdated,
    RegressionDetected,
    BisectStep,
    CulpritFound,
}

// ── Tree entries ─────────────────────────────────────────────────────────────

/// One entry of a git tree (`<mode> <type> <sha>\t<name>`).
#[derive(Debug, Clone)]
pub struct TreeEntry {
    pub mode: String,
    pub kind: String,
    pub sha: String,
    pub name: String,
}

pub open spec fn entry_view(e: TreeEntry) -> (Seq<char>, Seq<char>, Seq<char>, Seq<char>) {
    (e.mode@, e.kind@, e.sha@, e.name@)
}

pub open spec fn entries_view(s: Seq<TreeEntry>) -> Seq<(Seq<char>, Seq<char>, Seq<char>, Seq<char>)> {
    s.map_values(|e: TreeEntry| entry_view(e))
}

/// The whitespace-separated words of `s`, with `cur` the word being read.
pub open spec fn words_from(s: Seq<char>, cur: Seq<char>) -> Seq<Seq<char>>
    decreases s.len(),
{
    if s.len() == 0 {
        if cur.len() > 0 {
            seq![cur]
        } else {
            Seq::empty()
        }
    } else if is_ws(s[0]) {
        (if cur.len() > 0 {
            seq![cur]
        } else {
            Seq::empty()
        }) + words_from(s.drop_first(), Seq::empty())
    } else {
        words_from(s.drop_first(), cur.push(s[0]))
    }
}

/// `str::split_whitespace`.
pub open spec fn words(s: Seq<char>) -> Seq<Seq<char>> {
    words_from(s, Seq::empty())
}

/// The entry a `git ls-tree` line describes: the part before the first tab
/// must be exactly three words (mode, type, sha); the rest is the name.
pub open spec fn ls_tree_entry(line: Seq<char>) -> Option<(Seq<char>, Seq<char>, Seq<char>, Seq<char>)> {
    let i = index_of(line, '\t');
    let (meta, name) = if i < line.len() {
        (line.subrange(0, i), line.subrange(i + 1, line.len() as int))
    } else {
        (Seq::<char>::empty(), Seq::<char>::empty())
    };
    let w = words(meta);
    if w.len() == 3 {
        Some((w[0], w[1], w[2], name))
    } else {
        None
    }
}

/// The entries of `git ls-tree` output, lines that do not parse skipped.
pub open spec fn ls_tree_entries(ls: Seq<Seq<char>>) -> Seq<(Seq<char>, Seq<char>, Seq<char>, Seq<char>)>
    decreases ls.len(),
{
    if ls.len() == 0 {
        Seq::empty()
    } else {
        ls_tree_entries(ls.drop_last()) + match ls_tree_entry(ls.last()) {
            Some(e) => seq![e],
            None => Seq::empty(),
        }
    }
}

/// `<mode> <type> <sha>\t<name>`.
pub open spec fn mktree_line(e: (Seq<char>, Seq<char>, Seq<char>, Seq<char>)) -> Seq<char> {
    e.0 + " "@ + e.1 + " "@ + e.2 + "\t"@ + e.3
}

/// The lines for `git mktree`, each followed by a newline.
pub open spec fn mktree_input(s: Seq<(Seq<char>, Seq<char>, Seq<char>, Seq<char>)>) -> Seq<char>
    decreases s.len(),
{
    if s.len() == 0 {
        Seq::empty()
    } else {
        mktree_input(s.drop_last()) + mktree_line(s.last()) + "\n"@
    }
}

/// The entries whose name is not `name`, in order.
pub open spec fn without_name(s: Seq<TreeEntry>, name: Seq<char>) -> Seq<TreeEntry>
    decreases s.len(),
{
    if s.len() == 0 {
        s
    } else if s.last().name@ == name {
        without_name(s.drop_last(), name)
    } else {
        without_name(s.drop_last(), name).push(s.last())
    }
}

fn words_of(s: &[char]) -> (r: Vec<Vec<char>>)
    ensures
        r@.map_values(|x: Vec<char>| x@) == words(s@),
{
    let n = s.len();
    let mut out: Vec<Vec<char>> = Vec::new();
    let mut cur: Vec<char> = Vec::new();
    let mut i: usize = 0;
    assert(s@.subrange(0, n as int) == s@);
    while i < n
        invariant
            n == s@.len(),
            i <= n,
            words(s@) == out@.map_values(|x: Vec<char>| x@) + words_from(
                s@.subrange(i as int, n as int),
                cur@,
            ),
        decreases n - i,
    {
        let ghost rest = s@.subrange(i as int, n as int);
        assert(rest.drop_first() == s@.subrange(i + 1, n as int));
        let ghost before = out@.map_values(|x: Vec<char>| x@);
        if is_whitespace(s[i]) {
            if cur.len() > 0 {
                let ghost c = cur@;
                out.push(cur);
                cur = Vec::new();
                assert(out@.map_values(|x: Vec<char>| x@) == before.push(c));
                assert(before + (seq![c] + words_from(rest.drop_first(), Seq::empty())) == before.push(c)
                    + words_from(rest.drop_first(), Seq::empty()));
            } else {
                assert(cur@ == Seq::<char>::empty());
                assert(Seq::<Seq<char>>::empty() + words_from(rest.drop_first(), Seq::empty())
                    == words_from(rest.drop_first(), Seq::empty()));
            }
        } else {
            cur.push(s[i]);
        }
        i = i + 1;
    }
    assert(s@.subrange(n as int, n as int) == Seq::<char>::empty());
    let ghost before = out@.map_values(|x: Vec<char>| x@);
    if cur.len() > 0 {
        let ghost c = cur@;
        out.push(cur);
        assert(out@.map_values(|x: Vec<char>| x@) == before.push(c));
    } else {
        assert(before + Seq::<Seq<char>>::empty() == before);
    }
    out
}

fn ls_tree_line(line: &[char]) -> (r: Option<TreeEntry>)
    ensures
        r is None <==> ls_tree_entry(line@) is None,
        r matches Some(e) ==> ls_tree_entry(line@) == Some(entry_view(e)),
{
    let i = find_char(line, '\t');
    proof {
        lemma_index_of_bounds(line@, '\t');
    }
    let (meta, name) = if i < line.len() {
        (slice_of(line, 0, i), slice_of(line, i + 1, line.len()))
    } else {
        (Vec::new(), Vec::new())
    };
    assert(meta@ == Seq::<char>::empty() || i < line@.len());
    let w = words_of(&meta);
    if w.len() == 3 {
        Some(
            TreeEntry {
                mode: string_of(&w[0]),
                kind: string_of(&w[1]),
                sha: string_of(&w[2]),
                name: string_of(&name),
            },
        )
    } else {
        None
    }
}

/// The entries listed by `git ls-tree` output; lines that are not of the
/// form `<mode> <type> <sha>\t<name>` are skipped.
pub fn parse_ls_tree(text: &str) -> (r: Vec<TreeEntry>)
    ensures
        entries_view(r@) == ls_tree_entries(lines(text@)),
{
    let v = chars_of(text);
    let ls = split_lines(&v);
    let ghost lv = ls@.map_values(|x: Vec<char>| x@);
    let mut out: Vec<TreeEntry> = Vec::new();
    let mut k: usize = 0;
    while k < ls.len()
        invariant
            k <= ls@.len(),
            lv == ls@.map_values(|x: Vec<char>| x@),
            lv == lines(text@),
            entries_view(out@) == ls_tree_entries(lv.subrange(0, k as int)),
        decreases ls.len() - k,
    {
        let ghost pre = lv.subrange(0, k + 1);
        assert(pre.drop_last() == lv.subrange(0, k as int));
        assert(pre.last() == ls@[k as int]@);
        let ghost before = entries_view(out@);
        match ls_tree_line(&ls[k]) {
            Some(e) => {
                out.push(e);
                assert(entries_view(out@) == before.push(entry_view(e)));
            },
            None => {
                assert(entries_view(out@) == before + Seq::<(Seq<char>, Seq<char>, Seq<char>, Seq<char>)>::empty());
            },
        }
        k = k + 1;
    }
    assert(lv.subrange(0, lv.len() as int) == lv);
    out
}

/// The input `git mktree` reads for `entries`: one line per entry, each
/// ended by a newline (nothing at all for an empty tree).
pub fn mktree_text(entries: &[TreeEntry]) -> (r: String)
    ensures
        r@ == mktree_input(entries_view(entries@)),
{
    let mut out: Vec<char> = Vec::new();
    let mut i: usize = 0;
    while i < entries.len()
        invariant
            i <= entries@.len(),
            out@ == mktree_input(entries_view(entries@.subrange(0, i as int))),
        decreases entries.len() - i,
    {
        let ghost pre = entries_view(entries@.subrange(0, i + 1));
        assert(pre.drop_last() == entries_view(entries@.subrange(0, i as int)));
        let e = &entries[i];
        append_str(&mut out, e.mode.as_str());
        append_str(&mut out, " ");
        append_str(&mut out, e.kind.as_str());
        append_str(&mut out, " ");
        append_str(&mut out, e.sha.as_str());
        append_str(&mut out, "\t");
        append_str(&mut out, e.name.as_str());
        append_str(&mut out, "\n");
        i = i + 1;
    }
    assert(entries@.subrange(0, entries@.len() as int) == entries@);
    string_of(&out)
}

fn same(a: &String, b: &str) -> (r: bool)
    ensures
        r == (a@ == b@),
{
    let av = chars_of(a.as_str());
    crate::text::eq_str(&av, b)
}

/// `entries` without those named `name` (`Vec::retain`).
pub fn remove_named(entries: Vec<TreeEntry>, name: &str) -> (r: Vec<TreeEntry>)
    ensures
        r@ == without_name(entries@, name@),
{
    let ghost orig = entries@;
    let ghost n = orig.len();
    let mut rest = entries;
    let mut out: Vec<TreeEntry> = Vec::new();
    let ghost mut done: int = 0;
    assert(orig.subrange(0, 0) == Seq::<TreeEntry>::empty());
    assert(orig.subrange(0, n as int) == orig);
    while rest.len() > 0
        invariant
            0 <= done <= n,
            n == orig.len(),
            rest@ == orig.subrange(done, n as int),
            out@ == without_name(orig.subrange(0, done), name@),
        decreases rest.len(),
    {
        let e = rest.remove(0);
        let ghost pre = orig.subrange(0, done + 1);
        assert(pre.drop_last() == orig.subrange(0, done));
        assert(pre.last() == e);
        if !same(&e.name, name) {
            out.push(e);
        }
        proof {
            done = done + 1;
        }
        assert(rest@ == orig.subrange(done, n as int));
    }
    out
}

/// `entries` with `name` (re)bound to a blob: any entry of that name is
/// dropped and the blob entry appended.
pub fn upsert_blob(entries: Vec<TreeEntry>, name: &str, sha: &str) -> (r: Vec<TreeEntry>)
    ensures
        entries_view(r@) == entries_view(without_name(entries@, name@)).push(
            ("100644"@, "blob"@, sha@, name@),
        ),
{
    let mut r = remove_named(entries, name);
    let e = TreeEntry {
        mode: "100644".to_owned(),
        kind: "blob".to_owned(),
        sha: sha.to_owned(),
        name: name.to_owned(),
    };
    let ghost before = r@;
    r.push(e);
    assert(entries_view(r@) == entries_view(before).push(entry_view(e)));
    r
}

/// `entries` with `name` (re)bound to a subtree.
pub fn upsert_tree(entries: Vec<TreeEntry>, name: &str, sha: &str) -> (r: Vec<TreeEntry>)
    ensures
        entries_view(r@) == entries_view(without_name(entries@, name@)).push(
            ("040000"@, "tree"@, sha@, name@),
        ),
{
    let mut r = remove_named(entries, name);
    let e = TreeEntry {
        mode: "040000".to_owned(),
        kind: "tree".to_owned(),
        sha: sha.to_owned(),
        name: name.to_owned(),
    };
    let ghost before = r@;
    r.push(e);
    assert(entries_view(r@) == entries_view(before).push(entry_view(e)));
    r
}

/// The subtree entry named `name`, if the tree has one.
pub fn find_subtree(entries: &[TreeEntry], name: &str) -> (r: Option<usize>)
    ensures
        r matches Some(i) ==> i < entries@.len() && entries@[i as int].name@ == name@
            && entries@[i as int].kind@ == "tree"@ && forall|k: int|
            0 <= k < i ==> !(entries@[k].name@ == name@ && entries@[k].kind@ == "tree"@),
        r is None ==> forall|k: int|
            0 <= k < entries@.len() ==> !(entries@[k].name@ == name@ && entries@[k].kind@
                == "tree"@),
{
    let mut i: usize = 0;
    while i < entries.len()
        invariant
            i <= entries@.len(),
            forall|k: int|
                0 <= k < i ==> !(entries@[k].name@ == name@ && entries@[k].kind@ == "tree"@),
        decreases entries.len() - i,
    {
        if same(&entries[i].name, name) && same(&entries[i].kind, "tree") {
            return Some(i);
        }
        i = i + 1;
    }
    None
}

// ── Paths ────────────────────────────────────────────────────────────────────

/// `str::split(c)`: every segment, empty ones included.
pub open spec fn split_on(s: Seq<char>, c: char) -> Seq<Seq<char>>
    decreases s.len(),
{
    let i = index_of(s, c);
    if i >= s.len() || i < 0 {
        seq![s]
    } else {
        seq![s.subrange(0, i)] + split_on(s.subrange(i + 1, s.len() as int), c)
    }
}

/// The `/`-separated components of a path on the data branch.
pub fn path_parts(path: &str) -> (r: Vec<String>)
    ensures
        r@.map_values(|x: String| x@) == split_on(path@, '/'),
{
    let v = chars_of(path);
    let n = v.len();
    let mut out: Vec<String> = Vec::new();
    let mut start: usize = 0;
    assert(v@.subrange(0, n as int) == v@);
    loop
        invariant
            n == v@.len(),
            v@ == path@,
            start <= n,
            split_on(v@, '/') == out@.map_values(|x: String| x@) + split_on(
                v@.subrange(start as int, n as int),
                '/',
            ),
        decreases n - start,
    {
        let ghost rest = v@.subrange(start as int, n as int);
        let mut i = start;
        while i < n && v[i] != '/'
            invariant
                start <= i <= n,
                n == v@.len(),
                forall|k: int| start <= k < i ==> v@[k] != '/',
            decreases n - i,
        {
            i = i + 1;
        }
        proof {
            lemma_index_of(rest, '/', i - start);
        }
        let seg = slice_of(&v, start, i);
        let ghost before = out@.map_values(|x: String| x@);
        out.push(string_of(&seg));
        assert(out@.map_values(|x: String| x@) == before.push(seg@));
        if i == n {
            assert(seg@ == rest);
            assert(index_of(rest, '/') == rest.len());
            assert(split_on(rest, '/') == seq![rest]);
            assert(before + seq![rest] == before.push(rest));
            assert(split_on(v@, '/') == before + split_on(rest, '/'));
            assert(split_on(v@, '/') == out@.map_values(|x: String| x@));
            assert(v@ == path@);
            return out;
        }
        assert(rest.subrange(0, i - start) == v@.subrange(start as int, i as int));
        assert(rest.subrange(i - start + 1, rest.len() as int) == v@.subrange(i + 1, n as int));
        start = i + 1;
    }
}

/// The experiments with an active bisection: the `.json` files of
/// `bisection/active`, without the extension.
pub open spec fn active_names(files: Seq<Seq<char>>) -> Seq<Seq<char>>
    decreases files.len(),
{
    if files.len() == 0 {
        Seq::empty()
    } else {
        active_names(files.drop_last()) + match strip_suffix(files.last(), ".json"@) {
            Some(n) => seq![n],
            None => Seq::empty(),
        }
    }
}

/// Experiment names of the files listed under `bisection/active`.
pub fn active_bisection_names(files: &[String]) -> (r: Vec<String>)
    ensures
        r@.map_values(|x: String| x@) == active_names(files@.map_values(|x: String| x@)),
{
    let ghost fv = files@.map_values(|x: String| x@);
    let mut out: Vec<String> = Vec::new();
    let mut i: usize = 0;
    while i < files.len()
        invariant
            i <= files@.len(),
            fv == files@.map_values(|x: String| x@),
            out@.map_values(|x: String| x@) == active_names(fv.subrange(0, i as int)),
        decreases files.len() - i,
    {
        let ghost pre = fv.subrange(0, i + 1);
        assert(pre.drop_last() == fv.subrange(0, i as int));
        let f = chars_of(files[i].as_str());
        let ghost before = out@.map_values(|x: String| x@);
        match strip_suffix_str(&f, ".json") {
            Some(nm) => {
                out.push(string_of(&nm));
                assert(out@.map_values(|x: String| x@) == before.push(nm@));
            },
            None => {
                assert(before + Seq::<Seq<char>>::empty() == before);
            },
        }
        i = i + 1;
    }
    assert(fv.subrange(0, fv.len() as int) == fv);
    out
}

/// The baseline commit recorded in a `baselines/<experiment>/HEAD` file:
/// its trimmed contents, when not empty.
pub fn baseline_head(contents: &str) -> (r: Option<String>)
    ensures
        trim(contents@).len() == 0 ==> r is None,
        trim(contents@).len() > 0 ==> (r matches Some(s) && s@ == trim(contents@)),
{
    let v = chars_of(contents);
    let t = trimmed(&v);
    if t.len() == 0 {
        None
    } else {
        Some(string_of(&t))
    }
}

/// Whether the HEAD file (if any) already names `sha`.
pub fn head_is_current(head_contents: Option<&str>, sha: &str) -> (r: bool)
    ensures
        r == match head_contents {
            Some(c) => trim(c@) == sha@,
            None => false,
        },
{
    match head_contents {
        Some(c) => {
            let v = chars_of(c);
            let t = trimmed(&v);
            crate::text::eq_str(&t, sha)
        },
        None => false,
    }
}

pub open spec fn baseline_file(experiment: Seq<char>, sha: Seq<char>) -> Seq<char> {
    "baselines/"@ + experiment + "/"@ + sha + ".json"@
}

pub open spec fn baseline_head_file(experiment: Seq<char>) -> Seq<char> {
    "baselines/"@ + experiment + "/HEAD"@
}

pub open spec fn active_bisection_file(experiment: Seq<char>) -> Seq<char> {
    "bisection/active/"@ + experiment + ".json"@
}

/// `baselines/<experiment>/<sha>.json`.
pub fn baseline_path(experiment: &str, sha: &str) -> (r: String)
    ensures
        r@ == baseline_file(experiment@, sha@),
{
    let mut m: Vec<char> = Vec::new();
    append_str(&mut m, "baselines/");
    append_str(&mut m, experiment);
    append_str(&mut m, "/");
    append_str(&mut m, sha);
    append_str(&mut m, ".json");
    string_of(&m)
}

/// `baselines/<experiment>/HEAD`.
pub fn baseline_head_path(experiment: &str) -> (r: String)
    ensures
        r@ == baseline_head_file(experiment@),
{
    let mut m: Vec<char> = Vec::new();
    append_str(&mut m, "baselines/");
    append_str(&mut m, experiment);
    append_str(&mut m, "/HEAD");
    string_of(&m)
}

/// `bisection/active/<experiment>.json`.
pub fn active_bisection_path(experiment: &str) -> (r: String)
    ensures
        r@ == active_bisection_file(experiment@),
{
    let mut m: Vec<char> = Vec::new();
    append_str(&mut m, "bisection/active/");
    append_str(&mut m, experiment);
    append_str(&mut m, ".json");
    string_of(&m)
}

/// `s` with every `c` replaced by `r`.
pub open spec fn replace_all(s: Seq<char>, c: char, r: char) -> Seq<char> {
    s.map_values(|x: char| if x == c { r } else { x })
}

/// `bisection/completed/<experiment>-<timestamp>.json`, with the `:` of
/// the timestamp turned into `-`.
pub fn completed_bisection_path(experiment: &str, timestamp: &str) -> (r: String)
    ensures
        r@ == "bisection/completed/"@ + experiment@ + "-"@ + replace_all(timestamp@, ':', '-')
            + ".json"@,
{
    let mut m: Vec<char> = Vec::new();
    append_str(&mut m, "bisection/completed/");
    append_str(&mut m, experiment);
    append_str(&mut m, "-");
    let ts = chars_of(timestamp);
    let mut t: Vec<char> = Vec::new();
    let mut i: usize = 0;
    while i < ts.len()
        invariant
            i <= ts@.len(),
            t@ == replace_all(ts@.subrange(0, i as int), ':', '-'),
        decreases ts.len() - i,
    {
        t.push(if ts[i] == ':' { '-' } else { ts[i] });
        assert(replace_all(ts@.subrange(0, i + 1), ':', '-') == replace_all(
            ts@.subrange(0, i as int),
            ':',
            '-',
        ).push(if ts@[i as int] == ':' { '-' } else { ts@[i as int] }));
        i = i + 1;
    }
    assert(ts@.subrange(0, ts@.len() as int) == ts@);
    append_chars(&mut m, &t);
    append_str(&mut m, ".json");
    string_of(&m)
}

// ── Bisection ────────────────────────────────────────────────────────────────

/// The next move of a bisection over the commits `good..bad` (oldest
/// first, `bad` last).
#[derive(Debug, Clone, Copy, PartialEq, Eq, Structural)]
pub enum BisectPlan {
    /// At most one commit is left: `bad` is the culprit.
    Culprit,
    /// Measure the commit at this index.
    Test { index: usize },
}

/// Culprit when at most one commit is in range, else test the midpoint.
pub fn plan_bisection(commit_count: usize) -> (p: BisectPlan)
    ensures
        commit_count <= 1 ==> p == BisectPlan::Culprit,
        commit_count > 1 ==> p == (BisectPlan::Test { index: commit_count / 2 }),
{
    if commit_count <= 1 {
        BisectPlan::Culprit
    } else {
        BisectPlan::Test { index: commit_count / 2 }
    }
}

/// The narrowed range after measuring `midpoint`: a regressed midpoint
/// becomes the new bad end, a fine one the new good end.
pub fn narrow(good: String, bad: String, midpoint: String, regressed: bool) -> (r: (String, String))
    ensures
        regressed ==> r == (good, midpoint),
        !regressed ==> r == (midpoint, bad),
{
    if regressed {
        (good, midpoint)
    } else {
        (midpoint, bad)
    }
}

/// The commits of the narrowed range, given the commits `c` of the current
/// one: up to and including the midpoint when it regressed, after it
/// otherwise.
pub open spec fn narrowed<T>(c: Seq<T>, regressed: bool) -> Seq<T> {
    let m = (c.len() / 2) as int;
    if regressed {
        c.subrange(0, m + 1)
    } else {
        c.subrange(m + 1, c.len() as int)
    }
}

/// A bisection step narrows the range strictly and never empties it, so a
/// bisection reaches its culprit in finitely many steps; the midpoint
/// closes the narrowed range when it regressed. (With two commits left the
/// midpoint is `bad` itself: a regressed midpoint leaves the range as it
/// was, a fine one empties it.)
pub proof fn law_bisection_narrows<T>(c: Seq<T>, regressed: bool)
    requires
        c.len() > 2,
    ensures
        1 <= narrowed(c, regressed).len() < c.len(),
        regressed ==> narrowed(c, regressed).last() == c[(c.len() / 2) as int],
        !regressed ==> narrowed(c, regressed).last() == c.last(),
{
    let m = (c.len() / 2) as int;
    assert(0 <= m < c.len() && (c.len() > 2 ==> m < c.len() - 1)) by (nonlinear_arith)
        requires
            c.len() > 1,
            m == (c.len() / 2) as int,
    ;
    if regressed {
        assert(narrowed(c, regressed) == c.subrange(0, m + 1));
        assert(narrowed(c, regressed).len() == m + 1);
    } else {
        assert(narrowed(c, regressed) == c.subrange(m + 1, c.len() as int));
        assert(narrowed(c, regressed).len() == c.len() - m - 1);
    }
}


// ── Tree edits ───────────────────────────────────────────────────────────────

/// Dropping the entries named `name` removes exactly those: none of that
/// name is left, every entry of another name stays, and nothing new
/// appears. So (re)binding a name (`upsert_blob`, `upsert_tree`) leaves the
/// new entry as the only one of that name.
pub proof fn law_without_name_removes_exactly(es: Seq<TreeEntry>, name: Seq<char>)
    ensures
        forall|k: int| 0 <= k < without_name(es, name).len() ==> (#[trigger] without_name(es, name)[k]).name@ != name,
        forall|e: TreeEntry| es.contains(e) && e.name@ != name ==> without_name(es, name).contains(e),
        forall|e: TreeEntry| without_name(es, name).contains(e) ==> es.contains(e),
    decreases es.len(),
{
    if es.len() > 0 {
        let init = es.drop_last();
        law_without_name_removes_exactly(init, name);
        let w0 = without_name(init, name);
        let w = without_name(es, name);
        assert forall|e: TreeEntry| es.contains(e) && e.name@ != name implies w.contains(e) by {
            let i = choose|i: int| 0 <= i < es.len() && es[i] == e;
            if i < es.len() - 1 {
                assert(init[i] == e);
                assert(init.contains(e));
                let j = choose|j: int| 0 <= j < w0.len() && w0[j] == e;
                if es.last().name@ != name {
                    assert(w == w0.push(es.last()));
                    assert(w[j] == e);
                }
            } else {
                assert(w == w0.push(es.last()));
                assert(w[w.len() - 1] == e);
            }
        }
        assert forall|e: TreeEntry| w.contains(e) implies es.contains(e) by {
            let j = choose|j: int| 0 <= j < w.len() && w[j] == e;
            if es.last().name@ != name && j == w.len() - 1 {
                assert(es[es.len() - 1] == e);
            } else {
                if es.last().name@ != name {
                    assert(w == w0.push(es.last()));
                    assert(w0[j] == e);
                }
                assert(w0.contains(e));
                assert(init.contains(e));
                let i = choose|i: int| 0 <= i < init.len() && init[i] == e;
                assert(init[i] == es[i]);
                assert(es[i] == e);
            }
        }
        assert forall|k: int| 0 <= k < w.len() implies (#[trigger] w[k]).name@ != name by {
            if es.last().name@ != name {
                assert(w == w0.push(es.last()));
                if k < w0.len() {
                    assert(w[k] == w0[k]);
                }
            }
        }
    }
}


// ── Reading back a written tree ──────────────────────────────────────────────

/// A non-empty run of non-whitespace characters.
pub open spec fn is_word(w: Seq<char>) -> bool {
    w.len() > 0 && forall|i: int| 0 <= i < w.len() ==> !is_ws(#[trigger] w[i])
}

/// An entry that `git mktree` input can carry and `git ls-tree` output
/// gives back: mode, type and object id are single words, and the name
/// holds no line break and does not end in a carriage return.
pub open spec fn entry_round_trips(e: (Seq<char>, Seq<char>, Seq<char>, Seq<char>)) -> bool {
    &&& is_word(e.0)
    &&& is_word(e.1)
    &&& is_word(e.2)
    &&& forall|i: int| 0 <= i < e.3.len() ==> #[trigger] e.3[i] != '\n'
    &&& !(e.3.len() > 0 && e.3.last() == '\r')
}

proof fn lemma_words_skip_word(a: Seq<char>, s: Seq<char>, cur: Seq<char>)
    requires
        forall|i: int| 0 <= i < a.len() ==> !is_ws(#[trigger] a[i]),
    ensures
        words_from(a + s, cur) == words_from(s, cur + a),
    decreases a.len(),
{
    if a.len() == 0 {
        assert(a + s == s);
        assert(cur + a == cur);
    } else {
        assert((a + s)[0] == a[0]);
        assert((a + s).drop_first() == a.drop_first() + s);
        assert(!is_ws(a[0]));
        lemma_words_skip_word(a.drop_first(), s, cur.push(a[0]));
        assert(cur.push(a[0]) + a.drop_first() == cur + a);
    }
}

proof fn lemma_words_of_meta(m: Seq<char>, k: Seq<char>, h: Seq<char>)
    requires
        is_word(m),
        is_word(k),
        is_word(h),
    ensures
        words(m + " "@ + k + " "@ + h) == seq![m, k, h],
{
    let sp: Seq<char> = " "@;
    assert(sp == seq![' ']) by {
        reveal_strlit(" ");
    }
    assert(is_ws(' '));
    let e = Seq::<char>::empty();
    let rest1 = sp + k + sp + h;
    assert(m + sp + k + sp + h == m + rest1);
    lemma_words_skip_word(m, rest1, e);
    assert(e + m == m);
    assert(rest1[0] == ' ');
    let rest2 = k + sp + h;
    assert(rest1.drop_first() == rest2);
    assert(words_from(rest1, m) == seq![m] + words_from(rest2, e));
    lemma_words_skip_word(k, sp + h, e);
    assert(rest2 == k + (sp + h));
    assert(e + k == k);
    assert((sp + h)[0] == ' ');
    assert((sp + h).drop_first() == h);
    assert(words_from(sp + h, k) == seq![k] + words_from(h, e));
    lemma_words_skip_word(h, e, e);
    assert(h + e == h);
    assert(e + h == h);
    assert(words_from(e, h) == seq![h]);
    assert(seq![m] + (seq![k] + seq![h]) == seq![m, k, h]);
}

proof fn lemma_entry_reads_back(e: (Seq<char>, Seq<char>, Seq<char>, Seq<char>))
    requires
        entry_round_trips(e),
    ensures
        ls_tree_entry(mktree_line(e)) == Some(e),
{
    let sp: Seq<char> = " "@;
    let tab: Seq<char> = "\t"@;
    assert(sp == seq![' ']) by {
        reveal_strlit(" ");
    }
    assert(tab == seq!['\t']) by {
        reveal_strlit("\t");
    }
    let meta = e.0 + sp + e.1 + sp + e.2;
    let line = mktree_line(e);
    assert(line == meta + tab + e.3);
    assert forall|k: int| 0 <= k < meta.len() implies line[k] != '\t' by {
        assert(line[k] == meta[k]);
        assert(is_ws('\t'));
        if k < e.0.len() {
            assert(meta[k] == e.0[k]);
            assert(!is_ws(e.0[k]));
        } else if k == e.0.len() {
            assert(meta[k] == ' ');
        } else if k < e.0.len() + 1 + e.1.len() {
            assert(meta[k] == e.1[k - e.0.len() - 1]);
            assert(!is_ws(e.1[k - e.0.len() - 1]));
        } else if k == e.0.len() + 1 + e.1.len() {
            assert(meta[k] == ' ');
        } else {
            assert(meta[k] == e.2[k - e.0.len() - 2 - e.1.len()]);
            assert(!is_ws(e.2[k - e.0.len() - 2 - e.1.len()]));
        }
    }
    assert(line[meta.len() as int] == '\t');
    lemma_index_of(line, '\t', meta.len() as int);
    assert(line.subrange(0, meta.len() as int) == meta);
    assert(line.subrange(meta.len() as int + 1, line.len() as int) == e.3);
    lemma_words_of_meta(e.0, e.1, e.2);
}

proof fn lemma_lines_cons(x: Seq<char>, rest: Seq<char>)
    requires
        forall|i: int| 0 <= i < x.len() ==> #[trigger] x[i] != '\n',
    ensures
        lines(x + "\n"@ + rest) == seq![terminated_line(x)] + lines(rest),
{
    let nl: Seq<char> = "\n"@;
    assert(nl == seq!['\n']) by {
        reveal_strlit("\n");
    }
    let s = x + nl + rest;
    assert forall|k: int| 0 <= k < x.len() implies s[k] != '\n' by {
        assert(s[k] == x[k]);
    }
    assert(s[x.len() as int] == '\n');
    lemma_index_of(s, '\n', x.len() as int);
    assert(s.subrange(0, x.len() as int) == x);
    assert(s.subrange(x.len() as int + 1, s.len() as int) == rest);
}

proof fn lemma_mktree_input_front(es: Seq<(Seq<char>, Seq<char>, Seq<char>, Seq<char>)>)
    requires
        es.len() > 0,
    ensures
        mktree_input(es) == mktree_line(es[0]) + "\n"@ + mktree_input(es.drop_first()),
    decreases es.len(),
{
    if es.len() == 1 {
        assert(es.drop_last() == Seq::<(Seq<char>, Seq<char>, Seq<char>, Seq<char>)>::empty());
        assert(es.drop_first() == Seq::<(Seq<char>, Seq<char>, Seq<char>, Seq<char>)>::empty());
        assert(mktree_input(es.drop_last()) == Seq::<char>::empty());
        assert(mktree_input(es) == mktree_input(es.drop_last()) + mktree_line(es.last()) + "\n"@);
        assert(Seq::<char>::empty() + mktree_line(es.last()) == mktree_line(es.last()));
        assert(mktree_line(es[0]) + "\n"@ + Seq::<char>::empty() == mktree_line(es[0]) + "\n"@);
    } else {
        let init = es.drop_last();
        lemma_mktree_input_front(init);
        assert(init.drop_first() == es.drop_first().drop_last());
        assert(init[0] == es[0]);
        assert(es.drop_first().last() == es.last());
        assert(mktree_input(es.drop_first()) == mktree_input(init.drop_first()) + mktree_line(es.last()) + "\n"@);
        assert(mktree_input(es) == mktree_input(init) + mktree_line(es.last()) + "\n"@);
        assert(mktree_line(es[0]) + "\n"@ + mktree_input(init.drop_first()) + mktree_line(es.last()) + "\n"@
            == mktree_line(es[0]) + "\n"@ + (mktree_input(init.drop_first()) + mktree_line(es.last()) + "\n"@));
    }
}

proof fn lemma_lines_of_mktree(es: Seq<(Seq<char>, Seq<char>, Seq<char>, Seq<char>)>)
    requires
        forall|i: int| 0 <= i < es.len() ==> entry_round_trips(#[trigger] es[i]),
    ensures
        lines(mktree_input(es)) == es.map_values(|e: (Seq<char>, Seq<char>, Seq<char>, Seq<char>)| mktree_line(e)),
    decreases es.len(),
{
    if es.len() == 0 {
        assert(lines(Seq::<char>::empty()) == Seq::<Seq<char>>::empty());
    } else {
        let e = es[0];
        assert(entry_round_trips(e));
        let l = mktree_line(e);
        let sp: Seq<char> = " "@;
        let tab: Seq<char> = "\t"@;
        assert(sp == seq![' ']) by {
            reveal_strlit(" ");
        }
        assert(tab == seq!['\t']) by {
            reveal_strlit("\t");
        }
        assert forall|i: int| 0 <= i < l.len() implies #[trigger] l[i] != '\n' by {
            let a = e.0.len();
            let b = e.1.len();
            let c = e.2.len();
            assert(is_ws('\n'));
            if i < a {
                assert(l[i] == e.0[i]);
                assert(!is_ws(e.0[i]));
            } else if i == a {
                assert(l[i] == ' ');
            } else if i < a + 1 + b {
                assert(l[i] == e.1[i - a - 1]);
                assert(!is_ws(e.1[i - a - 1]));
            } else if i == a + 1 + b {
                assert(l[i] == ' ');
            } else if i < a + 2 + b + c {
                assert(l[i] == e.2[i - a - 2 - b]);
                assert(!is_ws(e.2[i - a - 2 - b]));
            } else if i == a + 2 + b + c {
                assert(l[i] == '\t');
            } else {
                assert(l[i] == e.3[i - a - 3 - b - c]);
            }
        }
        assert(terminated_line(l) == l) by {
            if e.3.len() > 0 {
                assert(l.last() == e.3.last());
            } else {
                assert(l.last() == '\t');
            }
        }
        lemma_mktree_input_front(es);
        lemma_lines_cons(l, mktree_input(es.drop_first()));
        assert forall|i: int| 0 <= i < es.drop_first().len() implies entry_round_trips(#[trigger] es.drop_first()[i]) by {
            assert(es.drop_first()[i] == es[i + 1]);
        }
        lemma_lines_of_mktree(es.drop_first());
        assert(es.map_values(|e: (Seq<char>, Seq<char>, Seq<char>, Seq<char>)| mktree_line(e)) == seq![l]
            + es.drop_first().map_values(|e: (Seq<char>, Seq<char>, Seq<char>, Seq<char>)| mktree_line(e)));
    }
}

proof fn lemma_entries_of_lines(es: Seq<(Seq<char>, Seq<char>, Seq<char>, Seq<char>)>)
    requires
        forall|i: int| 0 <= i < es.len() ==> entry_round_trips(#[trigger] es[i]),
    ensures
        ls_tree_entries(es.map_values(|e: (Seq<char>, Seq<char>, Seq<char>, Seq<char>)| mktree_line(e))) == es,
    decreases es.len(),
{
    if es.len() > 0 {
        let ls = es.map_values(|e: (Seq<char>, Seq<char>, Seq<char>, Seq<char>)| mktree_line(e));
        assert(ls.drop_last() == es.drop_last().map_values(
            |e: (Seq<char>, Seq<char>, Seq<char>, Seq<char>)| mktree_line(e),
        ));
        assert forall|i: int| 0 <= i < es.drop_last().len() implies entry_round_trips(#[trigger] es.drop_last()[i]) by {
            assert(es.drop_last()[i] == es[i]);
        }
        lemma_entries_of_lines(es.drop_last());
        assert(entry_round_trips(es[es.len() - 1]));
        lemma_entry_reads_back(es.last());
        assert(ls.last() == mktree_line(es.last()));
        assert(es.drop_last().push(es.last()) == es);
    }
}

/// What the data branch code writes with `git mktree` it reads back with
/// `git ls-tree`: parsing the listing of a tree written from `entries`
/// gives those entries, in order, when each one can be written at all.
pub proof fn law_tree_listing_reads_back(es: Seq<(Seq<char>, Seq<char>, Seq<char>, Seq<char>)>)
    requires
        forall|i: int| 0 <= i < es.len() ==> entry_round_trips(#[trigger] es[i]),
    ensures
        ls_tree_entries(lines(mktree_input(es))) == es,
{
    lemma_lines_of_mktree(es);
    lemma_entries_of_lines(es);
}

} // verus!
