//! The server side: database rows, API responses, and how rows are put
//! together into responses.
use vstd::prelude::*;

use crate::text::{append_str, chars_of, chars_eq, eq_str, string_of, trim};

verus! {

// ── Rows ─────────────────────────────────────────────────────────────────────

#[derive(Debug, Clone)]
pub struct Project {
    pub id: i64,
    pub name: String,
    pub upstream: String,
}

#[derive(Debug, Clone)]
pub struct User {
    pub username: String,
}

#[derive(Debug, Clone)]
pub struct Scenario {
    pub id: i64,
    pub name: String,
    pub profile: String,
    pub pinned: bool,
    pub platform: Option<String>,
}

#[derive(Debug, Clone)]
pub struct Run {
    pub id: i64,
    pub scenario_id: i64,
    pub user: String,
    pub platform: String,
    pub timestamp: String,
    pub commit_short: String,
    pub build_time_ms: i64,
}

#[derive(Debug, Clone)]
pub struct DirtyCrate {
    pub run_id: i64,
    pub crate_name: String,
}

#[derive(Debug, Clone)]
pub struct Commit {
    pub id: i64,
    pub sha: String,
    pub short_sha: String,
    pub author: String,
    pub message: String,
    pub timestamp: String,
    pub status: String,
}

#[derive(Debug, Clone)]
pub struct ForagerToken {
    pub id: i64,
    pub commit_id: i64,
    pub scenario_name: String,
    pub token: String,
}

#[derive(Debug, Clone)]
pub struct GraphNodeRow {
    pub name: String,
    pub version: String,
    pub external: bool,
}

#[derive(Debug, Clone)]
pub struct GraphEdgeRow {
    pub source_name: String,
    pub dep_name: String,
    pub kind: String,
}

#[derive(Debug, Clone)]
pub struct IdRow {
    pub id: i64,
}

#[derive(Debug, Clone)]
pub struct IdNameRow {
    pub id: i64,
    pub name: String,
}

#[derive(Debug, Clone)]
pub struct LatestCommit {
    pub short_sha: String,
    pub status: String,
}

/// The signed-in GitHub user.
#[derive(Debug, Clone)]
pub struct AuthUser {
    pub login: String,
}

/// The query of the OAuth callback.
#[derive(Debug, Clone)]
pub struct CallbackQuery {
    pub code: String,
    pub state: String,
}

// ── Responses ────────────────────────────────────────────────────────────────

#[derive(Debug)]
pub struct RunJson {
    pub user: String,
    pub platform: String,
    pub timestamp: String,
    pub commit: String,
    pub build_time_ms: i64,
    pub dirty_crates: Vec<String>,
}

#[derive(Debug)]
pub struct GraphNodeJson {
    pub name: String,
    pub version: String,
    pub deps: Vec<String>,
    pub build_deps: Vec<String>,
    pub dev_deps: Vec<String>,
    pub external: bool,
}

#[derive(Debug)]
pub struct ScenarioJson {
    pub id: i64,
    pub name: String,
    pub profile: String,
    pub pinned: bool,
    pub platform: Option<String>,
    pub runs: Vec<RunJson>,
    pub graph: Option<Vec<GraphNodeJson>>,
}

#[derive(Debug)]
pub struct OverviewJson {
    pub scenario_count: i64,
    pub tracked_count: i64,
    pub latest_commit_short_sha: Option<String>,
    pub latest_commit_status: Option<String>,
}

#[derive(Debug, Clone)]
pub struct GithubCommitJson {
    pub sha: String,
    pub short_sha: String,
    pub author: String,
    pub message: String,
    pub timestamp: String,
    pub html_url: String,
}

pub open spec fn strs(v: Seq<String>) -> Seq<Seq<char>> {
    v.map_values(|s: String| s@)
}

// ── Dependency graph ─────────────────────────────────────────────────────────

/// Which dependency list an edge kind belongs to: 1 for `build`, 2 for
/// `dev`, 0 (normal) for anything else.
pub open spec fn kind_class(kind: Seq<char>) -> int {
    if kind == "build"@ {
        1
    } else if kind == "dev"@ {
        2
    } else {
        0
    }
}

/// Targets of the edges out of `src` in list `class`, in edge order.
pub open spec fn deps_of(edges: Seq<GraphEdgeRow>, src: Seq<char>, class: int) -> Seq<Seq<char>>
    decreases edges.len(),
{
    if edges.len() == 0 {
        Seq::empty()
    } else {
        let e = edges.last();
        deps_of(edges.drop_last(), src, class) + (if e.source_name@ == src && kind_class(e.kind@)
            == class {
            seq![e.dep_name@]
        } else {
            Seq::empty()
        })
    }
}

/// An earlier node has the same name.
pub open spec fn repeats_name(nodes: Seq<GraphNodeRow>, i: int) -> bool {
    exists|k: int| 0 <= k < i && #[trigger] nodes[k].name@ == nodes[i].name@
}

/// The response node for `nodes[i]`: its dependency lists (empty for a
/// node whose name an earlier node already took).
pub open spec fn node_json_ok(nodes: Seq<GraphNodeRow>, edges: Seq<GraphEdgeRow>, i: int, j: GraphNodeJson) -> bool {
    let n = nodes[i];
    let taken = repeats_name(nodes, i);
    &&& j.name@ == n.name@
    &&& j.version@ == n.version@
    &&& j.external == n.external
    &&& strs(j.deps@) == (if taken { Seq::empty() } else { deps_of(edges, n.name@, 0) })
    &&& strs(j.build_deps@) == (if taken { Seq::empty() } else { deps_of(edges, n.name@, 1) })
    &&& strs(j.dev_deps@) == (if taken { Seq::empty() } else { deps_of(edges, n.name@, 2) })
}

fn same(a: &String, b: &String) -> (r: bool)
    ensures
        r == (a@ == b@),
{
    let av = chars_of(a.as_str());
    let bv = chars_of(b.as_str());
    chars_eq(&av, &bv)
}

fn kind_class_of(kind: &String) -> (c: u8)
    ensures
        c as int == kind_class(kind@),
{
    let k = chars_of(kind.as_str());
    if eq_str(&k, "build") {
        1
    } else if eq_str(&k, "dev") {
        2
    } else {
        0
    }
}

fn collect_deps(edges: &[GraphEdgeRow], src: &String, class: u8) -> (r: Vec<String>)
    ensures
        strs(r@) == deps_of(edges@, src@, class as int),
{
    let mut r: Vec<String> = Vec::new();
    let mut k: usize = 0;
    while k < edges.len()
        invariant
            k <= edges@.len(),
            strs(r@) == deps_of(edges@.subrange(0, k as int), src@, class as int),
        decreases edges.len() - k,
    {
        let ghost pre = edges@.subrange(0, k + 1);
        assert(pre.drop_last() == edges@.subrange(0, k as int));
        let e = &edges[k];
        let ghost before = strs(r@);
        if same(&e.source_name, src) && kind_class_of(&e.kind) == class {
            r.push(e.dep_name.clone());
            assert(strs(r@) == before.push(e.dep_name@));
        } else {
            assert(before + Seq::<Seq<char>>::empty() == before);
        }
        k = k + 1;
    }
    assert(edges@.subrange(0, edges@.len() as int) == edges@);
    r
}

/// The dependency graph of a scenario from its node rows (in order) and
/// edge rows: each node lists the targets of its edges by kind.
pub fn assemble_graph(nodes: &[GraphNodeRow], edges: &[GraphEdgeRow]) -> (r: Vec<GraphNodeJson>)
    ensures
        r@.len() == nodes@.len(),
        forall|i: int| 0 <= i < nodes@.len() ==> node_json_ok(nodes@, edges@, i, #[trigger] r@[i]),
{
    let mut out: Vec<GraphNodeJson> = Vec::new();
    let mut i: usize = 0;
    while i < nodes.len()
        invariant
            i <= nodes@.len(),
            out@.len() == i,
            forall|k: int| 0 <= k < i ==> node_json_ok(nodes@, edges@, k, #[trigger] out@[k]),
        decreases nodes.len() - i,
    {
        let n = &nodes[i];
        let mut taken = false;
        let mut k: usize = 0;
        while k < i
            invariant
                k <= i < nodes@.len(),
                *n == nodes@[i as int],
                taken == exists|m: int| 0 <= m < k && #[trigger] nodes@[m].name@ == nodes@[i as int].name@,
            decreases i - k,
        {
            if same(&nodes[k].name, &n.name) {
                taken = true;
                assert(nodes@[k as int].name@ == nodes@[i as int].name@);
            } else {
                assert(forall|m: int| 0 <= m < k + 1 && #[trigger] nodes@[m].name@ == nodes@[i as int].name@ ==> 0 <= m < k);
            }
            k = k + 1;
        }
        let (deps, build_deps, dev_deps) = if taken {
            (Vec::new(), Vec::new(), Vec::new())
        } else {
            (collect_deps(edges, &n.name, 0), collect_deps(edges, &n.name, 1), collect_deps(edges, &n.name, 2))
        };
        proof {
            if taken {
                assert(strs(deps@) == Seq::<Seq<char>>::empty());
                assert(strs(build_deps@) == Seq::<Seq<char>>::empty());
                assert(strs(dev_deps@) == Seq::<Seq<char>>::empty());
            }
        }
        out.push(GraphNodeJson {
            name: n.name.clone(),
            version: n.version.clone(),
            deps,
            build_deps,
            dev_deps,
            external: n.external,
        });
        i = i + 1;
    }
    out
}

// ── Runs ─────────────────────────────────────────────────────────────────────

/// Crates recorded as dirty for the run `run_id`, in row order.
pub open spec fn dirty_of(dirty: Seq<DirtyCrate>, run_id: i64) -> Seq<Seq<char>>
    decreases dirty.len(),
{
    if dirty.len() == 0 {
        Seq::empty()
    } else {
        dirty_of(dirty.drop_last(), run_id) + (if dirty.last().run_id == run_id {
            seq![dirty.last().crate_name@]
        } else {
            Seq::empty()
        })
    }
}

pub open spec fn run_repeats_id(runs: Seq<Run>, i: int) -> bool {
    exists|k: int| 0 <= k < i && #[trigger] runs[k].id == runs[i].id
}

/// The response run for `runs[i]`; its dirty crates go to the first run
/// with that id only.
pub open spec fn run_json_ok(runs: Seq<Run>, dirty: Seq<DirtyCrate>, i: int, j: RunJson) -> bool {
    let r = runs[i];
    &&& j.user@ == r.user@
    &&& j.platform@ == r.platform@
    &&& j.timestamp@ == r.timestamp@
    &&& j.commit@ == r.commit_short@
    &&& j.build_time_ms == r.build_time_ms
    &&& strs(j.dirty_crates@) == (if run_repeats_id(runs, i) {
        Seq::empty()
    } else {
        dirty_of(dirty, r.id)
    })
}

fn dirty_for(dirty: &[DirtyCrate], run_id: i64) -> (r: Vec<String>)
    ensures
        strs(r@) == dirty_of(dirty@, run_id),
{
    let mut r: Vec<String> = Vec::new();
    let mut k: usize = 0;
    while k < dirty.len()
        invariant
            k <= dirty@.len(),
            strs(r@) == dirty_of(dirty@.subrange(0, k as int), run_id),
        decreases dirty.len() - k,
    {
        let ghost pre = dirty@.subrange(0, k + 1);
        assert(pre.drop_last() == dirty@.subrange(0, k as int));
        let ghost before = strs(r@);
        if dirty[k].run_id == run_id {
            r.push(dirty[k].crate_name.clone());
            assert(strs(r@) == before.push(dirty@[k as int].crate_name@));
        } else {
            assert(before + Seq::<Seq<char>>::empty() == before);
        }
        k = k + 1;
    }
    assert(dirty@.subrange(0, dirty@.len() as int) == dirty@);
    r
}

/// The runs of a response with their dirty crates attached.
pub fn runs_to_json(runs: &[Run], dirty: &[DirtyCrate]) -> (r: Vec<RunJson>)
    ensures
        r@.len() == runs@.len(),
        forall|i: int| 0 <= i < runs@.len() ==> run_json_ok(runs@, dirty@, i, #[trigger] r@[i]),
{
    let mut out: Vec<RunJson> = Vec::new();
    let mut i: usize = 0;
    while i < runs.len()
        invariant
            i <= runs@.len(),
            out@.len() == i,
            forall|k: int| 0 <= k < i ==> run_json_ok(runs@, dirty@, k, #[trigger] out@[k]),
        decreases runs.len() - i,
    {
        let r = &runs[i];
        let mut taken = false;
        let mut k: usize = 0;
        while k < i
            invariant
                k <= i < runs@.len(),
                *r == runs@[i as int],
                taken == exists|m: int| 0 <= m < k && #[trigger] runs@[m].id == runs@[i as int].id,
            decreases i - k,
        {
            if runs[k].id == r.id {
                taken = true;
                assert(runs@[k as int].id == runs@[i as int].id);
            } else {
                assert(forall|m: int| 0 <= m < k + 1 && #[trigger] runs@[m].id == runs@[i as int].id ==> 0 <= m < k);
            }
            k = k + 1;
        }
        let crates = if taken {
            Vec::new()
        } else {
            dirty_for(dirty, r.id)
        };
        proof {
            if taken {
                assert(strs(crates@) == Seq::<Seq<char>>::empty());
            }
        }
        out.push(RunJson {
            user: r.user.clone(),
            platform: r.platform.clone(),
            timestamp: r.timestamp.clone(),
            commit: r.commit_short.clone(),
            build_time_ms: r.build_time_ms,
            dirty_crates: crates,
        });
        i = i + 1;
    }
    out
}

// ── Benchmarks ───────────────────────────────────────────────────────────────

/// Words joined by single spaces.
pub open spec fn space_joined(ws: Seq<Seq<char>>) -> Seq<char>
    decreases ws.len(),
{
    if ws.len() == 0 {
        Seq::empty()
    } else if ws.len() == 1 {
        ws[0]
    } else {
        space_joined(ws.drop_last()) + " "@ + ws.last()
    }
}

/// The name an ingested build is tracked under: `<tool> <command>`, then
/// the targeted packages, if any, separated by spaces.
pub open spec fn spec_benchmark_name(tool: Seq<char>, command: Seq<char>, packages: Seq<Seq<char>>) -> Seq<char> {
    if packages.len() == 0 {
        tool + " "@ + command
    } else {
        tool + " "@ + command + " "@ + space_joined(packages)
    }
}

/// The scenario name of an ingested build event.
pub fn benchmark_name(tool: &str, command: &str, packages: &[String]) -> (r: String)
    ensures
        r@ == spec_benchmark_name(tool@, command@, strs(packages@)),
{
    let mut m: Vec<char> = Vec::new();
    append_str(&mut m, tool);
    append_str(&mut m, " ");
    append_str(&mut m, command);
    let ghost head = m@;
    if packages.len() == 0 {
        return string_of(&m);
    }
    append_str(&mut m, " ");
    let ghost base = m@;
    let mut i: usize = 0;
    while i < packages.len()
        invariant
            i <= packages@.len(),
            packages@.len() > 0,
            m@ == base + space_joined(strs(packages@).subrange(0, i as int)),
        decreases packages.len() - i,
    {
        let ghost pre = strs(packages@).subrange(0, i + 1);
        assert(pre.drop_last() == strs(packages@).subrange(0, i as int));
        if i > 0 {
            append_str(&mut m, " ");
        }
        append_str(&mut m, packages[i].as_str());
        proof {
            if i == 0 {
                assert(space_joined(pre) == pre[0]);
            }
        }
        i = i + 1;
    }
    assert(strs(packages@).subrange(0, packages@.len() as int) == strs(packages@));
    string_of(&m)
}

// ── Forager claims ───────────────────────────────────────────────────────────

/// A forager's request for a job.
#[derive(Debug, Clone)]
pub struct ForagerClaimBody {
    pub project_upstream: String,
    pub commit_sha: String,
    pub benchmark_name: String,
    /// Commit metadata for when the GitHub API is not available.
    pub commit_author: Option<String>,
    pub commit_message: Option<String>,
    pub commit_timestamp: Option<String>,
}

/// What the server records for an accepted claim.
#[derive(Debug)]
pub struct ClaimPlan {
    pub upstream: String,
    pub project_name: String,
    pub sha: String,
    pub short_sha: String,
    pub benchmark_name: String,
    /// Used when the commit is not known yet.
    pub author: String,
    pub message: String,
    pub timestamp: String,
}

/// A claim is accepted when upstream, commit and benchmark name are
/// non-empty once trimmed; the values are then used trimmed, the project
/// is named after the upstream's last path segment, the commit's short SHA
/// is its first seven characters, and missing commit metadata defaults to
/// author `unknown` and empty message and timestamp.
pub fn plan_claim(body: ForagerClaimBody) -> (r: Option<ClaimPlan>)
    ensures
        r is Some <==> (trim(body.project_upstream@).len() > 0 && trim(body.commit_sha@).len() > 0
            && trim(body.benchmark_name@).len() > 0),
        r matches Some(p) ==> {
            &&& p.upstream@ == trim(body.project_upstream@)
            &&& p.project_name@ == crate::upstream::after_last(trim(body.project_upstream@), '/')
            &&& p.sha@ == trim(body.commit_sha@)
            &&& p.short_sha@ == crate::upstream::spec_short_sha(trim(body.commit_sha@))
            &&& p.benchmark_name@ == trim(body.benchmark_name@)
            &&& p.author@ == or_str(body.commit_author, "unknown"@)
            &&& p.message@ == or_str(body.commit_message, Seq::empty())
            &&& p.timestamp@ == or_str(body.commit_timestamp, Seq::empty())
        },
{
    let u = crate::text::trimmed(&chars_of(body.project_upstream.as_str()));
    let s = crate::text::trimmed(&chars_of(body.commit_sha.as_str()));
    let b = crate::text::trimmed(&chars_of(body.benchmark_name.as_str()));
    if u.len() == 0 || s.len() == 0 || b.len() == 0 {
        return None;
    }
    let upstream = string_of(&u);
    let sha = string_of(&s);
    let project_name = crate::upstream::project_name_from_upstream(upstream.as_str());
    let short_sha = crate::upstream::short_sha(sha.as_str());
    proof {
        reveal_strlit("");
    }
    Some(ClaimPlan {
        upstream,
        project_name,
        sha,
        short_sha,
        benchmark_name: string_of(&b),
        author: or_string(body.commit_author, "unknown"),
        message: or_string(body.commit_message, ""),
        timestamp: or_string(body.commit_timestamp, ""),
    })
}

// ── Ingesting a build event's graph ──────────────────────────────────────────

/// One entry of the dependency graph a build event carries. Dependency
/// lists hold the names given as strings, in order.
#[derive(Debug, Clone)]
pub struct GraphEntry {
    pub name: Option<String>,
    pub version: Option<String>,
    pub external: Option<bool>,
    pub deps: Vec<String>,
    pub build_deps: Vec<String>,
    pub dev_deps: Vec<String>,
}

/// An edge to insert: source and target node ids and the dependency kind.
#[derive(Debug, Clone)]
pub struct GraphEdgeInsert {
    pub source_id: i64,
    pub target_id: i64,
    pub kind: String,
}

/// The node rows to insert: one per entry that has a name, with an empty
/// version and `external = false` where the entry gives none.
pub open spec fn node_inserts(entries: Seq<GraphEntry>) -> Seq<(Seq<char>, Seq<char>, bool)>
    decreases entries.len(),
{
    if entries.len() == 0 {
        Seq::empty()
    } else {
        let e = entries.last();
        node_inserts(entries.drop_last()) + match e.name {
            Some(n) => seq![
                (
                    n@,
                    match e.version {
                        Some(v) => v@,
                        None => Seq::empty(),
                    },
                    match e.external {
                        Some(x) => x,
                        None => false,
                    },
                ),
            ],
            None => Seq::empty(),
        }
    }
}

pub open spec fn node_row_view(r: GraphNodeRow) -> (Seq<char>, Seq<char>, bool) {
    (r.name@, r.version@, r.external)
}

/// The id the inserted rows give `name`: that of the last row with that
/// name, as collecting the rows into a map keeps.
pub open spec fn id_of(rows: Seq<IdNameRow>, name: Seq<char>) -> Option<i64>
    decreases rows.len(),
{
    if rows.len() == 0 {
        None
    } else if rows.last().name@ == name {
        Some(rows.last().id)
    } else {
        id_of(rows.drop_last(), name)
    }
}

pub open spec fn edge_view(e: GraphEdgeInsert) -> (i64, i64, Seq<char>) {
    (e.source_id, e.target_id, e.kind@)
}

/// Edges from `src` to each dependency that names an inserted node, in
/// list order.
pub open spec fn dep_edges(rows: Seq<IdNameRow>, src: i64, deps: Seq<Seq<char>>, kind: Seq<char>) -> Seq<(i64, i64, Seq<char>)>
    decreases deps.len(),
{
    if deps.len() == 0 {
        Seq::empty()
    } else {
        dep_edges(rows, src, deps.drop_last(), kind) + match id_of(rows, deps.last()) {
            Some(t) => seq![(src, t, kind)],
            None => Seq::empty(),
        }
    }
}

/// The edges one entry contributes: normal, then build, then dev
/// dependencies; none where the entry's own name has no inserted node.
pub open spec fn entry_edges(rows: Seq<IdNameRow>, e: GraphEntry) -> Seq<(i64, i64, Seq<char>)> {
    match e.name {
        Some(n) => match id_of(rows, n@) {
            Some(src) => dep_edges(rows, src, strs(e.deps@), "normal"@) + dep_edges(
                rows,
                src,
                strs(e.build_deps@),
                "build"@,
            ) + dep_edges(rows, src, strs(e.dev_deps@), "dev"@),
            None => Seq::empty(),
        },
        None => Seq::empty(),
    }
}

pub open spec fn graph_edges(rows: Seq<IdNameRow>, entries: Seq<GraphEntry>) -> Seq<(i64, i64, Seq<char>)>
    decreases entries.len(),
{
    if entries.len() == 0 {
        Seq::empty()
    } else {
        graph_edges(rows, entries.drop_last()) + entry_edges(rows, entries.last())
    }
}

/// The node rows to insert for a build event's graph.
pub fn graph_node_inserts(entries: &[GraphEntry]) -> (r: Vec<GraphNodeRow>)
    ensures
        r@.map_values(|n: GraphNodeRow| node_row_view(n)) == node_inserts(entries@),
{
    let mut out: Vec<GraphNodeRow> = Vec::new();
    let mut i: usize = 0;
    while i < entries.len()
        invariant
            i <= entries@.len(),
            out@.map_values(|n: GraphNodeRow| node_row_view(n)) == node_inserts(entries@.subrange(0, i as int)),
        decreases entries.len() - i,
    {
        let ghost pre = entries@.subrange(0, i + 1);
        assert(pre.drop_last() == entries@.subrange(0, i as int));
        let ghost before = out@.map_values(|n: GraphNodeRow| node_row_view(n));
        let e = &entries[i];
        match &e.name {
            Some(n) => {
                let version = match &e.version {
                    Some(v) => v.clone(),
                    None => String::new(),
                };
                let external = match e.external {
                    Some(x) => x,
                    None => false,
                };
                out.push(GraphNodeRow { name: n.clone(), version, external });
                assert(out@.map_values(|n: GraphNodeRow| node_row_view(n)) == before.push(
                    node_row_view(out@.last()),
                ));
            },
            None => {
                assert(before + Seq::<(Seq<char>, Seq<char>, bool)>::empty() == before);
            },
        }
        i = i + 1;
    }
    assert(entries@.subrange(0, entries@.len() as int) == entries@);
    out
}

fn lookup_id(rows: &[IdNameRow], name: &String) -> (r: Option<i64>)
    ensures
        r == id_of(rows@, name@),
{
    let mut k: usize = rows.len();
    assert(rows@.subrange(0, k as int) == rows@);
    while k > 0
        invariant
            k <= rows@.len(),
            id_of(rows@, name@) == id_of(rows@.subrange(0, k as int), name@),
        decreases k,
    {
        let ghost pre = rows@.subrange(0, k as int);
        assert(pre.drop_last() == rows@.subrange(0, k - 1));
        if same(&rows[k - 1].name, name) {
            return Some(rows[k - 1].id);
        }
        k = k - 1;
    }
    None
}

fn push_dep_edges(out: &mut Vec<GraphEdgeInsert>, rows: &[IdNameRow], src: i64, deps: &Vec<String>, kind: &str)
    ensures
        final(out)@.map_values(|e: GraphEdgeInsert| edge_view(e)) == old(out)@.map_values(
            |e: GraphEdgeInsert| edge_view(e),
        ) + dep_edges(rows@, src, strs(deps@), kind@),
{
    let ghost start = old(out)@.map_values(|e: GraphEdgeInsert| edge_view(e));
    let mut i: usize = 0;
    assert(strs(deps@).subrange(0, 0) == Seq::<Seq<char>>::empty());
    assert(start + Seq::<(i64, i64, Seq<char>)>::empty() == start);
    while i < deps.len()
        invariant
            i <= deps@.len(),
            start == old(out)@.map_values(|e: GraphEdgeInsert| edge_view(e)),
            out@.map_values(|e: GraphEdgeInsert| edge_view(e)) == start + dep_edges(
                rows@,
                src,
                strs(deps@).subrange(0, i as int),
                kind@,
            ),
        decreases deps.len() - i,
    {
        let ghost pre = strs(deps@).subrange(0, i + 1);
        assert(pre.drop_last() == strs(deps@).subrange(0, i as int));
        let ghost before = out@.map_values(|e: GraphEdgeInsert| edge_view(e));
        let ghost tail = dep_edges(rows@, src, strs(deps@).subrange(0, i as int), kind@);
        match lookup_id(rows, &deps[i]) {
            Some(t) => {
                out.push(GraphEdgeInsert { source_id: src, target_id: t, kind: kind.to_string() });
                assert(out@.map_values(|e: GraphEdgeInsert| edge_view(e)) == before.push(
                    (src, t, kind@),
                ));
                assert(start + tail + seq![(src, t, kind@)] == start + (tail + seq![(src, t, kind@)]));
            },
            None => {
                assert(tail + Seq::<(i64, i64, Seq<char>)>::empty() == tail);
            },
        }
        i = i + 1;
    }
    assert(strs(deps@).subrange(0, deps@.len() as int) == strs(deps@));
}

/// The edge rows to insert for a build event's graph, given the rows the
/// node insert returned.
pub fn graph_edge_inserts(entries: &[GraphEntry], rows: &[IdNameRow]) -> (r: Vec<GraphEdgeInsert>)
    ensures
        r@.map_values(|e: GraphEdgeInsert| edge_view(e)) == graph_edges(rows@, entries@),
{
    let mut out: Vec<GraphEdgeInsert> = Vec::new();
    let mut i: usize = 0;
    while i < entries.len()
        invariant
            i <= entries@.len(),
            out@.map_values(|e: GraphEdgeInsert| edge_view(e)) == graph_edges(rows@, entries@.subrange(0, i as int)),
        decreases entries.len() - i,
    {
        let ghost pre = entries@.subrange(0, i + 1);
        assert(pre.drop_last() == entries@.subrange(0, i as int));
        let ghost before = out@.map_values(|e: GraphEdgeInsert| edge_view(e));
        let e = &entries[i];
        match &e.name {
            Some(n) => match lookup_id(rows, n) {
                Some(src) => {
                    push_dep_edges(&mut out, rows, src, &e.deps, "normal");
                    push_dep_edges(&mut out, rows, src, &e.build_deps, "build");
                    push_dep_edges(&mut out, rows, src, &e.dev_deps, "dev");
                    proof {
                        reveal_strlit("normal");
                        reveal_strlit("build");
                        reveal_strlit("dev");
                    }
                    assert(out@.map_values(|e: GraphEdgeInsert| edge_view(e)) == before + entry_edges(
                        rows@,
                        entries@[i as int],
                    ));
                },
                None => {
                    assert(before + Seq::<(i64, i64, Seq<char>)>::empty() == before);
                },
            },
            None => {
                assert(before + Seq::<(i64, i64, Seq<char>)>::empty() == before);
            },
        }
        i = i + 1;
    }
    assert(entries@.subrange(0, entries@.len() as int) == entries@);
    out
}


// ── Ingesting build events ───────────────────────────────────────────────────

/// The fields of an ingested build event that the server reads; `None`
/// where the event lacks the field or holds a value of another type.
#[derive(Debug, Clone)]
pub struct IngestEvent {
    pub upstream: Option<String>,
    pub user: Option<String>,
    pub timestamp: Option<String>,
    pub duration_ms: Option<u64>,
    pub platform: Option<String>,
    pub commit: Option<String>,
    pub pheromone: Option<IngestPheromone>,
}

/// The build data a pheromone attached to an event.
#[derive(Debug, Clone)]
pub struct IngestPheromone {
    pub tool: Option<String>,
    pub command: Option<String>,
    pub profile: Option<String>,
    pub packages: Vec<String>,
    pub platform: Option<String>,
    pub graph: Option<Vec<GraphEntry>>,
    pub dirty_crates: Vec<String>,
}

/// What the server stores for one event, defaults filled in.
#[derive(Debug)]
pub struct IngestRecord {
    pub upstream: String,
    pub project_name: String,
    pub user: String,
    /// Present when the event carries pheromone data, which is what
    /// records a run.
    pub run: Option<IngestRun>,
}

#[derive(Debug)]
pub struct IngestRun {
    pub scenario_name: String,
    pub profile: String,
    pub scenario_platform: Option<String>,
    pub run_platform: String,
    pub timestamp: String,
    pub commit_short: String,
    pub build_time_ms: i64,
    pub graph: Option<Vec<GraphEntry>>,
    pub dirty_crates: Vec<String>,
}

pub open spec fn or_str(v: Option<String>, d: Seq<char>) -> Seq<char> {
    match v {
        Some(s) => s@,
        None => d,
    }
}

pub open spec fn opt_view(v: Option<String>) -> Option<Seq<char>> {
    match v {
        Some(s) => Some(s@),
        None => None,
    }
}

/// The run an event's pheromone data records.
pub open spec fn run_ok(e: IngestEvent, p: IngestPheromone, r: IngestRun) -> bool {
    &&& r.scenario_name@ == spec_benchmark_name(
        or_str(p.tool, "unknown"@),
        or_str(p.command, "build"@),
        strs(p.packages@),
    )
    &&& r.profile@ == or_str(p.profile, "dev"@)
    &&& opt_view(r.scenario_platform) == opt_view(p.platform)
    &&& r.run_platform@ == or_str(e.platform, Seq::empty())
    &&& r.timestamp@ == or_str(e.timestamp, Seq::empty())
    &&& r.commit_short@ == or_str(e.commit, Seq::empty())
    &&& r.build_time_ms == (match e.duration_ms {
        Some(d) => d as i64,
        None => 0i64,
    })
    &&& r.graph == p.graph
    &&& strs(r.dirty_crates@) == strs(p.dirty_crates@)
}

fn or_string(v: Option<String>, d: &str) -> (r: String)
    ensures
        r@ == or_str(v, d@),
{
    match v {
        Some(s) => s,
        None => d.to_string(),
    }
}

/// What the server stores for a build event: nothing for an event without
/// an upstream; otherwise the project (named after the upstream's last
/// path segment), the user (`unknown` by default), and, when pheromone data
/// is attached, the run with its scenario (`<tool> <command> [packages]`,
/// tool `unknown`, command `build` and profile `dev` by default).
pub fn ingest_record(e: IngestEvent) -> (r: Option<IngestRecord>)
    ensures
        e.upstream is None <==> r is None,
        r matches Some(rec) ==> {
            &&& rec.upstream@ == e.upstream->0@
            &&& rec.project_name@ == crate::upstream::after_last(e.upstream->0@, '/')
            &&& rec.user@ == or_str(e.user, "unknown"@)
            &&& (e.pheromone is None <==> rec.run is None)
            &&& (rec.run matches Some(run) ==> run_ok(e, e.pheromone->0, run))
        },
{
    let ghost e0 = e;
    let IngestEvent { upstream, user, timestamp, duration_ms, platform, commit, pheromone } = e;
    let upstream = match upstream {
        Some(u) => u,
        None => return None,
    };
    let project_name = crate::upstream::project_name_from_upstream(upstream.as_str());
    let user = or_string(user, "unknown");
    let run = match pheromone {
        None => None,
        Some(p) => {
            let ghost p0 = p;
            let IngestPheromone { tool, command, profile, packages, platform: sp, graph, dirty_crates } = p;
            let tool = or_string(tool, "unknown");
            let command = or_string(command, "build");
            let scenario_name = benchmark_name(tool.as_str(), command.as_str(), &packages);
            let profile = or_string(profile, "dev");
            let build_time_ms: i64 = match duration_ms {
                Some(d) => #[verifier::truncate] (d as i64),
                None => 0,
            };
            let run = IngestRun {
                scenario_name,
                profile,
                scenario_platform: sp,
                run_platform: or_string(platform, ""),
                timestamp: or_string(timestamp, ""),
                commit_short: or_string(commit, ""),
                build_time_ms,
                graph,
                dirty_crates,
            };
            proof {
                reveal_strlit("");
            }
            assert(run.scenario_name@ == spec_benchmark_name(or_str(p0.tool, "unknown"@), or_str(p0.command, "build"@), strs(p0.packages@)));
            assert(run.profile@ == or_str(p0.profile, "dev"@));
            assert(opt_view(run.scenario_platform) == opt_view(p0.platform));
            assert(run.run_platform@ == or_str(e0.platform, Seq::empty()));
            assert(run.build_time_ms == (match e0.duration_ms { Some(d) => d as i64, None => 0i64 }));
            assert(run.graph == p0.graph);
            assert(run.timestamp@ == or_str(e0.timestamp, Seq::empty()));
            assert(run.commit_short@ == or_str(e0.commit, Seq::empty()));
            assert(strs(run.dirty_crates@) == strs(p0.dirty_crates@));
            assert(run_ok(e0, p0, run));
            Some(run)
        },
    };
    Some(IngestRecord { upstream, project_name, user, run })
}


// ── Benchmark pull requests ──────────────────────────────────────────────────

/// The refusals of a benchmark pull request before any GitHub call: an
/// unknown project is 404, an upstream that names no GitHub repository 400,
/// a missing or blank `GITHUB_TOKEN` 503; otherwise the repository's owner
/// and name, and the trimmed token.
pub fn plan_benchmark_pr(project_upstream: Option<&str>, token: Option<String>) -> (r: Result<(String, String, String), u16>)
    ensures
        project_upstream is None ==> r == Err::<(String, String, String), u16>(404),
        project_upstream matches Some(u) ==> match crate::upstream::spec_github_owner_repo(u@) {
            None => r == Err::<(String, String, String), u16>(400),
            Some((owner, repo)) => if token is None || trim(token->0@).len() == 0 {
                r == Err::<(String, String, String), u16>(503)
            } else {
                r matches Ok((o, n, t)) && o@ == owner && n@ == repo && t@ == trim(token->0@)
            },
        },
{
    let upstream = match project_upstream {
        None => return Err(404),
        Some(u) => u,
    };
    let (owner, repo) = match crate::upstream::github_owner_repo(upstream) {
        None => return Err(400),
        Some(p) => p,
    };
    match nonempty_trimmed(token) {
        None => Err(503),
        Some(t) => Ok((owner, repo, t)),
    }
}

/// An optional value (a GitHub token from the environment, a commit SHA
/// to schedule) counts when it is non-empty once trimmed; it is used
/// trimmed.
pub fn nonempty_trimmed(raw: Option<String>) -> (r: Option<String>)
    ensures
        r is Some <==> (raw is Some && trim(raw->0@).len() > 0),
        r matches Some(t) ==> t@ == trim(raw->0@),
{
    match raw {
        None => None,
        Some(t) => {
            let v = crate::text::trimmed(&chars_of(t.as_str()));
            if v.len() == 0 {
                None
            } else {
                Some(string_of(&v))
            }
        },
    }
}

/// The repository's default branch, `main` where GitHub gives none.
pub fn default_branch_or_main(reported: Option<String>) -> (r: String)
    ensures
        r@ == or_str(reported, "main"@),
{
    or_string(reported, "main")
}

/// Title of the commit and pull request that add a benchmark.
pub fn benchmark_pr_title(benchmark: &str) -> (r: String)
    ensures
        r@ == "wezel: add "@ + benchmark@ + " benchmark"@,
{
    let mut m: Vec<char> = Vec::new();
    append_str(&mut m, "wezel: add ");
    append_str(&mut m, benchmark);
    append_str(&mut m, " benchmark");
    string_of(&m)
}

/// Branch that carries a new benchmark: `wezel/benchmark-<name>-<secs>`.
pub fn benchmark_pr_branch(benchmark: &str, unix_secs: u64) -> (r: String)
    ensures
        r@ == "wezel/benchmark-"@ + benchmark@ + "-"@ + crate::text::decimal(unix_secs as nat),
{
    let mut m: Vec<char> = Vec::new();
    append_str(&mut m, "wezel/benchmark-");
    append_str(&mut m, benchmark);
    append_str(&mut m, "-");
    let d = crate::text::u64_digits(unix_secs);
    crate::text::append_chars(&mut m, &d);
    string_of(&m)
}

/// The full ref name of a branch.
pub fn heads_ref(branch: &str) -> (r: String)
    ensures
        r@ == "refs/heads/"@ + branch@,
{
    let mut m: Vec<char> = Vec::new();
    append_str(&mut m, "refs/heads/");
    append_str(&mut m, branch);
    string_of(&m)
}

/// A GitHub REST endpoint of a repository: `.../repos/<owner>/<repo><rest>`.
pub fn repo_api_url(owner: &str, repo: &str, rest: &str) -> (r: String)
    ensures
        r@ == "https://api.github.com/repos/"@ + owner@ + "/"@ + repo@ + rest@,
{
    let mut m: Vec<char> = Vec::new();
    append_str(&mut m, "https://api.github.com/repos/");
    append_str(&mut m, owner);
    append_str(&mut m, "/");
    append_str(&mut m, repo);
    append_str(&mut m, rest);
    string_of(&m)
}


// ── Scenario and overview responses ──────────────────────────────────────────

/// A scenario with its runs; the graph is left out when not asked for or
/// when it has no node.
pub fn scenario_json(s: Scenario, runs: Vec<RunJson>, graph: Option<Vec<GraphNodeJson>>) -> (r: ScenarioJson)
    ensures
        r.id == s.id,
        r.name@ == s.name@,
        r.profile@ == s.profile@,
        r.pinned == s.pinned,
        opt_view(r.platform) == opt_view(s.platform),
        r.runs@ == runs@,
        r.graph is Some <==> (graph is Some && graph->0@.len() > 0),
        r.graph matches Some(g) ==> g@ == graph->0@,
{
    let graph = match graph {
        Some(g) => if g.len() == 0 {
            None
        } else {
            Some(g)
        },
        None => None,
    };
    ScenarioJson {
        id: s.id,
        name: s.name,
        profile: s.profile,
        pinned: s.pinned,
        platform: s.platform,
        runs,
        graph,
    }
}

/// The overview counts with the latest commit, when there is one.
pub fn overview_json(scenario_count: i64, tracked_count: i64, latest: Option<LatestCommit>) -> (r: OverviewJson)
    ensures
        r.scenario_count == scenario_count,
        r.tracked_count == tracked_count,
        r.latest_commit_short_sha is Some <==> latest is Some,
        r.latest_commit_status is Some <==> latest is Some,
        latest matches Some(l) ==> r.latest_commit_short_sha->0@ == l.short_sha@
            && r.latest_commit_status->0@ == l.status@,
{
    match latest {
        Some(l) => OverviewJson {
            scenario_count,
            tracked_count,
            latest_commit_short_sha: Some(l.short_sha),
            latest_commit_status: Some(l.status),
        },
        None => OverviewJson {
            scenario_count,
            tracked_count,
            latest_commit_short_sha: None,
            latest_commit_status: None,
        },
    }
}


// ── GitHub commit metadata ───────────────────────────────────────────────────

/// The fields of GitHub's commit response that the server reads; `None`
/// where the response lacks the field or holds a value of another type.
#[derive(Debug, Clone)]
pub struct GithubCommitFields {
    pub sha: Option<String>,
    pub author_login: Option<String>,
    pub commit_author_name: Option<String>,
    pub message: Option<String>,
    pub author_date: Option<String>,
    pub committer_date: Option<String>,
    pub html_url: Option<String>,
}

pub open spec fn first_of(a: Option<String>, b: Option<String>, d: Seq<char>) -> Seq<char> {
    match a {
        Some(x) => x@,
        None => or_str(b, d),
    }
}

fn first_string(a: Option<String>, b: Option<String>, d: &str) -> (r: String)
    ensures
        r@ == first_of(a, b, d@),
{
    match a {
        Some(x) => x,
        None => or_string(b, d),
    }
}

/// Commit metadata from GitHub's answer for `requested_sha`: the SHA it
/// reports (the requested one where it gives none) and its first seven
/// characters; the author's login, else the commit author's name, else
/// `unknown`; the message; the author date, else the committer date; the
/// page URL (empty where missing).
pub fn github_commit_json(f: GithubCommitFields, requested_sha: &str) -> (r: GithubCommitJson)
    ensures
        r.sha@ == or_str(f.sha, requested_sha@),
        r.short_sha@ == crate::upstream::spec_short_sha(or_str(f.sha, requested_sha@)),
        r.author@ == first_of(f.author_login, f.commit_author_name, "unknown"@),
        r.message@ == or_str(f.message, Seq::empty()),
        r.timestamp@ == first_of(f.author_date, f.committer_date, Seq::empty()),
        r.html_url@ == or_str(f.html_url, Seq::empty()),
{
    let sha = or_string(f.sha, requested_sha);
    let short_sha = crate::upstream::short_sha(sha.as_str());
    proof {
        reveal_strlit("");
    }
    GithubCommitJson {
        sha,
        short_sha,
        author: first_string(f.author_login, f.commit_author_name, "unknown"),
        message: or_string(f.message, ""),
        timestamp: first_string(f.author_date, f.committer_date, ""),
        html_url: or_string(f.html_url, ""),
    }
}

// ── Pheromone registry ───────────────────────────────────────────────────────

pub open spec fn is_schema_asset(name: Option<String>) -> bool {
    name matches Some(n) && n@ == "schema.json"@
}

/// Index of the release asset named `schema.json`, the first such one.
pub fn schema_asset_index(asset_names: &[Option<String>]) -> (r: Option<usize>)
    ensures
        r matches Some(i) ==> i < asset_names@.len() && is_schema_asset(asset_names@[i as int]),
        r matches Some(i) ==> forall|k: int| 0 <= k < i ==> !is_schema_asset(#[trigger] asset_names@[k]),
        r is None ==> forall|k: int| 0 <= k < asset_names@.len() ==> !is_schema_asset(#[trigger] asset_names@[k]),
{
    let mut i: usize = 0;
    while i < asset_names.len()
        invariant
            i <= asset_names@.len(),
            forall|k: int| 0 <= k < i ==> !is_schema_asset(#[trigger] asset_names@[k]),
        decreases asset_names.len() - i,
    {
        match &asset_names[i] {
            Some(n) => {
                let v = chars_of(n.as_str());
                if eq_str(&v, "schema.json") {
                    return Some(i);
                }
            },
            None => {},
        }
        i = i + 1;
    }
    None
}

/// Name and version a pheromone is registered under: those its schema
/// gives, else the repository's last path segment and `0.0.0`.
pub fn pheromone_identity(schema_name: Option<String>, schema_version: Option<String>, github_repo: &str) -> (r: (String, String))
    ensures
        r.0@ == or_str(schema_name, crate::upstream::after_last(github_repo@, '/')),
        r.1@ == or_str(schema_version, "0.0.0"@),
{
    let name = match schema_name {
        Some(n) => n,
        None => crate::upstream::project_name_from_upstream(github_repo),
    };
    (name, or_string(schema_version, "0.0.0"))
}


// ── Sign-in ──────────────────────────────────────────────────────────────────

/// The OAuth callback is accepted only when the state cookie set at
/// sign-in is present and equals the state GitHub hands back.
pub fn oauth_state_matches(cookie: Option<&str>, state: &str) -> (ok: bool)
    ensures
        ok == (cookie matches Some(c) && c@ == state@),
{
    match cookie {
        None => false,
        Some(c) => {
            let a = chars_of(c);
            let b = chars_of(state);
            chars_eq(&a, &b)
        },
    }
}

/// Where sign-in sends the browser.
pub fn authorize_url(client_id: &str, state: &str) -> (r: String)
    ensures
        r@ == "https://github.com/login/oauth/authorize?client_id="@ + client_id@ + "&state="@
            + state@ + "&scope=read:user%20read:org"@,
{
    let mut m: Vec<char> = Vec::new();
    append_str(&mut m, "https://github.com/login/oauth/authorize?client_id=");
    append_str(&mut m, client_id);
    append_str(&mut m, "&state=");
    append_str(&mut m, state);
    append_str(&mut m, "&scope=read:user%20read:org");
    string_of(&m)
}

/// The frontend address, `http://localhost:5173` unless configured.
pub fn frontend_url(configured: Option<String>) -> (r: String)
    ensures
        r@ == or_str(configured, "http://localhost:5173"@),
{
    or_string(configured, "http://localhost:5173")
}

/// Where a user outside the required organisation is sent.
pub fn forbidden_redirect(frontend: &str) -> (r: String)
    ensures
        r@ == frontend@ + "?error=forbidden"@,
{
    let mut m: Vec<char> = Vec::new();
    append_str(&mut m, frontend);
    append_str(&mut m, "?error=forbidden");
    string_of(&m)
}

/// The endpoint that tells whether `login` belongs to `org`.
pub fn org_member_url(org: &str, login: &str) -> (r: String)
    ensures
        r@ == "https://api.github.com/orgs/"@ + org@ + "/members/"@ + login@,
{
    let mut m: Vec<char> = Vec::new();
    append_str(&mut m, "https://api.github.com/orgs/");
    append_str(&mut m, org);
    append_str(&mut m, "/members/");
    append_str(&mut m, login);
    string_of(&m)
}

/// What GitHub's answer to the membership check means.
#[derive(Debug, Clone, Copy, PartialEq, Eq, Structural)]
pub enum OrgMembership {
    Member,
    NotMember,
    /// Any other failure: the sign-in fails as a bad gateway.
    Unknown,
}

/// 404 means not a member; a success status means a member.
pub fn org_membership(status: u16) -> (m: OrgMembership)
    ensures
        status == 404 ==> m == OrgMembership::NotMember,
        status != 404 && 200 <= status < 300 ==> m == OrgMembership::Member,
        status != 404 && !(200 <= status < 300) ==> m == OrgMembership::Unknown,
{
    if status == 404 {
        OrgMembership::NotMember
    } else if 200 <= status && status < 300 {
        OrgMembership::Member
    } else {
        OrgMembership::Unknown
    }
}

/// Requests need a session only when GitHub sign-in or an organisation
/// is configured.
pub fn auth_required(client_id_set: bool, org_set: bool) -> (r: bool)
    ensures
        r == (client_id_set || org_set),
{
    client_id_set || org_set
}

} // verus!
