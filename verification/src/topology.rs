//! The crate graph a cargo build reports: every package reachable from the
//! workspace members, with its direct dependencies among them.
use vstd::prelude::*;

use crate::text::{chars_eq, chars_of};
use crate::types::CrateTopo;

verus! {

/// A package of the resolved dependency graph: its name and version, and
/// the packages it links to directly (indices into the graph's packages).
#[derive(Debug, Clone)]
pub struct PackageNode {
    pub name: String,
    pub version: String,
    pub links: Vec<usize>,
}

/// Every link points at a package of the graph.
pub open spec fn graph_wf(pkgs: Seq<PackageNode>) -> bool {
    forall|i: int, k: int|
        0 <= i < pkgs.len() && 0 <= k < pkgs[i].links@.len() ==> #[trigger] pkgs[i].links@[k]
            < pkgs.len()
}

pub open spec fn links_to(pkgs: Seq<PackageNode>, a: int, b: int) -> bool {
    0 <= a < pkgs.len() && exists|k: int|
        0 <= k < pkgs[a].links@.len() && #[trigger] pkgs[a].links@[k] as int == b
}

/// `path` starts at a workspace member and follows links.
pub open spec fn is_path(pkgs: Seq<PackageNode>, ws: Seq<usize>, path: Seq<int>) -> bool {
    &&& path.len() > 0
    &&& exists|j: int| 0 <= j < ws.len() && #[trigger] ws[j] as int == path[0]
    &&& forall|k: int| 0 <= k < path.len() - 1 ==> #[trigger] links_to(pkgs, path[k], path[k + 1])
}

/// Package `i` can be reached from the workspace.
pub open spec fn reachable(pkgs: Seq<PackageNode>, ws: Seq<usize>, i: int) -> bool {
    exists|path: Seq<int>| is_path(pkgs, ws, path) && path.last() == i
}

pub open spec fn names_of(t: Seq<CrateTopo>) -> Seq<Seq<char>> {
    t.map_values(|c: CrateTopo| c.name@)
}

pub open spec fn distinct(s: Seq<Seq<char>>) -> bool {
    forall|i: int, j: int| 0 <= i < j < s.len() ==> s[i] != s[j]
}

/// Index of the first package named `name` (`packages().find(..)`).
pub open spec fn first_named(pkgs: Seq<PackageNode>, name: Seq<char>) -> int
    decreases pkgs.len(),
{
    if pkgs.len() == 0 {
        0
    } else if pkgs[0].name@ == name {
        0
    } else {
        1 + first_named(pkgs.drop_first(), name)
    }
}

/// The names of `links` that are among `kept`, in link order.
pub open spec fn kept_link_names(pkgs: Seq<PackageNode>, links: Seq<usize>, kept: Seq<Seq<char>>) -> Seq<Seq<char>>
    decreases links.len(),
{
    if links.len() == 0 {
        Seq::empty()
    } else {
        let n = pkgs[links.last() as int].name@;
        kept_link_names(pkgs, links.drop_last(), kept) + (if kept.contains(n) {
            seq![n]
        } else {
            Seq::empty()
        })
    }
}

/// Some package named `name` is reachable from the workspace and all of its
/// dependencies' names are kept.
pub open spec fn walked_from(pkgs: Seq<PackageNode>, ws: Seq<usize>, kept: Seq<Seq<char>>, name: Seq<char>) -> bool {
    exists|i: int|
        0 <= i < pkgs.len() && pkgs[i].name@ == name && reachable(pkgs, ws, i) && forall|m: int|
            0 <= m < pkgs[i].links@.len() ==> kept.contains(#[trigger] pkgs[pkgs[i].links@[m] as int].name@)
}

pub open spec fn ws_names(pkgs: Seq<PackageNode>, ws: Seq<usize>) -> Seq<Seq<char>> {
    ws.map_values(|i: usize| pkgs[i as int].name@)
}

/// The entry for a kept name: the first package of that name supplies the
/// version and the dependencies kept, and it is external unless a
/// workspace member has that name.
pub open spec fn topo_ok(pkgs: Seq<PackageNode>, ws: Seq<usize>, kept: Seq<Seq<char>>, t: CrateTopo) -> bool {
    let p = pkgs[first_named(pkgs, t.name@)];
    &&& t.version@ == p.version@
    &&& t.deps@.map_values(|s: String| s@) == kept_link_names(pkgs, p.links@, kept)
    &&& t.build_deps@.len() == 0
    &&& t.dev_deps@.len() == 0
    &&& t.external == !ws_names(pkgs, ws).contains(t.name@)
}

proof fn lemma_first_named(pkgs: Seq<PackageNode>, name: Seq<char>, i: int)
    requires
        0 <= i <= pkgs.len(),
        i < pkgs.len() ==> pkgs[i].name@ == name,
        forall|k: int| 0 <= k < i ==> pkgs[k].name@ != name,
    ensures
        first_named(pkgs, name) == i,
    decreases pkgs.len(),
{
    if pkgs.len() > 0 && pkgs[0].name@ != name {
        lemma_first_named(pkgs.drop_first(), name, i - 1);
    }
}

fn same(a: &String, b: &String) -> (r: bool)
    ensures
        r == (a@ == b@),
{
    let av = chars_of(a.as_str());
    let bv = chars_of(b.as_str());
    chars_eq(&av, &bv)
}

fn contains_name(v: &Vec<String>, name: &String) -> (r: bool)
    ensures
        r == v@.map_values(|s: String| s@).contains(name@),
{
    let ghost vs = v@.map_values(|s: String| s@);
    let mut i: usize = 0;
    while i < v.len()
        invariant
            i <= v@.len(),
            vs == v@.map_values(|s: String| s@),
            forall|k: int| 0 <= k < i ==> vs[k] != name@,
        decreases v.len() - i,
    {
        if same(&v[i], name) {
            assert(vs[i as int] == name@);
            return true;
        }
        i = i + 1;
    }
    false
}

fn first_named_exec(pkgs: &[PackageNode], name: &String) -> (r: usize)
    ensures
        r == first_named(pkgs@, name@),
        r <= pkgs@.len(),
        r < pkgs@.len() ==> pkgs@[r as int].name@ == name@,
        r == pkgs@.len() ==> forall|k: int| 0 <= k < pkgs@.len() ==> pkgs@[k].name@ != name@,
{
    let mut i: usize = 0;
    while i < pkgs.len()
        invariant
            i <= pkgs@.len(),
            forall|k: int| 0 <= k < i ==> pkgs@[k].name@ != name@,
        decreases pkgs.len() - i,
    {
        if same(&pkgs[i].name, name) {
            proof {
                lemma_first_named(pkgs@, name@, i as int);
            }
            return i;
        }
        i = i + 1;
    }
    proof {
        lemma_first_named(pkgs@, name@, i as int);
    }
    i
}


pub open spec fn str_views(v: Seq<String>) -> Seq<Seq<char>> {
    v.map_values(|s: String| s@)
}

proof fn lemma_extend_path(pkgs: Seq<PackageNode>, ws: Seq<usize>, t: int, m: int)
    requires
        reachable(pkgs, ws, t),
        0 <= t < pkgs.len(),
        0 <= m < pkgs[t].links@.len(),
    ensures
        reachable(pkgs, ws, pkgs[t].links@[m] as int),
{
    let path = choose|path: Seq<int>| is_path(pkgs, ws, path) && path.last() == t;
    let l = pkgs[t].links@[m] as int;
    let np = path.push(l);
    assert(links_to(pkgs, t, l));
    assert(np[0] == path[0]);
    assert forall|k: int| 0 <= k < np.len() - 1 implies #[trigger] links_to(pkgs, np[k], np[k + 1]) by {
        if k < path.len() - 1 {
            assert(np[k] == path[k] && np[k + 1] == path[k + 1]);
            assert(links_to(pkgs, path[k], path[k + 1]));
        } else {
            assert(np[k] == t && np[k + 1] == l);
        }
    }
    assert(is_path(pkgs, ws, np) && np.last() == l);
}

proof fn lemma_start_reachable(pkgs: Seq<PackageNode>, ws: Seq<usize>, j: int)
    requires
        0 <= j < ws.len(),
    ensures
        reachable(pkgs, ws, ws[j] as int),
{
    let path = seq![ws[j] as int];
    assert(is_path(pkgs, ws, path) && path.last() == ws[j] as int);
}

proof fn lemma_reps_bounded(rep: Seq<int>, n: int)
    requires
        rep.no_duplicates(),
        forall|k: int| 0 <= k < rep.len() ==> 0 <= #[trigger] rep[k] < n,
        n >= 0,
    ensures
        rep.len() <= n,
{
    rep.unique_seq_to_set();
    vstd::set_lib::lemma_int_range(0, n);
    assert(rep.to_set().subset_of(vstd::set_lib::set_int_range(0, n)));
    vstd::set_lib::lemma_len_subset(rep.to_set(), vstd::set_lib::set_int_range(0, n));
}

/// Link target `l` is accounted for: its name was met, or it still waits
/// in the queue at or after `head`.
pub open spec fn covered(names: Seq<Seq<char>>, pkgs: Seq<PackageNode>, queue: Seq<usize>, head: int, l: usize) -> bool {
    names.contains(pkgs[l as int].name@) || exists|q: int| head <= q < queue.len() && queue[q] == l
}

proof fn lemma_covered_push(names: Seq<Seq<char>>, pkgs: Seq<PackageNode>, queue: Seq<usize>, head: int, l: usize, x: usize)
    requires
        0 <= head,
        covered(names, pkgs, queue, head, l),
    ensures
        covered(names, pkgs, queue.push(x), head, l),
{
    if !names.contains(pkgs[l as int].name@) {
        let q = choose|q: int| head <= q < queue.len() && queue[q] == l;
        assert(queue.push(x)[q] == l);
    }
}

proof fn lemma_covered_name(names: Seq<Seq<char>>, pkgs: Seq<PackageNode>, queue: Seq<usize>, head: int, l: usize, y: Seq<char>)
    requires
        covered(names, pkgs, queue, head, l),
    ensures
        covered(names.push(y), pkgs, queue, head, l),
{
    if names.contains(pkgs[l as int].name@) {
        let k = choose|k: int| 0 <= k < names.len() && names[k] == pkgs[l as int].name@;
        assert(names.push(y)[k] == pkgs[l as int].name@);
    }
}

proof fn lemma_covered_pop(names: Seq<Seq<char>>, pkgs: Seq<PackageNode>, queue: Seq<usize>, head: int, l: usize)
    requires
        covered(names, pkgs, queue, head, l),
        0 <= head < queue.len(),
        names.contains(pkgs[queue[head] as int].name@),
    ensures
        covered(names, pkgs, queue, head + 1, l),
{
    if !names.contains(pkgs[l as int].name@) {
        let q = choose|q: int| head <= q < queue.len() && queue[q] == l;
        assert(q != head);
    }
}

proof fn lemma_contains_push(names: Seq<Seq<char>>, x: Seq<char>, y: Seq<char>)
    requires
        names.contains(x),
    ensures
        names.push(y).contains(x),
{
    let k = choose|k: int| 0 <= k < names.len() && names[k] == x;
    assert(names.push(y)[k] == x);
}

/// The names of every package reachable from the workspace members, in
/// the order a breadth-first walk meets them; a name met again (another
/// version of a crate) is not walked again. Also returns, per name, the
/// package the walk took it from.
fn reachable_names(pkgs: &[PackageNode], workspace: &[usize]) -> (r: (Vec<String>, Ghost<Seq<int>>))
    requires
        graph_wf(pkgs@),
        forall|j: int| 0 <= j < workspace@.len() ==> #[trigger] workspace@[j] < pkgs@.len(),
    ensures
        distinct(str_views(r.0@)),
        r.1@.len() == r.0@.len(),
        forall|k: int|
            0 <= k < r.0@.len() ==> 0 <= #[trigger] r.1@[k] < pkgs@.len() && pkgs@[r.1@[k]].name@
                == r.0@[k]@ && reachable(pkgs@, workspace@, r.1@[k]),
        forall|k: int, m: int|
            0 <= k < r.0@.len() && 0 <= m < pkgs@[r.1@[k]].links@.len() ==> str_views(r.0@).contains(
                #[trigger] pkgs@[pkgs@[r.1@[k]].links@[m] as int].name@,
            ),
        forall|j: int| 0 <= j < workspace@.len() ==> str_views(r.0@).contains(
            #[trigger] pkgs@[workspace@[j] as int].name@,
        ),
{
    let mut queue: Vec<usize> = Vec::new();
    let mut j: usize = 0;
    while j < workspace.len()
        invariant
            j <= workspace@.len(),
            queue@ == workspace@.subrange(0, j as int),
        decreases workspace.len() - j,
    {
        queue.push(workspace[j]);
        j = j + 1;
    }
    assert(workspace@.subrange(0, workspace@.len() as int) == workspace@);
    let mut visited: Vec<String> = Vec::new();
    let ghost mut rep: Seq<int> = Seq::empty();
    let mut head: usize = 0;
    proof {
        assert forall|q: int| 0 <= q < queue@.len() implies reachable(pkgs@, workspace@, #[trigger] queue@[q] as int) by {
            lemma_start_reachable(pkgs@, workspace@, q);
        }
    }
    while head < queue.len()
        invariant
            graph_wf(pkgs@),
            workspace@.len() <= queue@.len(),
            forall|q: int| 0 <= q < workspace@.len() ==> #[trigger] queue@[q] == workspace@[q],
            head <= queue@.len(),
            forall|q: int| 0 <= q < queue@.len() ==> #[trigger] queue@[q] < pkgs@.len(),
            forall|q: int| 0 <= q < queue@.len() ==> reachable(pkgs@, workspace@, #[trigger] queue@[q] as int),
            forall|q: int| 0 <= q < head ==> str_views(visited@).contains(#[trigger] pkgs@[queue@[q] as int].name@),
            distinct(str_views(visited@)),
            rep.len() == visited@.len(),
            rep.no_duplicates(),
            forall|k: int|
                0 <= k < visited@.len() ==> 0 <= #[trigger] rep[k] < pkgs@.len() && pkgs@[rep[k]].name@
                    == visited@[k]@ && reachable(pkgs@, workspace@, rep[k]),
            forall|k: int, m: int|
                0 <= k < visited@.len() && 0 <= m < pkgs@[rep[k]].links@.len() ==> covered(
                    str_views(visited@),
                    pkgs@,
                    queue@,
                    head as int,
                    #[trigger] pkgs@[rep[k]].links@[m],
                ),
        decreases pkgs@.len() - visited@.len(), queue@.len() - head,
    {
        proof {
            lemma_reps_bounded(rep, pkgs@.len() as int);
        }
        let t = queue[head];
        let ghost old_names = str_views(visited@);
        let ghost old_head = head as int;
        if contains_name(&visited, &pkgs[t].name) {
            head = head + 1;
            proof {
                assert forall|k: int, m: int|
                    0 <= k < visited@.len() && 0 <= m < pkgs@[rep[k]].links@.len() implies covered(
                        str_views(visited@),
                        pkgs@,
                        queue@,
                        head as int,
                        #[trigger] pkgs@[rep[k]].links@[m],
                    ) by {
                    lemma_covered_pop(old_names, pkgs@, queue@, old_head, pkgs@[rep[k]].links@[m]);
                }
            }
        } else {
            visited.push(pkgs[t].name.clone());
            head = head + 1;
            let ghost names1 = str_views(visited@);
            proof {
                assert(names1 == old_names.push(pkgs@[t as int].name@));
                assert(names1[names1.len() - 1] == pkgs@[t as int].name@);
                assert(names1.contains(pkgs@[t as int].name@));
                assert(!rep.contains(t as int)) by {
                    if rep.contains(t as int) {
                        let k = choose|k: int| 0 <= k < rep.len() && rep[k] == t as int;
                        assert(old_names[k] == pkgs@[t as int].name@);
                    }
                }
                let old_rep = rep;
                rep = rep.push(t as int);
                assert(rep.no_duplicates()) by {
                    assert forall|a: int, b: int| 0 <= a < rep.len() && 0 <= b < rep.len() && a != b implies rep[a] != rep[b] by {
                        if a < old_rep.len() && b < old_rep.len() {
                            assert(rep[a] == old_rep[a] && rep[b] == old_rep[b]);
                        } else if a < old_rep.len() {
                            assert(rep[a] == old_rep[a]);
                            assert(old_rep.contains(rep[a]));
                        } else {
                            assert(rep[b] == old_rep[b]);
                            assert(old_rep.contains(rep[b]));
                        }
                    }
                }
                assert forall|k: int|
                    0 <= k < visited@.len() implies 0 <= #[trigger] rep[k] < pkgs@.len() && pkgs@[rep[k]].name@
                        == visited@[k]@ && reachable(pkgs@, workspace@, rep[k]) by {
                    if k < old_rep.len() {
                        assert(rep[k] == old_rep[k]);
                    }
                }
                lemma_reps_bounded(rep, pkgs@.len() as int);
                assert(distinct(names1)) by {
                    assert forall|a: int, b: int| 0 <= a < b < names1.len() implies names1[a] != names1[b] by {
                        assert(old_names[a] == names1[a]);
                        if b < names1.len() - 1 {
                            assert(old_names[b] == names1[b]);
                        }
                    }
                }
                assert forall|q: int| 0 <= q < head implies names1.contains(#[trigger] pkgs@[queue@[q] as int].name@) by {
                    if q < old_head {
                        lemma_contains_push(old_names, pkgs@[queue@[q] as int].name@, pkgs@[t as int].name@);
                    }
                }
                assert forall|k: int, m: int|
                    0 <= k < visited@.len() - 1 && 0 <= m < pkgs@[rep[k]].links@.len() implies covered(
                        names1,
                        pkgs@,
                        queue@,
                        head as int,
                        #[trigger] pkgs@[rep[k]].links@[m],
                    ) by {
                    let l = pkgs@[rep[k]].links@[m];
                    lemma_covered_name(old_names, pkgs@, queue@, old_head, l, pkgs@[t as int].name@);
                    lemma_covered_pop(names1, pkgs@, queue@, old_head, l);
                }
            }
            let n_links = pkgs[t].links.len();
            let mut m: usize = 0;
            while m < n_links
                invariant
                    graph_wf(pkgs@),
                    t < pkgs@.len(),
                    n_links == pkgs@[t as int].links@.len(),
                    m <= n_links,
                    names1 == str_views(visited@),
                    workspace@.len() <= queue@.len(),
                    forall|q: int| 0 <= q < workspace@.len() ==> #[trigger] queue@[q] == workspace@[q],
                    head <= queue@.len(),
                    forall|q: int| 0 <= q < queue@.len() ==> #[trigger] queue@[q] < pkgs@.len(),
                    forall|q: int| 0 <= q < queue@.len() ==> reachable(pkgs@, workspace@, #[trigger] queue@[q] as int),
                    forall|q: int| 0 <= q < head ==> names1.contains(#[trigger] pkgs@[queue@[q] as int].name@),
                    reachable(pkgs@, workspace@, t as int),
                    rep.len() == visited@.len(),
                    rep.last() == t as int,
                    forall|mm: int| 0 <= mm < m ==> covered(
                        names1,
                        pkgs@,
                        queue@,
                        head as int,
                        #[trigger] pkgs@[t as int].links@[mm],
                    ),
                    forall|k: int, mm: int|
                        0 <= k < visited@.len() - 1 && 0 <= mm < pkgs@[rep[k]].links@.len() ==> covered(
                            names1,
                            pkgs@,
                            queue@,
                            head as int,
                            #[trigger] pkgs@[rep[k]].links@[mm],
                        ),
                decreases n_links - m,
            {
                let l = pkgs[t].links[m];
                proof {
                    assert(l < pkgs@.len());
                }
                if !contains_name(&visited, &pkgs[l].name) {
                    let ghost q0 = queue@;
                    queue.push(l);
                    proof {
                        lemma_extend_path(pkgs@, workspace@, t as int, m as int);
                        assert(queue@[q0.len() as int] == l);
                        assert(covered(names1, pkgs@, queue@, head as int, l));
                        assert forall|mm: int| 0 <= mm < m implies covered(
                            names1,
                            pkgs@,
                            queue@,
                            head as int,
                            #[trigger] pkgs@[t as int].links@[mm],
                        ) by {
                            lemma_covered_push(names1, pkgs@, q0, head as int, pkgs@[t as int].links@[mm], l);
                        }
                        assert forall|k: int, mm: int|
                            0 <= k < visited@.len() - 1 && 0 <= mm < pkgs@[rep[k]].links@.len() implies covered(
                                names1,
                                pkgs@,
                                queue@,
                                head as int,
                                #[trigger] pkgs@[rep[k]].links@[mm],
                            ) by {
                            lemma_covered_push(names1, pkgs@, q0, head as int, pkgs@[rep[k]].links@[mm], l);
                        }
                        assert forall|q: int| 0 <= q < queue@.len() implies reachable(pkgs@, workspace@, #[trigger] queue@[q] as int) by {
                            if q < q0.len() {
                                assert(queue@[q] == q0[q]);
                            }
                        }
                    }
                }
                m = m + 1;
            }
            proof {
                assert forall|k: int, mm: int|
                    0 <= k < visited@.len() && 0 <= mm < pkgs@[rep[k]].links@.len() implies covered(
                        str_views(visited@),
                        pkgs@,
                        queue@,
                        head as int,
                        #[trigger] pkgs@[rep[k]].links@[mm],
                    ) by {
                    if k == visited@.len() - 1 {
                        assert(rep[k] == t as int);
                    }
                }
            }
        }
    }
    proof {
        assert forall|k: int, m: int|
            0 <= k < visited@.len() && 0 <= m < pkgs@[rep[k]].links@.len() implies str_views(visited@).contains(
                #[trigger] pkgs@[pkgs@[rep[k]].links@[m] as int].name@,
            ) by {
            assert(covered(str_views(visited@), pkgs@, queue@, head as int, pkgs@[rep[k]].links@[m]));
        }
        assert forall|j: int| 0 <= j < workspace@.len() implies str_views(visited@).contains(
            #[trigger] pkgs@[workspace@[j] as int].name@,
        ) by {
            assert(queue@[j] == workspace@[j]);
        }
    }
    (visited, Ghost(rep))
}


fn kept_links(pkgs: &[PackageNode], links: &Vec<usize>, kept: &Vec<String>) -> (r: Vec<String>)
    requires
        forall|k: int| 0 <= k < links@.len() ==> #[trigger] links@[k] < pkgs@.len(),
    ensures
        str_views(r@) == kept_link_names(pkgs@, links@, str_views(kept@)),
{
    let mut out: Vec<String> = Vec::new();
    let mut i: usize = 0;
    while i < links.len()
        invariant
            i <= links@.len(),
            forall|k: int| 0 <= k < links@.len() ==> #[trigger] links@[k] < pkgs@.len(),
            str_views(out@) == kept_link_names(pkgs@, links@.subrange(0, i as int), str_views(kept@)),
        decreases links.len() - i,
    {
        let ghost pre = links@.subrange(0, i + 1);
        assert(pre.drop_last() == links@.subrange(0, i as int));
        assert(pre.last() == links@[i as int]);
        let ghost before = str_views(out@);
        let l = links[i];
        if contains_name(kept, &pkgs[l].name) {
            out.push(pkgs[l].name.clone());
            assert(str_views(out@) == before.push(pkgs@[l as int].name@));
        } else {
            assert(before + Seq::<Seq<char>>::empty() == before);
        }
        i = i + 1;
    }
    assert(links@.subrange(0, links@.len() as int) == links@);
    out
}

fn is_member_name(pkgs: &[PackageNode], workspace: &[usize], name: &String) -> (r: bool)
    requires
        forall|j: int| 0 <= j < workspace@.len() ==> #[trigger] workspace@[j] < pkgs@.len(),
    ensures
        r == ws_names(pkgs@, workspace@).contains(name@),
{
    let ghost wn = ws_names(pkgs@, workspace@);
    let mut j: usize = 0;
    while j < workspace.len()
        invariant
            j <= workspace@.len(),
            wn == ws_names(pkgs@, workspace@),
            forall|q: int| 0 <= q < workspace@.len() ==> #[trigger] workspace@[q] < pkgs@.len(),
            forall|q: int| 0 <= q < j ==> wn[q] != name@,
        decreases workspace.len() - j,
    {
        if same(&pkgs[workspace[j]].name, name) {
            assert(wn[j as int] == name@);
            return true;
        }
        j = j + 1;
    }
    false
}

/// The crate graph of a build: one entry per name reachable from the
/// workspace members, as a breadth-first walk from them meets the names;
/// each entry takes its version and dependency list from the first package
/// of that name, keeping the dependencies whose names are in the graph, and
/// is external unless a workspace member bears its name.
pub fn crate_topology(pkgs: &[PackageNode], workspace: &[usize]) -> (r: Vec<CrateTopo>)
    requires
        graph_wf(pkgs@),
        forall|j: int| 0 <= j < workspace@.len() ==> #[trigger] workspace@[j] < pkgs@.len(),
    ensures
        distinct(names_of(r@)),
        forall|j: int| 0 <= j < workspace@.len() ==> names_of(r@).contains(
            #[trigger] pkgs@[workspace@[j] as int].name@,
        ),
        forall|k: int| 0 <= k < r@.len() ==> walked_from(pkgs@, workspace@, names_of(r@), #[trigger] r@[k].name@),
        forall|k: int| 0 <= k < r@.len() ==> topo_ok(pkgs@, workspace@, names_of(r@), #[trigger] r@[k]),
        topology_facts(pkgs@, workspace@, r@),
{
    let (names, Ghost(rep)) = reachable_names(pkgs, workspace);
    let ghost nv = str_views(names@);
    let mut out: Vec<CrateTopo> = Vec::new();
    let mut k: usize = 0;
    while k < names.len()
        invariant
            graph_wf(pkgs@),
            forall|j: int| 0 <= j < workspace@.len() ==> #[trigger] workspace@[j] < pkgs@.len(),
            nv == str_views(names@),
            rep.len() == names@.len(),
            forall|q: int|
                0 <= q < names@.len() ==> 0 <= #[trigger] rep[q] < pkgs@.len() && pkgs@[rep[q]].name@
                    == names@[q]@,
            k <= names@.len(),
            names_of(out@) == nv.subrange(0, k as int),
            forall|q: int| 0 <= q < k ==> topo_ok(pkgs@, workspace@, nv, #[trigger] out@[q]),
        decreases names.len() - k,
    {
        let name = &names[k];
        let p = first_named_exec(pkgs, name);
        proof {
            if p == pkgs@.len() {
                assert(pkgs@[rep[k as int]].name@ == name@);
            }
        }
        let deps = kept_links(pkgs, &pkgs[p].links, &names);
        let external = !is_member_name(pkgs, workspace, name);
        let t = CrateTopo {
            name: name.clone(),
            version: pkgs[p].version.clone(),
            deps,
            build_deps: Vec::new(),
            dev_deps: Vec::new(),
            external,
        };
        assert(topo_ok(pkgs@, workspace@, nv, t));
        let ghost before = names_of(out@);
        out.push(t);
        assert(names_of(out@) == before.push(name@));
        assert(nv.subrange(0, k + 1) == nv.subrange(0, k as int).push(nv[k as int]));
        k = k + 1;
    }
    assert(nv.subrange(0, nv.len() as int) == nv);
    assert(names_of(out@) == nv);
    proof {
        assert forall|q: int| 0 <= q < out@.len() implies walked_from(pkgs@, workspace@, names_of(out@), #[trigger] out@[q].name@) by {
            let i = rep[q];
            assert(names_of(out@)[q] == out@[q].name@);
            assert(pkgs@[i].name@ == out@[q].name@);
            assert(reachable(pkgs@, workspace@, i));
            assert forall|m: int| 0 <= m < pkgs@[i].links@.len() implies names_of(out@).contains(
                #[trigger] pkgs@[pkgs@[i].links@[m] as int].name@,
            ) by {
                assert(nv.contains(pkgs@[pkgs@[rep[q]].links@[m] as int].name@));
            }
        }
        assert forall|q: int| 0 <= q < out@.len() implies topo_ok(pkgs@, workspace@, names_of(out@), #[trigger] out@[q]) by {
        }
    }
    out
}

/// What `crate_topology` states of its result `r`.
pub open spec fn topology_facts(pkgs: Seq<PackageNode>, ws: Seq<usize>, r: Seq<CrateTopo>) -> bool {
    &&& distinct(names_of(r))
    &&& forall|j: int| 0 <= j < ws.len() ==> names_of(r).contains(#[trigger] pkgs[ws[j] as int].name@)
    &&& forall|k: int| 0 <= k < r.len() ==> walked_from(pkgs, ws, names_of(r), #[trigger] r[k].name@)
    &&& forall|k: int| 0 <= k < r.len() ==> topo_ok(pkgs, ws, names_of(r), #[trigger] r[k])
}

/// No two packages share a name.
pub open spec fn names_unique(pkgs: Seq<PackageNode>) -> bool {
    forall|a: int, b: int| 0 <= a < b < pkgs.len() ==> pkgs[a].name@ != pkgs[b].name@
}

proof fn lemma_path_names(pkgs: Seq<PackageNode>, ws: Seq<usize>, r: Seq<CrateTopo>, path: Seq<int>, k: int)
    requires
        names_unique(pkgs),
        forall|j: int| 0 <= j < ws.len() ==> #[trigger] ws[j] < pkgs.len(),
        topology_facts(pkgs, ws, r),
        is_path(pkgs, ws, path),
        0 <= k < path.len(),
    ensures
        names_of(r).contains(pkgs[path[k]].name@),
    decreases k,
{
    if k == 0 {
        let j = choose|j: int| 0 <= j < ws.len() && #[trigger] ws[j] as int == path[0];
        assert(names_of(r).contains(pkgs[ws[j] as int].name@));
    } else {
        lemma_path_names(pkgs, ws, r, path, k - 1);
        let a = path[k - 1];
        let prev: int = k - 1;
        assert(links_to(pkgs, path[prev], path[prev + 1]));
        assert(prev + 1 == k);
        let n = pkgs[a].name@;
        let idx = choose|idx: int| 0 <= idx < names_of(r).len() && names_of(r)[idx] == n;
        assert(r[idx].name@ == n);
        assert(walked_from(pkgs, ws, names_of(r), r[idx].name@));
        let i0 = choose|i0: int|
            0 <= i0 < pkgs.len() && pkgs[i0].name@ == n && reachable(pkgs, ws, i0) && forall|m: int|
                0 <= m < pkgs[i0].links@.len() ==> names_of(r).contains(#[trigger] pkgs[pkgs[i0].links@[m] as int].name@);
        if i0 < a {
            assert(pkgs[i0].name@ != pkgs[a].name@);
        } else if a < i0 {
            assert(pkgs[a].name@ != pkgs[i0].name@);
        }
        let m = choose|m: int| 0 <= m < pkgs[a].links@.len() && #[trigger] pkgs[a].links@[m] as int == path[k];
        assert(names_of(r).contains(pkgs[pkgs[i0].links@[m] as int].name@));
    }
}

/// Where no two packages share a name, the crate graph holds the name of
/// every package reachable from the workspace members.
pub proof fn law_topology_covers_reachable(pkgs: Seq<PackageNode>, ws: Seq<usize>, r: Seq<CrateTopo>, i: int)
    requires
        graph_wf(pkgs),
        forall|j: int| 0 <= j < ws.len() ==> #[trigger] ws[j] < pkgs.len(),
        names_unique(pkgs),
        topology_facts(pkgs, ws, r),
        reachable(pkgs, ws, i),
    ensures
        names_of(r).contains(pkgs[i].name@),
{
    let path = choose|path: Seq<int>| is_path(pkgs, ws, path) && path.last() == i;
    lemma_path_names(pkgs, ws, r, path, path.len() - 1);
}

} // verus!
