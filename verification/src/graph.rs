//! The workspace graph walker: starting from the workspace members, collect
//! the root directory of every package reachable through dependency edges,
//! deduplicated by package identity and restricted to packages rooted under
//! the workspace's own directory tree.

use vstd::prelude::*;
use vstd::set_lib::*;
use crate::paths::{segs_view, is_seq_prefix, is_segs_prefix, clone_segments};

verus! {

/// One package of the resolved dependency graph: its root directory (as
/// absolute path segments) and the indices of its direct dependencies,
/// dev and build edges included.
#[derive(Debug, Clone, PartialEq, Eq)]
pub struct PackageInfo {
    pub root: Vec<String>,
    pub deps: Vec<usize>,
}

/// The resolved dependency graph: packages identified by index.
pub struct PackageGraph {
    pub packages: Vec<PackageInfo>,
}

/// The graph walker's failure: a referenced package identity is absent from
/// the graph's metadata lookup.
#[derive(Debug, PartialEq, Eq, Structural)]
pub enum GraphError {
    InconsistentGraph,
}

/// Every dependency edge points at a package of the graph.
pub open spec fn graph_wf(g: Seq<PackageInfo>) -> bool {
    forall|p: int, j: int|
        0 <= p < g.len() && 0 <= j < g[p].deps@.len() ==> (#[trigger] g[p].deps@[j]) < g.len()
}

/// Every member index points at a package of the graph.
pub open spec fn members_wf(g: Seq<PackageInfo>, members: Seq<usize>) -> bool {
    forall|i: int| 0 <= i < members.len() ==> (#[trigger] members[i]) < g.len()
}

/// There is a dependency path of at most `k` edges from `src` to `dst`.
pub open spec fn has_path(g: Seq<PackageInfo>, src: int, dst: int, k: nat) -> bool
    decreases k,
{
    0 <= src < g.len() && (src == dst || (k > 0 && exists|j: int|
        0 <= j < g[src].deps@.len() && has_path(g, g[src].deps@[j] as int, dst, (k - 1) as nat)))
}

/// A package is reachable from some workspace member.
pub open spec fn reachable(g: Seq<PackageInfo>, members: Seq<usize>, dst: int) -> bool {
    exists|m: int, k: nat| 0 <= m < members.len() && has_path(g, members[m] as int, dst, k)
}

/// A path can be extended by one edge at its end.
proof fn lemma_has_path_extend(g: Seq<PackageInfo>, src: int, v: int, k: nat, j: int)
    requires
        graph_wf(g),
        has_path(g, src, v, k),
        0 <= j < g[v].deps@.len(),
    ensures
        has_path(g, src, g[v].deps@[j] as int, (k + 1) as nat),
    decreases k,
{
    let d = g[v].deps@[j] as int;
    if src == v {
        assert(0 <= d < g.len());
        assert(has_path(g, d, d, 0));
        assert(has_path(g, g[src].deps@[j] as int, d, ((k + 1) - 1) as nat));
    } else {
        let jj = choose|jj: int|
            0 <= jj < g[src].deps@.len() && has_path(g, g[src].deps@[jj] as int, v, (k - 1) as nat);
        lemma_has_path_extend(g, g[src].deps@[jj] as int, v, (k - 1) as nat, j);
        assert(has_path(g, g[src].deps@[jj] as int, d, k));
    }
}

/// Reachability is closed under dependency edges.
proof fn lemma_reachable_step(g: Seq<PackageInfo>, members: Seq<usize>, v: int, j: int)
    requires
        graph_wf(g),
        reachable(g, members, v),
        0 <= j < g[v].deps@.len(),
    ensures
        reachable(g, members, g[v].deps@[j] as int),
{
    let (m, k): (int, nat) = choose|m: int, k: nat|
        0 <= m < members.len() && has_path(g, members[m] as int, v, k);
    lemma_has_path_extend(g, members[m] as int, v, k, j);
}

/// Any path starting inside a set of packages that is closed under
/// dependency edges ends inside it.
proof fn lemma_path_stays_in_closed(
    g: Seq<PackageInfo>,
    visited: Seq<bool>,
    src: int,
    dst: int,
    k: nat,
)
    requires
        graph_wf(g),
        visited.len() == g.len(),
        forall|p: int, j: int|
            0 <= p < g.len() && visited[p] && 0 <= j < g[p].deps@.len() ==> visited[(
            #[trigger] g[p].deps@[j]) as int],
        has_path(g, src, dst, k),
        visited[src],
    ensures
        0 <= dst < g.len() && visited[dst],
    decreases k,
{
    if src == dst {
    } else {
        let j = choose|j: int|
            0 <= j < g[src].deps@.len() && has_path(g, g[src].deps@[j] as int, dst, (k - 1) as nat);
        assert(visited[g[src].deps@[j] as int]);
        lemma_path_stays_in_closed(g, visited, g[src].deps@[j] as int, dst, (k - 1) as nat);
    }
}

/// What the walker collects: indices of distinct reachable packages rooted
/// under the workspace root, each contributing its root directory, and all
/// such packages contributing.
pub open spec fn collected(
    g: Seq<PackageInfo>,
    members: Seq<usize>,
    root: Seq<Seq<char>>,
    ix: Seq<int>,
    dirs: Seq<Vec<String>>,
) -> bool {
    &&& dirs.len() == ix.len()
    &&& forall|k: int| 0 <= k < ix.len() ==> 0 <= #[trigger] ix[k] < g.len()
    &&& forall|k: int| 0 <= k < ix.len() ==> (#[trigger] dirs[k])@ == g[ix[k]].root@
    &&& forall|k: int| 0 <= k < ix.len() ==> reachable(g, members, #[trigger] ix[k])
    &&& forall|k: int|
        0 <= k < ix.len() ==> is_seq_prefix(root, segs_view(g[#[trigger] ix[k]].root@))
    &&& forall|k1: int, k2: int|
        0 <= k1 < ix.len() && 0 <= k2 < ix.len() && k1 != k2 ==> #[trigger] ix[k1]
            != #[trigger] ix[k2]
    &&& forall|p: int|
        0 <= p < g.len() && reachable(g, members, p) && is_seq_prefix(
            root,
            segs_view(g[p].root@),
        ) ==> ix.contains(p)
}

/// Check that every dependency index of one package is present in a graph
/// of `n` packages.
fn deps_in_bounds(deps: &Vec<usize>, n: usize) -> (r: bool)
    ensures
        r == forall|j: int| 0 <= j < deps@.len() ==> (#[trigger] deps@[j]) < n,
{
    let mut j: usize = 0;
    while j < deps.len()
        invariant
            0 <= j <= deps@.len(),
            forall|jj: int| 0 <= jj < j ==> (#[trigger] deps@[jj]) < n,
        decreases deps@.len() - j,
    {
        if deps[j] >= n {
            return false;
        }
        j = j + 1;
    }
    true
}

/// Check that every dependency edge of the graph is consistent.
pub fn graph_edges_consistent(g: &PackageGraph) -> (r: bool)
    ensures
        r == graph_wf(g.packages@),
{
    let n = g.packages.len();
    let mut p: usize = 0;
    while p < n
        invariant
            0 <= p <= n,
            n == g.packages@.len(),
            forall|pp: int, j: int|
                0 <= pp < p && 0 <= j < g.packages@[pp].deps@.len() ==> (
                #[trigger] g.packages@[pp].deps@[j]) < n,
        decreases n - p,
    {
        if !deps_in_bounds(&g.packages[p].deps, n) {
            return false;
        }
        p = p + 1;
    }
    true
}

/// Check that every member index names a package of the graph.
pub fn members_consistent(g: &PackageGraph, members: &Vec<usize>) -> (r: bool)
    ensures
        r == members_wf(g.packages@, members@),
{
    deps_in_bounds(members, g.packages.len())
}

/// Append all items of one index list to the stack.
fn push_all(stack: &mut Vec<usize>, items: &Vec<usize>)
    ensures
        final(stack)@ == old(stack)@ + items@,
{
    let mut j: usize = 0;
    while j < items.len()
        invariant
            0 <= j <= items@.len(),
            stack@ == old(stack)@ + items@.subrange(0, j as int),
        decreases items@.len() - j,
    {
        stack.push(items[j]);
        proof {
            assert(old(stack)@ + items@.subrange(0, j as int + 1)
                =~= (old(stack)@ + items@.subrange(0, j as int)).push(items@[j as int]));
        }
        j = j + 1;
    }
    proof {
        assert(items@.subrange(0, items@.len() as int) =~= items@);
    }
}

/// Walk the dependency graph from every workspace member and collect the
/// root directory of each reachable package that lies under the workspace
/// root. Packages outside the root are traversed but not collected; a
/// dependency or member index absent from the graph is an inconsistency and
/// fails the walk.
pub fn workspace_manifest_dirs(
    g: &PackageGraph,
    members: &Vec<usize>,
    ws_root: &Vec<String>,
) -> (r: (Result<Vec<Vec<String>>, GraphError>, Ghost<Seq<int>>))
    ensures
        (r.0 is Ok) == (graph_wf(g.packages@) && members_wf(g.packages@, members@)),
        match r.0 {
            Ok(dirs) => collected(g.packages@, members@, segs_view(ws_root@), r.1@, dirs@),
            Err(e) => e == GraphError::InconsistentGraph,
        },
{
    let n = g.packages.len();
    if !graph_edges_consistent(g) {
        return (Err(GraphError::InconsistentGraph), Ghost(Seq::empty()));
    }
    if !members_consistent(g, members) {
        return (Err(GraphError::InconsistentGraph), Ghost(Seq::empty()));
    }
    let mut visited: Vec<bool> = vec![false; n];
    let mut stack: Vec<usize> = Vec::new();
    push_all(&mut stack, members);
    let mut dirs: Vec<Vec<String>> = Vec::new();
    let ghost mut ix: Seq<int> = Seq::empty();
    let ghost mut vset: Set<int> = Set::empty();
    proof {
        assert(vset =~= Set::<int>::new(|p: int| 0 <= p < n && visited@[p]));
        lemma_int_range(0, n as int);
        assert(vset.subset_of(set_int_range(0, n as int)));
        lemma_len_subset(vset, set_int_range(0, n as int));
        assert(stack@ =~= members@);
        assert forall|s: int|
            0 <= s < stack@.len() implies reachable(
            g.packages@,
            members@,
            (#[trigger] stack@[s]) as int,
        ) by {
            let v = members@[s] as int;
            assert(has_path(g.packages@, v, v, 0));
        }
        assert forall|i: int|
            0 <= i < members@.len() implies visited@[(#[trigger] members@[i]) as int]
            || stack@.contains(members@[i]) by {
            assert(stack@[i] == members@[i]);
        }
    }
    while stack.len() > 0
        invariant
            n == g.packages@.len(),
            graph_wf(g.packages@),
            members_wf(g.packages@, members@),
            visited@.len() == n,
            vset == Set::<int>::new(|p: int| 0 <= p < n && visited@[p]),
            vset.finite(),
            vset.len() <= n,
            forall|s: int| 0 <= s < stack@.len() ==> (#[trigger] stack@[s]) < n,
            forall|s: int|
                0 <= s < stack@.len() ==> reachable(
                    g.packages@,
                    members@,
                    (#[trigger] stack@[s]) as int,
                ),
            forall|p: int|
                0 <= p < n && visited@[p] ==> reachable(g.packages@, members@, p),
            forall|p: int, j: int|
                0 <= p < n && visited@[p] && 0 <= j < g.packages@[p].deps@.len()
                    ==> visited@[(#[trigger] g.packages@[p].deps@[j]) as int] || stack@.contains(
                    g.packages@[p].deps@[j],
                ),
            forall|i: int|
                0 <= i < members@.len() ==> visited@[(#[trigger] members@[i]) as int]
                    || stack@.contains(members@[i]),
            dirs@.len() == ix.len(),
            forall|k: int| 0 <= k < ix.len() ==> 0 <= #[trigger] ix[k] < n,
            forall|k: int| 0 <= k < ix.len() ==> (#[trigger] dirs@[k])@ == g.packages@[ix[k]].root@,
            forall|k: int| 0 <= k < ix.len() ==> visited@[#[trigger] ix[k]],
            forall|k: int|
                0 <= k < ix.len() ==> is_seq_prefix(
                    segs_view(ws_root@),
                    segs_view(g.packages@[#[trigger] ix[k]].root@),
                ),
            forall|k1: int, k2: int|
                0 <= k1 < ix.len() && 0 <= k2 < ix.len() && k1 != k2 ==> #[trigger] ix[k1]
                    != #[trigger] ix[k2],
            forall|p: int|
                0 <= p < n && visited@[p] && is_seq_prefix(
                    segs_view(ws_root@),
                    segs_view(g.packages@[p].root@),
                ) ==> ix.contains(p),
        decreases n - vset.len(), stack@.len(),
    {
        let ghost stack0 = stack@;
        let ghost visited0 = visited@;
        let popped = stack.pop();
        let i: usize = match popped {
            Some(v) => v,
            None => {
                proof {
                    assert(false);
                }
                0
            },
        };
        let ghost stack1 = stack@;
        proof {
            assert forall|x: usize| stack0.contains(x) implies x == i || stack1.contains(x) by {
                let s = choose|s: int| 0 <= s < stack0.len() && stack0[s] == x;
                if s < stack0.len() - 1 {
                    assert(stack1[s] == x);
                }
            }
        }
        if !visited[i] {
            visited.set(i, true);
            proof {
                let ghost new_vset = Set::<int>::new(|p: int| 0 <= p < n && visited@[p]);
                assert(new_vset =~= vset.insert(i as int));
                assert(!vset.contains(i as int));
                vset = new_vset;
                lemma_int_range(0, n as int);
                assert(vset.subset_of(set_int_range(0, n as int)));
                lemma_len_subset(vset, set_int_range(0, n as int));
                assert(vset.len() <= n);
            }
            let ghost ix0 = ix;
            let under = is_segs_prefix(ws_root, &g.packages[i].root);
            if under {
                let d = clone_segments(&g.packages[i].root);
                dirs.push(d);
                proof {
                    assert(forall|k: int| 0 <= k < ix.len() ==> #[trigger] ix[k] != i as int);
                    ix = ix.push(i as int);
                }
            }
            proof {
                assert forall|k: int| 0 <= k < ix0.len() implies ix.contains(#[trigger] ix0[k])
                    by {
                    assert(ix[k] == ix0[k]);
                }
                assert forall|p: int|
                    0 <= p < n && visited@[p] && is_seq_prefix(
                        segs_view(ws_root@),
                        segs_view(g.packages@[p].root@),
                    ) implies ix.contains(p) by {
                    if p == i as int {
                        assert(under);
                        assert(ix[ix.len() - 1] == i as int);
                    } else {
                        assert(visited0[p]);
                        assert(ix0.contains(p));
                    }
                }
            }
            push_all(&mut stack, &g.packages[i].deps);
            proof {
                let gdeps = g.packages@[i as int].deps@;
                assert(stack@ == stack1 + gdeps);
                assert forall|x: usize| stack1.contains(x) implies stack@.contains(x) by {
                    let s = choose|s: int| 0 <= s < stack1.len() && stack1[s] == x;
                    assert(stack@[s] == x);
                }
                assert forall|j: int| 0 <= j < gdeps.len() implies stack@.contains(
                    #[trigger] gdeps[j],
                ) by {
                    assert(stack@[stack1.len() + j] == gdeps[j]);
                }
                assert forall|p: int, j: int|
                    0 <= p < n && visited@[p] && 0 <= j < g.packages@[p].deps@.len()
                        implies visited@[(#[trigger] g.packages@[p].deps@[j]) as int]
                    || stack@.contains(g.packages@[p].deps@[j]) by {
                    let dep = g.packages@[p].deps@[j];
                    if p == i as int {
                        assert(stack@.contains(dep));
                    } else {
                        assert(visited0[p]);
                        assert(visited0[dep as int] || stack0.contains(dep));
                        if !visited0[dep as int] {
                            assert(dep == i || stack1.contains(dep));
                        }
                    }
                }
                assert forall|ii: int|
                    0 <= ii < members@.len() implies visited@[(#[trigger] members@[ii]) as int]
                    || stack@.contains(members@[ii]) by {
                    let x = members@[ii];
                    assert(visited0[x as int] || stack0.contains(x));
                    if !visited0[x as int] {
                        assert(x == i || stack1.contains(x));
                    }
                }
                assert forall|s: int|
                    0 <= s < stack@.len() implies reachable(
                    g.packages@,
                    members@,
                    (#[trigger] stack@[s]) as int,
                ) by {
                    if s >= stack1.len() {
                        assert(stack@[s] == gdeps[s - stack1.len()]);
                        lemma_reachable_step(g.packages@, members@, i as int, s - stack1.len());
                    } else {
                        assert(stack@[s] == stack1[s]);
                        assert(stack1[s] == stack0[s]);
                    }
                }
            }
        } else {
            proof {
                assert forall|p: int, j: int|
                    0 <= p < n && visited@[p] && 0 <= j < g.packages@[p].deps@.len()
                        implies visited@[(#[trigger] g.packages@[p].deps@[j]) as int]
                    || stack@.contains(g.packages@[p].deps@[j]) by {
                    let dep = g.packages@[p].deps@[j];
                    assert(visited0[dep as int] || stack0.contains(dep));
                    if !visited0[dep as int] {
                        assert(dep == i || stack1.contains(dep));
                        assert(visited@[i as int]);
                    }
                }
                assert forall|ii: int|
                    0 <= ii < members@.len() implies visited@[(#[trigger] members@[ii]) as int]
                    || stack@.contains(members@[ii]) by {
                    let x = members@[ii];
                    assert(visited0[x as int] || stack0.contains(x));
                    if !visited0[x as int] {
                        assert(x == i || stack1.contains(x));
                        assert(visited@[i as int]);
                    }
                }
            }
        }
    }
    proof {
        assert forall|p: int|
            0 <= p < n && reachable(g.packages@, members@, p) && is_seq_prefix(
                segs_view(ws_root@),
                segs_view(g.packages@[p].root@),
            ) implies ix.contains(p) by {
            let (m, k): (int, nat) = choose|m: int, k: nat|
                0 <= m < members@.len() && has_path(g.packages@, members@[m] as int, p, k);
            lemma_path_stays_in_closed(g.packages@, visited@, members@[m] as int, p, k);
        }
        assert(collected(g.packages@, members@, segs_view(ws_root@), ix, dirs@));
    }
    (Ok(dirs), Ghost(ix))
}

} // verus!
