use vstd::prelude::*;
use crate::site::{Site, sq_dist};
use crate::growth::adj_in_range;

verus! {

/// The member of `nbrs` nearest to `t`; of several at the same distance, the
/// one that comes first in `nbrs`.
pub open spec fn closest_to(nbrs: Seq<usize>, sites: Seq<Site>, t: Site) -> Option<usize>
    decreases nbrs.len(),
{
    if nbrs.len() == 0 {
        None
    } else {
        let prev = closest_to(nbrs.drop_last(), sites, t);
        let n = nbrs.last();
        match prev {
            Some(p) if sq_dist(sites[p as int], t) <= sq_dist(sites[n as int], t) => Some(p),
            _ => Some(n),
        }
    }
}

/// The greedy walk from `cur` towards `to`, after the sites `visited`: it
/// moves to the neighbor closest to `to` until it stands on `to`. It fails on
/// a site without neighbors, and after `fuel` moves.
pub open spec fn walk_from(
    sites: Seq<Site>,
    adj: Seq<Seq<usize>>,
    visited: Seq<usize>,
    cur: usize,
    to: usize,
    fuel: nat,
) -> Option<Seq<usize>>
    decreases fuel,
{
    if cur == to {
        Some(visited.push(cur))
    } else if fuel == 0 {
        None
    } else {
        match closest_to(adj[cur as int], sites, sites[to as int]) {
            Some(nx) => walk_from(sites, adj, visited.push(cur), nx, to, (fuel - 1) as nat),
            None => None,
        }
    }
}

/// The greedy path from `from` to `to`, with at most as many moves as there
/// are sites. A walk that has not arrived by then has met a site twice, and
/// from there on it repeats itself without arriving.
pub open spec fn greedy_path(sites: Seq<Site>, adj: Seq<Seq<usize>>, from: usize, to: usize) -> Option<Seq<usize>> {
    walk_from(sites, adj, Seq::empty(), from, to, sites.len())
}

/// Whether each site of `p` after the first is a neighbor of the one before.
pub open spec fn is_walk(adj: Seq<Seq<usize>>, p: Seq<usize>) -> bool {
    forall|k: int| 0 <= k < p.len() - 1 ==> adj[p[k] as int].contains(p[k + 1])
}

pub proof fn lemma_closest_to(nbrs: Seq<usize>, sites: Seq<Site>, t: Site)
    ensures
        closest_to(nbrs, sites, t) is Some <==> nbrs.len() > 0,
        closest_to(nbrs, sites, t) matches Some(j) ==> nbrs.contains(j),
    decreases nbrs.len(),
{
    if nbrs.len() > 0 {
        lemma_closest_to(nbrs.drop_last(), sites, t);
        if let Some(j) = closest_to(nbrs, sites, t) {
            if j != nbrs.last() {
                let k = choose|k: int| 0 <= k < nbrs.drop_last().len() && nbrs.drop_last()[k] == j;
                assert(nbrs[k] == j);
            } else {
                assert(nbrs[nbrs.len() - 1] == j);
            }
        }
    }
}

proof fn lemma_walk_from(
    sites: Seq<Site>,
    adj: Seq<Seq<usize>>,
    visited: Seq<usize>,
    cur: usize,
    to: usize,
    fuel: nat,
)
    requires
        adj_in_range(adj),
        sites.len() == adj.len(),
        cur < adj.len(),
        to < adj.len(),
    ensures
        walk_from(sites, adj, visited, cur, to, fuel) matches Some(p) ==> {
            &&& visited.len() < p.len() <= visited.len() + fuel + 1
            &&& p.take(visited.len() as int) == visited
            &&& p[visited.len() as int] == cur
            &&& p.last() == to
            &&& forall|k: int| visited.len() <= k < p.len() ==> p[k] < adj.len()
            &&& forall|k: int| visited.len() <= k < p.len() - 1 ==> adj[p[k] as int].contains(p[k + 1])
        },
    decreases fuel,
{
    if cur == to {
        let p = visited.push(cur);
        assert(p.take(visited.len() as int) =~= visited);
    } else if fuel > 0 {
        lemma_closest_to(adj[cur as int], sites, sites[to as int]);
        if let Some(nx) = closest_to(adj[cur as int], sites, sites[to as int]) {
            let k = choose|k: int| 0 <= k < adj[cur as int].len() && adj[cur as int][k] == nx;
            let v2 = visited.push(cur);
            lemma_walk_from(sites, adj, v2, nx, to, (fuel - 1) as nat);
            if let Some(p) = walk_from(sites, adj, v2, nx, to, (fuel - 1) as nat) {
                assert(p.take(v2.len() as int)[visited.len() as int] == cur);
                assert(p.take(visited.len() as int) =~= p.take(v2.len() as int).take(visited.len() as int));
                assert(v2.take(visited.len() as int) =~= visited);
            }
        }
    }
}

/// A greedy path, where one is found, starts at `from`, ends at `to`, moves
/// along edges of the graph only, and makes at most as many moves as there
/// are sites.
pub proof fn lemma_greedy_path(sites: Seq<Site>, adj: Seq<Seq<usize>>, from: usize, to: usize)
    requires
        adj_in_range(adj),
        sites.len() == adj.len(),
        from < adj.len(),
        to < adj.len(),
    ensures
        greedy_path(sites, adj, from, to) matches Some(p) ==> {
            &&& 1 <= p.len() <= sites.len() + 1
            &&& p[0] == from
            &&& p.last() == to
            &&& forall|k: int| 0 <= k < p.len() ==> p[k] < adj.len()
            &&& is_walk(adj, p)
        },
{
    lemma_walk_from(sites, adj, Seq::empty(), from, to, sites.len());
}

/// Where the two ends are neighbors, and no other neighbor of `from` lies at
/// the very position of `to`, the greedy path is the two ends alone.
pub proof fn lemma_adjacent_path(sites: Seq<Site>, adj: Seq<Seq<usize>>, from: usize, to: usize)
    requires
        adj_in_range(adj),
        sites.len() == adj.len(),
        from < adj.len(),
        to < adj.len(),
        from != to,
        adj[from as int].contains(to),
        forall|k: int| 0 <= k < adj[from as int].len() && adj[from as int][k] != to
            ==> sites[adj[from as int][k] as int] != sites[to as int],
    ensures
        greedy_path(sites, adj, from, to) == Some(seq![from, to]),
{
    assert forall|k: int| 0 <= k < adj[from as int].len()
        implies sq_dist(sites[to as int], sites[to as int]) <= sq_dist(sites[adj[from as int][k] as int], sites[to as int])
            && (sq_dist(sites[adj[from as int][k] as int], sites[to as int]) == 0 ==> adj[from as int][k] == to) by {
        let a = sites[adj[from as int][k] as int];
        let b = sites[to as int];
        assert((a.x - b.x) * (a.x - b.x) >= 0) by (nonlinear_arith);
        assert((a.y - b.y) * (a.y - b.y) >= 0) by (nonlinear_arith);
        if sq_dist(a, b) == 0 {
            assert((a.x - b.x) * (a.x - b.x) == 0);
            assert(a.x == b.x) by (nonlinear_arith) requires (a.x - b.x) * (a.x - b.x) == 0;
            assert(a.y == b.y) by (nonlinear_arith) requires (a.y - b.y) * (a.y - b.y) == 0;
        }
    }
    lemma_closest_unique_min(adj[from as int], sites, to);
    let p1 = Seq::<usize>::empty().push(from);
    assert(walk_from(sites, adj, p1, to, to, (sites.len() - 1) as nat) == Some(p1.push(to)));
    assert(p1.push(to) =~= seq![from, to]);
}

proof fn lemma_closest_unique_min(nbrs: Seq<usize>, sites: Seq<Site>, to: usize)
    requires
        nbrs.contains(to),
        forall|k: int| 0 <= k < nbrs.len()
            ==> sq_dist(sites[to as int], sites[to as int]) <= sq_dist(sites[nbrs[k] as int], sites[to as int])
            && (sq_dist(sites[nbrs[k] as int], sites[to as int]) == 0 ==> nbrs[k] == to),
    ensures
        closest_to(nbrs, sites, sites[to as int]) == Some(to),
    decreases nbrs.len(),
{
    let t = sites[to as int];
    if nbrs.last() == to {
        if nbrs.drop_last().contains(to) {
            lemma_closest_unique_min(nbrs.drop_last(), sites, to);
        } else {
            lemma_closest_none_or_far(nbrs.drop_last(), sites, to);
        }
    } else {
        let k = choose|k: int| 0 <= k < nbrs.len() && nbrs[k] == to;
        assert(nbrs.drop_last()[k] == to);
        lemma_closest_unique_min(nbrs.drop_last(), sites, to);
    }
}

proof fn lemma_closest_none_or_far(nbrs: Seq<usize>, sites: Seq<Site>, to: usize)
    requires
        forall|k: int| 0 <= k < nbrs.len()
            ==> sq_dist(sites[to as int], sites[to as int]) <= sq_dist(sites[nbrs[k] as int], sites[to as int])
            && (sq_dist(sites[nbrs[k] as int], sites[to as int]) == 0 ==> nbrs[k] == to),
        !nbrs.contains(to),
    ensures
        closest_to(nbrs, sites, sites[to as int]) matches Some(p) ==> sq_dist(sites[p as int], sites[to as int]) > 0,
{
    lemma_closest_to(nbrs, sites, sites[to as int]);
    if let Some(p) = closest_to(nbrs, sites, sites[to as int]) {
        let k = choose|k: int| 0 <= k < nbrs.len() && nbrs[k] == p;
    }
}

} // verus!
