use vstd::prelude::*;
use crate::site::{Site, sq_dist};
use crate::types::{Property, State};

verus! {

/// The first of `nbrs`, in order, whose parent in `props` is site `i`.
pub open spec fn first_child_in(nbrs: Seq<usize>, props: Seq<Property>, i: int) -> Option<usize>
    decreases nbrs.len(),
{
    if nbrs.len() == 0 {
        None
    } else if props[nbrs[0] as int].parent == Some(i as usize) {
        Some(nbrs[0])
    } else {
        first_child_in(nbrs.drop_first(), props, i)
    }
}

/// The live member of `nbrs` nearest to `s`; of several at the same distance,
/// the one that comes last in `nbrs`.
pub open spec fn nearest_live(nbrs: Seq<usize>, props: Seq<Property>, sites: Seq<Site>, s: Site) -> Option<usize>
    decreases nbrs.len(),
{
    if nbrs.len() == 0 {
        None
    } else {
        let prev = nearest_live(nbrs.drop_last(), props, sites, s);
        let n = nbrs.last();
        if props[n as int].state is Live {
            match prev {
                Some(p) if sq_dist(s, sites[p as int]) < sq_dist(s, sites[n as int]) => Some(p),
                _ => Some(n),
            }
        } else {
            prev
        }
    }
}

/// The state of site `i` after one step, computed from the snapshot `props`
/// of all sites before the step.
pub open spec fn next_prop(
    sites: Seq<Site>,
    adj: Seq<Seq<usize>>,
    props: Seq<Property>,
    i: int,
    lifetime: usize,
) -> Property {
    let p = props[i];
    let nbrs = adj[i];
    match p.state {
        State::Dormant => match nearest_live(nbrs, props, sites, sites[i]) {
            Some(j) => Property { state: State::Live(0), parent: Some(j) },
            None => p,
        },
        State::Live(age) => if age + 1 < lifetime {
            Property { state: State::Live((age + 1) as usize), parent: p.parent }
        } else {
            match first_child_in(nbrs, props, i) {
                Some(c) => Property { state: State::Path(c), parent: p.parent },
                None => Property { state: State::Dead, parent: None },
            }
        },
        State::Path(c) => if props[c as int].parent == Some(i as usize) {
            p
        } else {
            match first_child_in(nbrs, props, i) {
                Some(c2) => Property { state: State::Path(c2), parent: p.parent },
                None => Property { state: State::Dead, parent: None },
            }
        },
        State::Dead => Property { state: State::Dead, parent: None },
        State::Wall => Property { state: State::Wall, parent: None },
    }
}

/// The states of all sites after one step.
pub open spec fn step_of(sites: Seq<Site>, adj: Seq<Seq<usize>>, props: Seq<Property>, lifetime: usize) -> Seq<Property> {
    Seq::new(props.len(), |i: int| next_prop(sites, adj, props, i, lifetime))
}

/// The adjacency lists name sites only.
pub open spec fn adj_in_range(adj: Seq<Seq<usize>>) -> bool {
    forall|i: int, k: int| 0 <= i < adj.len() && 0 <= k < adj[i].len() ==> adj[i][k] < adj.len()
}

/// What one site's state may hold: a parent or a child is a neighbor; an age
/// can still grow; only live sites and paths have a parent.
pub open spec fn prop_ok(adj: Seq<Seq<usize>>, props: Seq<Property>, i: int) -> bool {
    &&& (props[i].parent matches Some(j) ==> adj[i].contains(j))
    &&& (props[i].state matches State::Path(c) ==> adj[i].contains(c))
    &&& (props[i].state matches State::Live(a) ==> a < usize::MAX)
    &&& (!(props[i].state is Live || props[i].state is Path) ==> props[i].parent is None)
}

/// Sites, adjacency and states agree in length, and every state is consistent
/// with the graph.
pub open spec fn state_ok(sites: Seq<Site>, adj: Seq<Seq<usize>>, props: Seq<Property>) -> bool {
    &&& sites.len() == adj.len()
    &&& props.len() == adj.len()
    &&& adj_in_range(adj)
    &&& forall|i: int| 0 <= i < props.len() ==> prop_ok(adj, props, i)
}

proof fn lemma_first_child_in(nbrs: Seq<usize>, props: Seq<Property>, i: int)
    ensures
        first_child_in(nbrs, props, i) matches Some(c) ==> nbrs.contains(c),
    decreases nbrs.len(),
{
    if nbrs.len() > 0 {
        lemma_first_child_in(nbrs.drop_first(), props, i);
        if let Some(c) = first_child_in(nbrs.drop_first(), props, i) {
            if props[nbrs[0] as int].parent != Some(i as usize) {
                let k = choose|k: int| 0 <= k < nbrs.drop_first().len() && nbrs.drop_first()[k] == c;
                assert(nbrs[k + 1] == c);
            }
        }
    }
}

proof fn lemma_nearest_live(nbrs: Seq<usize>, props: Seq<Property>, sites: Seq<Site>, s: Site)
    ensures
        nearest_live(nbrs, props, sites, s) matches Some(j) ==> nbrs.contains(j),
    decreases nbrs.len(),
{
    if nbrs.len() > 0 {
        lemma_nearest_live(nbrs.drop_last(), props, sites, s);
        if let Some(j) = nearest_live(nbrs, props, sites, s) {
            if j != nbrs.last() {
                let k = choose|k: int| 0 <= k < nbrs.drop_last().len() && nbrs.drop_last()[k] == j;
                assert(nbrs[k] == j);
            } else {
                assert(nbrs[nbrs.len() - 1] == j);
            }
        }
    }
}

/// A step keeps every state consistent with the graph.
pub proof fn lemma_step_ok(sites: Seq<Site>, adj: Seq<Seq<usize>>, props: Seq<Property>, lifetime: usize)
    requires
        state_ok(sites, adj, props),
    ensures
        state_ok(sites, adj, step_of(sites, adj, props, lifetime)),
{
    let next = step_of(sites, adj, props, lifetime);
    assert forall|i: int| 0 <= i < next.len() implies prop_ok(adj, next, i) by {
        assert(prop_ok(adj, props, i));
        lemma_first_child_in(adj[i], props, i);
        lemma_nearest_live(adj[i], props, sites, sites[i]);
    }
}

/// A live site ages by exactly one per step while its next age stays below
/// the lifetime; otherwise the step turns it into a path or a dead site, never
/// leaving it live.
pub proof fn lemma_live_ages(sites: Seq<Site>, adj: Seq<Seq<usize>>, props: Seq<Property>, i: int, lifetime: usize)
    requires
        state_ok(sites, adj, props),
        0 <= i < props.len(),
        props[i].state is Live,
    ensures
        ({
            let age = props[i].state->Live_0;
            let next = step_of(sites, adj, props, lifetime)[i].state;
            if age + 1 < lifetime {
                next == State::Live((age + 1) as usize)
            } else {
                next is Path || next is Dead
            }
        }),
{
}

/// A wall stays a wall, whatever the lifetime and the states around it.
pub proof fn lemma_wall_fixed(sites: Seq<Site>, adj: Seq<Seq<usize>>, props: Seq<Property>, i: int, lifetime: usize)
    requires
        0 <= i < props.len(),
        props[i].state is Wall,
    ensures
        step_of(sites, adj, props, lifetime)[i].state is Wall,
{
}

/// A site with no neighbors never becomes a path: while dormant it stays
/// dormant, while live it only ages, and once its age reaches the lifetime it
/// is dead.
pub proof fn lemma_isolated_never_path(sites: Seq<Site>, adj: Seq<Seq<usize>>, props: Seq<Property>, i: int, lifetime: usize)
    requires
        state_ok(sites, adj, props),
        0 <= i < props.len(),
        adj[i].len() == 0,
    ensures
        !(step_of(sites, adj, props, lifetime)[i].state is Path),
        props[i].state is Dormant ==> step_of(sites, adj, props, lifetime)[i] == props[i],
        props[i].state matches State::Live(age) && age + 1 >= lifetime
            ==> step_of(sites, adj, props, lifetime)[i] == (Property { state: State::Dead, parent: None }),
{
    assert(prop_ok(adj, props, i));
    if props[i].state is Path {
        assert(adj[i].contains(props[i].state->Path_0));
    }
}

} // verus!
