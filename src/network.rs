use vstd::prelude::*;
use terrain_graph::undirected::UndirectedGraph;
use crate::graph::{adjacency, adj_in_range_check};
use crate::growth::{first_child_in, nearest_live, next_prop, step_of, state_ok, prop_ok, adj_in_range, lemma_step_ok};
use crate::site::{Site, sq_dist};
use crate::path::{closest_to, walk_from, greedy_path, lemma_greedy_path};
use crate::types::{Property, State, Weight, NumericProperty, blend, weight_on, component, one_hot, category, lemma_weight_on_bound, lemma_one_hot_total};

verus! {

/// A growth network: sites, their adjacency graph, the state of every site,
/// the growth lifetime, and the cached interpolation weight lists.
pub struct Network {
    sites: Vec<Site>,
    props: Vec<Property>,
    graph: UndirectedGraph,
    weights_cache: Vec<Option<Vec<Weight>>>,
    lifetime: Option<usize>,
}

/// The view of a cached weight list.
pub open spec fn entry_view(e: Option<Vec<Weight>>) -> Option<Seq<Weight>> {
    match e {
        Some(v) => Some(v@),
        None => None,
    }
}

/// The blend that a weight list gives over the states `props`: none where
/// the list is absent or empty.
pub open spec fn sample_of(e: Option<Seq<Weight>>, props: Seq<Property>) -> Option<NumericProperty> {
    match e {
        Some(ws) => if ws.len() > 0 { Some(blend(ws, props)) } else { None },
        None => None,
    }
}

/// A weight list names sites only.
pub open spec fn entry_in_range(e: Option<Seq<Weight>>, n: nat) -> bool {
    e matches Some(ws) ==> forall|k: int| 0 <= k < ws.len() ==> ws[k].index < n
}

impl Network {
    pub closed spec fn sites_view(&self) -> Seq<Site> {
        self.sites@
    }

    pub closed spec fn props_view(&self) -> Seq<Property> {
        self.props@
    }

    pub closed spec fn adj_view(&self) -> Seq<Seq<usize>> {
        adjacency(self.graph)
    }

    pub closed spec fn lifetime_view(&self) -> Option<usize> {
        self.lifetime
    }

    pub closed spec fn cache_view(&self) -> Seq<Option<Seq<Weight>>> {
        self.weights_cache@.map_values(|e: Option<Vec<Weight>>| entry_view(e))
    }

    /// The states agree with the graph, and every cached weight list names
    /// sites only.
    pub closed spec fn wf(&self) -> bool {
        &&& state_ok(self.sites@, adjacency(self.graph), self.props@)
        &&& forall|k: int| 0 <= k < self.weights_cache@.len()
            ==> entry_in_range(entry_view(#[trigger] self.weights_cache@[k]), self.sites@.len())
    }

    /// A network over `sites` and `graph`, every site dormant, no lifetime and
    /// no cached weights; `None` where the graph's vertex count differs from
    /// the number of sites or one of its lists names a vertex outside it.
    pub fn new(sites: Vec<Site>, graph: UndirectedGraph) -> (r: Option<Network>)
        ensures
            r is Some <==> adjacency(graph).len() == sites@.len() && adj_in_range(adjacency(graph)),
            r matches Some(net) ==> {
                &&& net.wf()
                &&& net.sites_view() == sites@
                &&& net.adj_view() == adjacency(graph)
                &&& net.props_view() == Seq::new(sites@.len(), |i: int| Property { state: State::Dormant, parent: None })
                &&& net.lifetime_view() is None
                &&& net.cache_view().len() == 0
            },
    {
        let n: usize = sites.len();
        if graph.order() != n || !adj_in_range_check(&graph) {
            return None;
        }
        let mut props: Vec<Property> = Vec::new();
        let mut i: usize = 0;
        while i < n
            invariant
                i <= n,
                props@ == Seq::new(i as nat, |j: int| Property { state: State::Dormant, parent: None }),
            decreases n - i,
        {
            props.push(Property { state: State::Dormant, parent: None });
            i = i + 1;
        }
        let net = Network { sites, props, graph, weights_cache: Vec::new(), lifetime: None };
        assert(net.cache_view() =~= Seq::empty());
        Some(net)
    }

    /// The first neighbor of `idx`, in adjacency order, whose parent is `idx`.
    fn find_child(&self, idx: usize) -> (r: Option<usize>)
        requires
            self.wf(),
            idx < self.props@.len(),
        ensures
            r == first_child_in(adjacency(self.graph)[idx as int], self.props@, idx as int),
    {
        let nbrs: &Vec<usize> = self.graph.neighbors_of(idx);
        let ghost all = nbrs@;
        let mut k: usize = 0;
        assert(all.subrange(0, all.len() as int) =~= all);
        while k < nbrs.len()
            invariant
                self.wf(),
                nbrs@ == all,
                all == adjacency(self.graph)[idx as int],
                idx < self.props@.len(),
                k <= all.len(),
                first_child_in(all, self.props@, idx as int)
                    == first_child_in(all.subrange(k as int, all.len() as int), self.props@, idx as int),
            decreases all.len() - k,
        {
            let nb: usize = nbrs[k];
            assert(all.subrange(k as int, all.len() as int).drop_first() =~= all.subrange(k + 1, all.len() as int));
            assert(adj_in_range(adjacency(self.graph)));
            if let Some(np) = self.props[nb].parent {
                if np == idx {
                    return Some(nb);
                }
            }
            k = k + 1;
        }
        None
    }

    /// The live neighbor of `idx` nearest to it; on equal distances, the one
    /// that comes last in adjacency order.
    fn nearest_live_neighbor(&self, idx: usize) -> (r: Option<usize>)
        requires
            self.wf(),
            idx < self.props@.len(),
        ensures
            r == nearest_live(adjacency(self.graph)[idx as int], self.props@, self.sites@, self.sites@[idx as int]),
    {
        let nbrs: &Vec<usize> = self.graph.neighbors_of(idx);
        let ghost all = nbrs@;
        let target: &Site = &self.sites[idx];
        let mut best: Option<usize> = None;
        let mut best_dist: u128 = 0;
        let mut k: usize = 0;
        while k < nbrs.len()
            invariant
                self.wf(),
                nbrs@ == all,
                all == adjacency(self.graph)[idx as int],
                idx < self.props@.len(),
                *target == self.sites@[idx as int],
                k <= all.len(),
                best == nearest_live(all.take(k as int), self.props@, self.sites@, *target),
                best matches Some(b) ==> b < self.sites@.len() && best_dist == sq_dist(*target, self.sites@[b as int]),
            decreases all.len() - k,
        {
            let nb: usize = nbrs[k];
            assert(all.take(k + 1).drop_last() =~= all.take(k as int));
            assert(adj_in_range(adjacency(self.graph)));
            if let State::Live(_) = self.props[nb].state {
                let d: u128 = target.squared_distance(&self.sites[nb]);
                let keep: bool = match best {
                    Some(_) => best_dist < d,
                    None => false,
                };
                if !keep {
                    best = Some(nb);
                    best_dist = d;
                }
            }
            k = k + 1;
        }
        assert(all.take(all.len() as int) =~= all);
        best
    }

    /// The state of site `idx` after one step under `lifetime`, read from the
    /// current states of all sites.
    fn calculate_next_prop(&self, idx: usize, lifetime: usize) -> (r: Property)
        requires
            self.wf(),
            idx < self.props@.len(),
        ensures
            r == next_prop(self.sites@, adjacency(self.graph), self.props@, idx as int, lifetime),
    {
        let p: Property = self.props[idx];
        assert(prop_ok(adjacency(self.graph), self.props@, idx as int));
        match p.state {
            State::Dormant => {
                match self.nearest_live_neighbor(idx) {
                    Some(j) => Property { state: State::Live(0), parent: Some(j) },
                    None => p,
                }
            },
            State::Live(age) => {
                let new_age: usize = age + 1;
                if new_age < lifetime {
                    Property { state: State::Live(new_age), parent: p.parent }
                } else {
                    match self.find_child(idx) {
                        Some(c) => Property { state: State::Path(c), parent: p.parent },
                        None => Property { state: State::Dead, parent: None },
                    }
                }
            },
            State::Path(c) => {
                assert(adj_in_range(adjacency(self.graph)));
                proof {
                    let k = choose|k: int| 0 <= k < adjacency(self.graph)[idx as int].len() && adjacency(self.graph)[idx as int][k] == c;
                }
                if self.props[c].parent == Some(idx) {
                    p
                } else {
                    match self.find_child(idx) {
                        Some(c2) => Property { state: State::Path(c2), parent: p.parent },
                        None => Property { state: State::Dead, parent: None },
                    }
                }
            },
            State::Dead => Property { state: State::Dead, parent: None },
            State::Wall => Property { state: State::Wall, parent: None },
        }
    }

    /// Advances every site by one synchronous step: each next state is read
    /// from the states before the step. Returns `false`, and changes nothing,
    /// while no lifetime is set.
    pub fn iterate(&mut self) -> (r: bool)
        requires
            old(self).wf(),
        ensures
            final(self).wf(),
            r == old(self).lifetime_view() is Some,
            final(self).props_view() == match old(self).lifetime_view() {
                Some(l) => step_of(old(self).sites_view(), old(self).adj_view(), old(self).props_view(), l),
                None => old(self).props_view(),
            },
            final(self).sites_view() == old(self).sites_view(),
            final(self).adj_view() == old(self).adj_view(),
            final(self).lifetime_view() == old(self).lifetime_view(),
            final(self).cache_view() == old(self).cache_view(),
    {
        let lifetime: usize = match self.lifetime {
            Some(l) => l,
            None => {
                return false;
            },
        };
        let n: usize = self.props.len();
        let mut next: Vec<Property> = Vec::new();
        let mut i: usize = 0;
        while i < n
            invariant
                self.wf(),
                n == self.props@.len(),
                i <= n,
                next@ =~= step_of(self.sites@, adjacency(self.graph), self.props@, lifetime).take(i as int),
            decreases n - i,
        {
            let p: Property = self.calculate_next_prop(i, lifetime);
            next.push(p);
            i = i + 1;
        }
        proof {
            lemma_step_ok(self.sites@, adjacency(self.graph), self.props@, lifetime);
            assert(next@ =~= step_of(self.sites@, adjacency(self.graph), self.props@, lifetime));
        }
        self.props = next;
        true
    }

    /// Makes site `site` live with age 0 and no parent, whatever its state was;
    /// no other site changes.
    pub fn set_start(&mut self, site: usize)
        requires
            old(self).wf(),
            site < old(self).props_view().len(),
        ensures
            final(self).wf(),
            final(self).props_view() == old(self).props_view().update(
                site as int,
                Property { state: State::Live(0), parent: None },
            ),
            final(self).sites_view() == old(self).sites_view(),
            final(self).adj_view() == old(self).adj_view(),
            final(self).lifetime_view() == old(self).lifetime_view(),
            final(self).cache_view() == old(self).cache_view(),
    {
        self.props.set(site, Property { state: State::Live(0), parent: None });
        proof {
            assert forall|i: int| 0 <= i < self.props@.len() implies prop_ok(adjacency(self.graph), self.props@, i) by {
                if i != site {
                    assert(prop_ok(adjacency(self.graph), old(self).props@, i));
                }
            }
        }
    }

    /// The neighbor of `cur` closest to site `to`; on equal distances, the one
    /// that comes first in adjacency order.
    fn closest_neighbor(&self, cur: usize, to: usize) -> (r: Option<usize>)
        requires
            self.wf(),
            cur < self.sites@.len(),
            to < self.sites@.len(),
        ensures
            r == closest_to(adjacency(self.graph)[cur as int], self.sites@, self.sites@[to as int]),
    {
        let nbrs: &Vec<usize> = self.graph.neighbors_of(cur);
        let ghost all = nbrs@;
        let target: &Site = &self.sites[to];
        let mut best: Option<usize> = None;
        let mut best_dist: u128 = 0;
        let mut k: usize = 0;
        while k < nbrs.len()
            invariant
                self.wf(),
                nbrs@ == all,
                all == adjacency(self.graph)[cur as int],
                cur < self.sites@.len(),
                *target == self.sites@[to as int],
                k <= all.len(),
                best == closest_to(all.take(k as int), self.sites@, *target),
                best matches Some(b) ==> b < self.sites@.len() && best_dist == sq_dist(self.sites@[b as int], *target),
            decreases all.len() - k,
        {
            let nb: usize = nbrs[k];
            assert(all.take(k + 1).drop_last() =~= all.take(k as int));
            assert(adj_in_range(adjacency(self.graph)));
            let d: u128 = self.sites[nb].squared_distance(target);
            let keep: bool = match best {
                Some(_) => best_dist <= d,
                None => false,
            };
            if !keep {
                best = Some(nb);
                best_dist = d;
            }
            k = k + 1;
        }
        assert(all.take(all.len() as int) =~= all);
        best
    }

    /// The greedy path from site `from` to site `to`: each move goes to the
    /// neighbor closest to `to`. `None` where a site on the way has no
    /// neighbor, or the walk has not arrived after as many moves as there are
    /// sites.
    pub fn seartch_path(&self, from: usize, to: usize) -> (r: Option<Vec<usize>>)
        requires
            self.wf(),
            from < self.sites_view().len(),
            to < self.sites_view().len(),
        ensures
            match r {
                Some(p) => greedy_path(self.sites_view(), self.adj_view(), from, to) == Some(p@),
                None => greedy_path(self.sites_view(), self.adj_view(), from, to) is None,
            },
    {
        let n: usize = self.sites.len();
        let mut current: usize = from;
        let mut path: Vec<usize> = Vec::new();
        let mut fuel: usize = n;
        while current != to
            invariant
                self.wf(),
                n == self.sites@.len(),
                current < n,
                to < n,
                walk_from(self.sites@, adjacency(self.graph), path@, current, to, fuel as nat)
                    == greedy_path(self.sites@, adjacency(self.graph), from, to),
            decreases fuel,
        {
            if fuel == 0 {
                return None;
            }
            match self.closest_neighbor(current, to) {
                Some(next) => {
                    proof {
                        crate::path::lemma_closest_to(adjacency(self.graph)[current as int], self.sites@, self.sites@[to as int]);
                        assert(adj_in_range(adjacency(self.graph)));
                        let k = choose|k: int| 0 <= k < adjacency(self.graph)[current as int].len()
                            && adjacency(self.graph)[current as int][k] == next;
                    }
                    path.push(current);
                    current = next;
                    fuel = fuel - 1;
                },
                None => {
                    return None;
                },
            }
        }
        path.push(current);
        Some(path)
    }

    /// Turns every site of the greedy path from `prev_site` to `site` into a
    /// wall without parent; where there is no such path nothing changes.
    pub fn set_wall(&mut self, site: usize, prev_site: usize)
        requires
            old(self).wf(),
            site < old(self).sites_view().len(),
            prev_site < old(self).sites_view().len(),
        ensures
            final(self).wf(),
            final(self).props_view() == match greedy_path(old(self).sites_view(), old(self).adj_view(), prev_site, site) {
                Some(p) => Seq::new(old(self).props_view().len(), |j: int|
                    if p.contains(j as usize) {
                        Property { state: State::Wall, parent: None }
                    } else {
                        old(self).props_view()[j]
                    }),
                None => old(self).props_view(),
            },
            final(self).sites_view() == old(self).sites_view(),
            final(self).adj_view() == old(self).adj_view(),
            final(self).lifetime_view() == old(self).lifetime_view(),
            final(self).cache_view() == old(self).cache_view(),
    {
        let found: Option<Vec<usize>> = self.seartch_path(prev_site, site);
        if let Some(path) = found {
            let ghost p = path@;
            let ghost before = self.props@;
            proof {
                lemma_greedy_path(self.sites@, adjacency(self.graph), prev_site, site);
            }
            let n_props: usize = self.props.len();
            let mut k: usize = 0;
            while k < path.len()
                invariant
                    self.wf(),
                    path@ == p,
                    before.len() == n_props,
                    k <= p.len(),
                    forall|i: int| 0 <= i < p.len() ==> p[i] < before.len(),
                    self.sites@ == old(self).sites@,
                    self.graph == old(self).graph,
                    self.lifetime == old(self).lifetime,
                    self.weights_cache == old(self).weights_cache,
                    before == old(self).props@,
                    self.props@ == Seq::new(before.len(), |j: int|
                        if p.take(k as int).contains(j as usize) {
                            Property { state: State::Wall, parent: None }
                        } else {
                            before[j]
                        }),
                decreases p.len() - k,
            {
                let idx: usize = path[k];
                let ghost cur = self.props@;
                self.props.set(idx, Property { state: State::Wall, parent: None });
                proof {
                    let prevk = p.take(k as int);
                    let nextk = p.take(k + 1);
                    assert forall|j: usize| #[trigger] nextk.contains(j) <==> (prevk.contains(j) || j == idx) by {
                        if j == idx {
                            assert(nextk[k as int] == idx);
                        } else if prevk.contains(j) {
                            let i = choose|i: int| 0 <= i < prevk.len() && prevk[i] == j;
                            assert(nextk[i] == j);
                        } else if nextk.contains(j) {
                            let i = choose|i: int| 0 <= i < nextk.len() && nextk[i] == j;
                            assert(prevk[i] == j);
                        }
                    }
                    assert forall|j: int| 0 <= j < before.len() implies self.props@[j] == (
                        if nextk.contains(j as usize) {
                            Property { state: State::Wall, parent: None }
                        } else {
                            before[j]
                        }) by {
                        assert(nextk.contains(j as usize) <==> (prevk.contains(j as usize) || j as usize == idx));
                        if j != idx {
                            assert(self.props@[j] == cur[j]);
                            assert(cur[j] == (if prevk.contains(j as usize) {
                                Property { state: State::Wall, parent: None }
                            } else {
                                before[j]
                            }));
                        }
                    }
                    assert(self.props@ =~= Seq::new(before.len(), |j: int|
                        if nextk.contains(j as usize) {
                            Property { state: State::Wall, parent: None }
                        } else {
                            before[j]
                        }));
                    assert forall|i: int| 0 <= i < self.props@.len() implies prop_ok(adjacency(self.graph), self.props@, i) by {
                        if i != idx {
                            assert(prop_ok(adjacency(self.graph), cur, i));
                        }
                    }
                }
                k = k + 1;
            }
            assert(p.take(p.len() as int) =~= p);
        }
    }

    /// Caches a weight list (or the absence of coverage) under a fresh key,
    /// the number of lists cached before, and returns that key.
    pub fn add_cache(&mut self, weights: Option<Vec<Weight>>) -> (r: usize)
        requires
            old(self).wf(),
            entry_in_range(entry_view(weights), old(self).sites_view().len()),
        ensures
            final(self).wf(),
            r == old(self).cache_view().len(),
            final(self).cache_view() == old(self).cache_view().push(entry_view(weights)),
            final(self).props_view() == old(self).props_view(),
            final(self).sites_view() == old(self).sites_view(),
            final(self).adj_view() == old(self).adj_view(),
            final(self).lifetime_view() == old(self).lifetime_view(),
    {
        let ghost w = weights;
        self.weights_cache.push(weights);
        assert(self.cache_view() =~= old(self).cache_view().push(entry_view(w)));
        self.weights_cache.len() - 1
    }

    /// The blend of the current states of the sites in the weight list cached
    /// under `key`; `None` where that list is absent or empty.
    pub fn get_property(&self, key: usize) -> (r: Option<NumericProperty>)
        requires
            self.wf(),
            key < self.cache_view().len(),
        ensures
            r == sample_of(self.cache_view()[key as int], self.props_view()),
    {
        assert(entry_in_range(entry_view(self.weights_cache@[key as int]), self.sites@.len()));
        self.blend_weights(&self.weights_cache[key])
    }

    /// The blend of the current states of the sites in `weights`, without
    /// caching the list; `None` where the list is absent or empty.
    pub fn blend_weights(&self, weights: &Option<Vec<Weight>>) -> (r: Option<NumericProperty>)
        requires
            self.wf(),
            entry_in_range(entry_view(*weights), self.sites_view().len()),
        ensures
            r == sample_of(entry_view(*weights), self.props_view()),
    {
        match weights {
            Some(ws) => {
                let mut acc: Option<NumericProperty> = None;
                let mut k: usize = 0;
                let len: usize = ws.len();
                while k < len
                    invariant
                        self.wf(),
                        k <= ws@.len(),
                        len == ws@.len(),
                        forall|i: int| 0 <= i < ws@.len() ==> ws@[i].index < self.props@.len(),
                        acc is None <==> k == 0,
                        acc matches Some(a) ==> forall|c: int| 0 <= c < 5
                            ==> component(a, c) == weight_on(ws@.take(k as int), self.props@, c),
                    decreases ws@.len() - k,
                {
                    let w: Weight = ws[k];
                    let one: NumericProperty = NumericProperty::from(self.props[w.index]);
                    assert forall|c: int| 0 <= c < 5 implies component(one, c) * w.weight <= u128::MAX by {
                        assert(component(one, c) <= 1);
                        assert(component(one, c) * w.weight <= w.weight) by (nonlinear_arith)
                            requires 0 <= component(one, c) <= 1, w.weight >= 0;
                    }
                    let x: NumericProperty = one.mul_scala(w.weight);
                    let ghost pre = ws@.take(k as int);
                    let ghost st = self.props@[w.index as int].state;
                    assert(ws@.take(k + 1).drop_last() =~= pre);
                    assert(ws@.take(k + 1).last() == w);
                    assert(one == one_hot(st));
                    assert forall|c: int| 0 <= c < 5 implies component(x, c) == if category(st) == c { w.weight as int } else { 0 } by {
                        lemma_one_hot_total(st);
                        assert(component(x, c) == component(one, c) * w.weight);
                        if category(st) == c {
                            assert(component(one, c) == 1);
                            assert(component(one, c) * w.weight == w.weight);
                        } else {
                            assert(component(one, c) == 0);
                            assert(component(one, c) * w.weight == 0);
                        }
                    }
                    let ghost prev_acc = acc;
                    acc = match acc {
                        Some(a) => {
                            assert forall|c: int| 0 <= c < 5 implies component(a, c) + component(x, c) <= u128::MAX by {
                                lemma_weight_on_bound(pre, self.props@, c);
                                assert(component(x, c) <= u64::MAX) by (nonlinear_arith)
                                    requires component(x, c) == component(one, c) * w.weight, 0 <= component(one, c) <= 1,
                                        w.weight <= u64::MAX;
                                assert(pre.len() * (u64::MAX as int) + u64::MAX <= u128::MAX) by (nonlinear_arith)
                                    requires pre.len() < usize::MAX, usize::MAX <= u64::MAX;
                            }
                            Some(a.add(&x))
                        },
                        None => {
                            assert(pre.len() == 0);
                            Some(x)
                        },
                    };
                    proof {
                        let a2 = acc->Some_0;
                        assert forall|c: int| 0 <= c < 5 implies component(a2, c) == weight_on(ws@.take(k + 1), self.props@, c) by {
                            assert(weight_on(ws@.take(k + 1), self.props@, c) == weight_on(pre, self.props@, c)
                                + if category(st) == c { w.weight as int } else { 0 });
                            if k == 0 {
                                assert(weight_on(pre, self.props@, c) == 0);
                            } else {
                                assert(component(prev_acc->Some_0, c) == weight_on(pre, self.props@, c));
                            }
                        }
                    }
                    k = k + 1;
                }
                proof {
                    assert(ws@.take(ws@.len() as int) =~= ws@);
                    if let Some(a) = acc {
                        assert(component(a, 0) == weight_on(ws@, self.props@, 0));
                        assert(component(a, 1) == weight_on(ws@, self.props@, 1));
                        assert(component(a, 2) == weight_on(ws@, self.props@, 2));
                        assert(component(a, 3) == weight_on(ws@, self.props@, 3));
                        assert(component(a, 4) == weight_on(ws@, self.props@, 4));
                    }
                }
                acc
            },
            None => None,
        }
    }

    /// The number of sites.
    pub fn num_sites(&self) -> (r: usize)
        ensures
            r == self.sites_view().len(),
    {
        self.sites.len()
    }

    /// The state and parent of site `idx`.
    pub fn property(&self, idx: usize) -> (r: Property)
        requires
            idx < self.props_view().len(),
        ensures
            r == self.props_view()[idx as int],
    {
        self.props[idx]
    }

    /// The one-hot encoding of the state of site `idx`; `None` where there is
    /// no such site.
    pub fn property_of(&self, idx: usize) -> (r: Option<NumericProperty>)
        requires
            self.wf(),
        ensures
            r == if idx < self.props_view().len() {
                Some(one_hot(self.props_view()[idx as int].state))
            } else {
                None::<NumericProperty>
            },
    {
        if idx < self.props.len() {
            Some(NumericProperty::from(self.props[idx]))
        } else {
            None
        }
    }

    /// The number of cached weight lists, which is also the next key.
    pub fn num_cached(&self) -> (r: usize)
        ensures
            r == self.cache_view().len(),
    {
        self.weights_cache.len()
    }

    /// The lifetime, where one is set.
    pub fn lifetime(&self) -> (r: Option<usize>)
        ensures
            r == self.lifetime_view(),
    {
        self.lifetime
    }

    /// Sets the number of steps a site stays live.
    pub fn set_lifetime(&mut self, lifetime: usize)
        requires
            old(self).wf(),
        ensures
            final(self).wf(),
            final(self).lifetime_view() == Some(lifetime),
            final(self).props_view() == old(self).props_view(),
            final(self).sites_view() == old(self).sites_view(),
            final(self).adj_view() == old(self).adj_view(),
            final(self).cache_view() == old(self).cache_view(),
    {
        self.lifetime = Some(lifetime);
    }
}

/// A step depends on the snapshot before it and on nothing else: two networks
/// with the same sites, graph, states and lifetime step to the same states.
pub proof fn lemma_step_deterministic(a: Network, b: Network)
    requires
        a.sites_view() == b.sites_view(),
        a.adj_view() == b.adj_view(),
        a.props_view() == b.props_view(),
        a.lifetime_view() == b.lifetime_view(),
    ensures
        a.lifetime_view() matches Some(l) ==> step_of(a.sites_view(), a.adj_view(), a.props_view(), l)
            == step_of(b.sites_view(), b.adj_view(), b.props_view(), l),
{
}

/// The weight list cached under a key is the one first written there: a
/// later network whose cache extends the earlier one (as after steps, seeds,
/// walls and further registrations) samples that key by blending its own
/// current states with the earlier list.
pub proof fn lemma_cached_weights_stable(earlier: Network, later: Network, key: int)
    requires
        0 <= key < earlier.cache_view().len(),
        earlier.cache_view().len() <= later.cache_view().len(),
        later.cache_view().take(earlier.cache_view().len() as int) == earlier.cache_view(),
    ensures
        sample_of(later.cache_view()[key], later.props_view())
            == sample_of(earlier.cache_view()[key], later.props_view()),
{
    assert(later.cache_view().take(earlier.cache_view().len() as int)[key] == later.cache_view()[key]);
}

/// Walls between neighbors: where `to` is a neighbor of `from` and no other
/// neighbor of `from` lies at the position of `to`, the greedy path is the
/// two sites alone, so a wall placed from `from` to `to` covers exactly those
/// two sites.
pub proof fn lemma_wall_between_neighbors(net: Network, from: usize, to: usize)
    requires
        net.wf(),
        from < net.sites_view().len(),
        to < net.sites_view().len(),
        from != to,
        net.adj_view()[from as int].contains(to),
        forall|k: int| 0 <= k < net.adj_view()[from as int].len() && net.adj_view()[from as int][k] != to
            ==> net.sites_view()[net.adj_view()[from as int][k] as int] != net.sites_view()[to as int],
    ensures
        greedy_path(net.sites_view(), net.adj_view(), from, to) == Some(seq![from, to]),
        forall|j: usize| seq![from, to].contains(j) <==> (j == from || j == to),
{
    crate::path::lemma_adjacent_path(net.sites_view(), net.adj_view(), from, to);
    assert forall|j: usize| seq![from, to].contains(j) <==> (j == from || j == to) by {
        if j == from {
            assert(seq![from, to][0] == j);
        }
        if j == to {
            assert(seq![from, to][1] == j);
        }
    }
}

} // verus!
