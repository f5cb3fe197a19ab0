use river_network::graph::graph_from_triangles;
use river_network::network::Network;
use river_network::site::Site;
use river_network::types::{NumericProperty, Property, State, Weight};
use terrain_graph::undirected::UndirectedGraph;

fn line_sites(n: usize) -> Vec<Site> {
    (0..n).map(|i| Site { x: 10 * i as i32, y: 0 }).collect()
}

fn line_network(n: usize) -> Network {
    let mut g = UndirectedGraph::new(n);
    for i in 1..n {
        g.add_edge(i - 1, i);
    }
    Network::new(line_sites(n), g).unwrap()
}

fn prop(state: State, parent: Option<usize>) -> Property {
    Property { state, parent }
}

fn states(net: &Network) -> Vec<Property> {
    (0..net.num_sites()).map(|i| net.property(i)).collect()
}

fn total(p: &NumericProperty) -> u128 {
    p.state_none + p.state_live + p.state_path + p.state_dead + p.state_wall
}

#[test]
fn new_network_is_dormant() {
    let net = line_network(3);
    assert_eq!(net.num_sites(), 3);
    assert_eq!(net.lifetime(), None);
    for p in states(&net) {
        assert_eq!(p, prop(State::Dormant, None));
    }
}

#[test]
fn new_rejects_mismatched_graph() {
    let g = UndirectedGraph::new(2);
    assert!(Network::new(line_sites(3), g).is_none());
}

#[test]
fn iterate_without_lifetime_does_nothing() {
    let mut net = line_network(3);
    net.set_start(0);
    assert!(!net.iterate());
    assert_eq!(net.property(0), prop(State::Live(0), None));
    assert_eq!(net.property(1), prop(State::Dormant, None));
}

#[test]
fn line_growth_scenario() {
    let mut net = line_network(5);
    net.set_lifetime(2);
    net.set_start(0);
    assert!(net.iterate());
    assert_eq!(
        states(&net),
        vec![
            prop(State::Live(1), None),
            prop(State::Live(0), Some(0)),
            prop(State::Dormant, None),
            prop(State::Dormant, None),
            prop(State::Dormant, None),
        ]
    );
    assert!(net.iterate());
    assert_eq!(
        states(&net),
        vec![
            prop(State::Path(1), None),
            prop(State::Live(1), Some(0)),
            prop(State::Live(0), Some(1)),
            prop(State::Dormant, None),
            prop(State::Dormant, None),
        ]
    );
    assert!(net.iterate());
    assert_eq!(
        states(&net),
        vec![
            prop(State::Path(1), None),
            prop(State::Path(2), Some(0)),
            prop(State::Live(1), Some(1)),
            prop(State::Live(0), Some(2)),
            prop(State::Dormant, None),
        ]
    );
}

#[test]
fn isolated_site_dies_without_path() {
    let g = UndirectedGraph::new(2);
    let mut net = Network::new(line_sites(2), g).unwrap();
    net.set_lifetime(3);
    net.set_start(0);
    assert!(net.iterate());
    assert_eq!(net.property(0), prop(State::Live(1), None));
    assert!(net.iterate());
    assert_eq!(net.property(0), prop(State::Live(2), None));
    assert!(net.iterate());
    assert_eq!(net.property(0), prop(State::Dead, None));
    for _ in 0..4 {
        assert!(net.iterate());
        assert_eq!(net.property(0), prop(State::Dead, None));
        assert_eq!(net.property(1), prop(State::Dormant, None));
    }
}

#[test]
fn live_site_ages_then_resolves() {
    let mut net = line_network(2);
    net.set_lifetime(4);
    net.set_start(0);
    for age in 1..4 {
        assert!(net.iterate());
        assert_eq!(net.property(0).state, State::Live(age));
    }
    assert!(net.iterate());
    assert_eq!(net.property(0).state, State::Path(1));
}

#[test]
fn dead_end_branch_dies() {
    let mut net = line_network(2);
    net.set_lifetime(1);
    net.set_start(1);
    assert!(net.iterate());
    assert_eq!(net.property(1), prop(State::Dead, None));
    assert_eq!(net.property(0), prop(State::Live(0), Some(1)));
    assert!(net.iterate());
    assert_eq!(net.property(0), prop(State::Dead, None));
}

#[test]
fn live_site_without_child_dies() {
    let mut net = line_network(3);
    net.set_lifetime(1);
    net.set_start(0);
    assert!(net.iterate());
    assert_eq!(net.property(0), prop(State::Dead, None));
    assert_eq!(net.property(1), prop(State::Live(0), Some(0)));
    assert!(net.iterate());
    assert_eq!(net.property(1), prop(State::Dead, None));
    assert_eq!(net.property(2), prop(State::Live(0), Some(1)));
    assert!(net.iterate());
    assert_eq!(net.property(2), prop(State::Dead, None));
}

#[test]
fn path_dies_when_child_dies() {
    let mut net = line_network(3);
    net.set_lifetime(2);
    net.set_start(0);
    for _ in 0..3 {
        assert!(net.iterate());
    }
    assert_eq!(
        states(&net),
        vec![prop(State::Path(1), None), prop(State::Path(2), Some(0)), prop(State::Live(1), Some(1))]
    );
    assert!(net.iterate());
    assert_eq!(
        states(&net),
        vec![prop(State::Path(1), None), prop(State::Path(2), Some(0)), prop(State::Dead, None)]
    );
    assert!(net.iterate());
    assert_eq!(
        states(&net),
        vec![prop(State::Path(1), None), prop(State::Dead, None), prop(State::Dead, None)]
    );
    assert!(net.iterate());
    assert_eq!(
        states(&net),
        vec![prop(State::Dead, None), prop(State::Dead, None), prop(State::Dead, None)]
    );
}

#[test]
fn seed_overwrites_one_site_only() {
    let mut net = line_network(4);
    net.set_wall(1, 0);
    let before = states(&net);
    net.set_start(1);
    let after = states(&net);
    for i in 0..4 {
        if i == 1 {
            assert_eq!(after[i], prop(State::Live(0), None));
        } else {
            assert_eq!(after[i], before[i]);
        }
    }
    assert_eq!(after[0], prop(State::Wall, None));
}

#[test]
fn wall_is_fixed_under_steps() {
    let mut net = line_network(3);
    net.set_lifetime(5);
    net.set_wall(1, 1);
    net.set_start(0);
    net.set_start(2);
    for _ in 0..8 {
        assert!(net.iterate());
        assert_eq!(net.property(1), prop(State::Wall, None));
    }
}

#[test]
fn wall_blocks_growth() {
    let mut net = line_network(3);
    net.set_lifetime(10);
    net.set_wall(1, 1);
    net.set_start(0);
    for _ in 0..5 {
        assert!(net.iterate());
    }
    assert_eq!(net.property(2), prop(State::Dormant, None));
}

#[test]
fn steps_are_deterministic() {
    let mut a = line_network(6);
    let mut b = line_network(6);
    for net in [&mut a, &mut b] {
        net.set_lifetime(3);
        net.set_start(2);
    }
    for _ in 0..5 {
        assert!(a.iterate());
        assert!(b.iterate());
        assert_eq!(states(&a), states(&b));
    }
}

#[test]
fn parent_tie_prefers_later_neighbor() {
    // site 2 sits between sites 0 and 1 at equal distance
    let sites = vec![Site { x: 0, y: 0 }, Site { x: 20, y: 0 }, Site { x: 10, y: 0 }];
    let mut g = UndirectedGraph::new(3);
    g.add_edge(2, 0);
    g.add_edge(2, 1);
    let mut net = Network::new(sites, g).unwrap();
    net.set_lifetime(5);
    net.set_start(0);
    net.set_start(1);
    assert!(net.iterate());
    assert_eq!(net.property(2), prop(State::Live(0), Some(1)));
}

#[test]
fn parent_is_nearest_live_neighbor() {
    let sites = vec![Site { x: 0, y: 0 }, Site { x: 30, y: 0 }, Site { x: 10, y: 0 }];
    let mut g = UndirectedGraph::new(3);
    g.add_edge(2, 0);
    g.add_edge(2, 1);
    let mut net = Network::new(sites, g).unwrap();
    net.set_lifetime(5);
    net.set_start(0);
    net.set_start(1);
    assert!(net.iterate());
    assert_eq!(net.property(2), prop(State::Live(0), Some(0)));
}

#[test]
fn fork_keeps_first_child() {
    // site 0 with two neighbors, both grown from it
    let sites = vec![Site { x: 0, y: 0 }, Site { x: 10, y: 0 }, Site { x: -10, y: 0 }];
    let mut g = UndirectedGraph::new(3);
    g.add_edge(0, 1);
    g.add_edge(0, 2);
    let mut net = Network::new(sites, g).unwrap();
    net.set_lifetime(2);
    net.set_start(0);
    assert!(net.iterate());
    assert!(net.iterate());
    assert_eq!(net.property(0), prop(State::Path(1), None));
}

#[test]
fn search_path_along_line() {
    let net = line_network(5);
    assert_eq!(net.seartch_path(0, 4), Some(vec![0, 1, 2, 3, 4]));
    assert_eq!(net.seartch_path(3, 1), Some(vec![3, 2, 1]));
    assert_eq!(net.seartch_path(2, 2), Some(vec![2]));
}

#[test]
fn search_path_fails_on_isolated_site() {
    let g = UndirectedGraph::new(2);
    let net = Network::new(line_sites(2), g).unwrap();
    assert_eq!(net.seartch_path(0, 1), None);
}

#[test]
fn search_path_gives_up_on_a_cycle() {
    let mut g = UndirectedGraph::new(3);
    g.add_edge(0, 1);
    let net = Network::new(line_sites(3), g).unwrap();
    assert_eq!(net.seartch_path(0, 2), None);
}

#[test]
fn search_path_tie_takes_first_neighbor() {
    // sites 1 and 2 are equally far from the target 3
    let sites = vec![
        Site { x: 0, y: 0 },
        Site { x: 10, y: 10 },
        Site { x: 10, y: -10 },
        Site { x: 20, y: 0 },
    ];
    let mut g = UndirectedGraph::new(4);
    g.add_edge(0, 1);
    g.add_edge(0, 2);
    g.add_edge(1, 3);
    g.add_edge(2, 3);
    let net = Network::new(sites, g).unwrap();
    assert_eq!(net.seartch_path(0, 3), Some(vec![0, 1, 3]));
}

#[test]
fn wall_between_neighbors_marks_two_sites() {
    let mut net = line_network(5);
    net.set_start(2);
    net.set_wall(3, 2);
    assert_eq!(
        states(&net),
        vec![
            prop(State::Dormant, None),
            prop(State::Dormant, None),
            prop(State::Wall, None),
            prop(State::Wall, None),
            prop(State::Dormant, None),
        ]
    );
}

#[test]
fn wall_without_path_changes_nothing() {
    let mut g = UndirectedGraph::new(3);
    g.add_edge(0, 1);
    let mut net = Network::new(line_sites(3), g).unwrap();
    net.set_start(0);
    let before = states(&net);
    net.set_wall(2, 0);
    assert_eq!(states(&net), before);
}

#[test]
fn one_hot_sums_to_one() {
    let all = [State::Dormant, State::Live(3), State::Path(1), State::Dead, State::Wall];
    for s in all {
        let p = NumericProperty::from(prop(s, None));
        assert_eq!(total(&p), 1);
    }
    let p = NumericProperty::from(prop(State::Path(4), Some(2)));
    assert_eq!(p.state_path, 1);
    assert_eq!(p.state_none + p.state_live + p.state_dead + p.state_wall, 0);
}

#[test]
fn property_of_site() {
    let mut net = line_network(3);
    net.set_start(1);
    let p = net.property_of(1).unwrap();
    assert_eq!(p.state_live, 1);
    assert_eq!(total(&p), 1);
    assert_eq!(net.property_of(0).unwrap().state_none, 1);
    assert!(net.property_of(3).is_none());
}

#[test]
fn numeric_add_and_scale() {
    let a = NumericProperty { state_none: 1, state_live: 2, state_path: 3, state_dead: 4, state_wall: 5 };
    let b = NumericProperty { state_none: 10, state_live: 20, state_path: 30, state_dead: 40, state_wall: 50 };
    let s = a.add(&b);
    assert_eq!(s, NumericProperty { state_none: 11, state_live: 22, state_path: 33, state_dead: 44, state_wall: 55 });
    let m = a.mul_scala(7);
    assert_eq!(m, NumericProperty { state_none: 7, state_live: 14, state_path: 21, state_dead: 28, state_wall: 35 });
}

#[test]
fn cached_weights_follow_states() {
    let mut net = line_network(3);
    net.set_lifetime(3);
    let unit: u64 = 1 << 32;
    let key = net.add_cache(Some(vec![Weight::new(0, unit / 4), Weight::new(1, 3 * unit / 4)]));
    assert_eq!(key, 0);
    let p = net.get_property(key).unwrap();
    assert_eq!(p.state_none, unit as u128);
    assert_eq!(total(&p), unit as u128);

    net.set_start(0);
    let p = net.get_property(key).unwrap();
    assert_eq!(p.state_live, (unit / 4) as u128);
    assert_eq!(p.state_none, (3 * unit / 4) as u128);

    assert!(net.iterate());
    let p = net.get_property(key).unwrap();
    assert_eq!(p.state_live, unit as u128);
    assert_eq!(p.state_none, 0);
    assert_eq!(total(&p), unit as u128);
}

#[test]
fn cache_keys_are_fresh_and_first_write_wins() {
    let mut net = line_network(3);
    let k0 = net.add_cache(Some(vec![Weight::new(2, 100)]));
    let k1 = net.add_cache(None);
    let k2 = net.add_cache(Some(vec![]));
    let k3 = net.add_cache(Some(vec![Weight::new(0, 60), Weight::new(2, 40)]));
    assert_eq!((k0, k1, k2, k3), (0, 1, 2, 3));
    assert!(net.get_property(k1).is_none());
    assert!(net.get_property(k2).is_none());
    net.set_wall(2, 2);
    let p = net.get_property(k0).unwrap();
    assert_eq!(p, NumericProperty { state_none: 0, state_live: 0, state_path: 0, state_dead: 0, state_wall: 100 });
    let p = net.get_property(k3).unwrap();
    assert_eq!(p.state_none, 60);
    assert_eq!(p.state_wall, 40);
}

#[test]
fn blend_without_cache() {
    let mut net = line_network(2);
    net.set_start(1);
    let p = net.blend_weights(&Some(vec![Weight::new(0, 5), Weight::new(1, 9), Weight::new(1, 1)])).unwrap();
    assert_eq!(p.state_none, 5);
    assert_eq!(p.state_live, 10);
    assert!(net.blend_weights(&None).is_none());
    assert!(net.blend_weights(&Some(vec![])).is_none());
}

#[test]
fn squared_distance_exact() {
    let a = Site { x: 1, y: 2 };
    let b = Site { x: 4, y: -2 };
    assert_eq!(a.squared_distance(&b), 25);
    let c = Site { x: i32::MIN, y: i32::MIN };
    let d = Site { x: i32::MAX, y: i32::MAX };
    let e = (u32::MAX as u128) * (u32::MAX as u128);
    assert_eq!(c.squared_distance(&d), 2 * e);
}

#[test]
fn triangles_give_graph() {
    // two triangles sharing the side 1-2, listed in opposite directions
    let g = graph_from_triangles(4, &vec![0, 1, 2, 2, 1, 3]);
    assert_eq!(g.neighbors_of(0), &vec![1]);
    assert_eq!(g.neighbors_of(1), &vec![0, 2, 3]);
    assert_eq!(g.neighbors_of(2), &vec![1]);
    assert_eq!(g.neighbors_of(3), &vec![1]);
    assert_eq!(g.size(), 3);
}

#[test]
fn triangles_ignore_trailing_partial() {
    let g = graph_from_triangles(3, &vec![2, 0, 1, 0, 1]);
    assert_eq!(g.neighbors_of(0), &vec![1]);
    assert_eq!(g.neighbors_of(1), &vec![0, 2]);
    assert_eq!(g.neighbors_of(2), &vec![1]);
    assert_eq!(g.size(), 2);
}
