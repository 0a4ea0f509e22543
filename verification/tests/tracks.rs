use std::collections::HashSet;

use ryggattack::map::{RailMap, TRACK_GRID_SIZE, grid_edges, grid_neighbor_nodes, normalize_edge, seed_from_clock};
use ryggattack::path::{Heading, RailPath, choose_next_rail, junction_connections, junction_is_straight, next_path};

const NEG_Z: Heading = Heading { x: 0, y: 0, z: -1000 };
const POS_Z: Heading = Heading { x: 0, y: 0, z: 1000 };
const NEG_X: Heading = Heading { x: -1000, y: 0, z: 0 };
const ZERO: Heading = Heading { x: 0, y: 0, z: 0 };

fn connected_and_without_dead_ends(map: &RailMap) {
    assert!(map.neighbors().iter().all(|neighbors| neighbors.len() >= 2));

    let mut visited = HashSet::from([0]);
    let mut frontier = vec![0];
    while let Some(node) = frontier.pop() {
        for &neighbor in &map.neighbors()[node] {
            if visited.insert(neighbor) {
                frontier.push(neighbor);
            }
        }
    }
    assert_eq!(visited.len(), TRACK_GRID_SIZE * TRACK_GRID_SIZE);
}

#[test]
fn generated_maps_are_connected_and_have_no_dead_ends() {
    for seed in 1..=100 {
        let map = RailMap::from_seed(seed);
        connected_and_without_dead_ends(&map);
    }
}

#[test]
fn different_seeds_produce_different_maps() {
    assert_ne!(RailMap::from_seed(1).edges(), RailMap::from_seed(2).edges());
}

#[test]
fn the_same_seed_produces_the_same_map() {
    let map = RailMap::from_seed(42);
    assert_eq!(map.seed(), 42);
    assert_eq!(map.edges(), RailMap::from_seed(42).edges());
    assert_eq!(map.neighbors(), RailMap::from_seed(42).neighbors());
}

#[test]
fn a_map_from_the_clock_is_seeded_by_its_reading() {
    let map = RailMap::from_clock(1_700_000_000, 123_456_789);
    connected_and_without_dead_ends(&map);
    assert_eq!(map.seed(), seed_from_clock(1_700_000_000, 123_456_789));
    assert_eq!(map.seed(), 1_700_000_000 ^ (123_456_789u64 << 32));
    assert_eq!(map.edges(), RailMap::from_seed(map.seed()).edges());
}

#[test]
fn a_zero_seed_still_makes_a_map() {
    connected_and_without_dead_ends(&RailMap::from_seed(0));
}

#[test]
fn edges_are_sorted_and_listed_from_both_ends() {
    let map = RailMap::from_seed(7);
    assert!(map.edges().windows(2).all(|pair| pair[0] < pair[1]));
    for &(left, right) in map.edges() {
        assert!(left < right);
        assert!(map.neighbors()[left].contains(&right));
        assert!(map.neighbors()[right].contains(&left));
    }
    let ends: usize = map.neighbors().iter().map(Vec::len).sum();
    assert_eq!(ends, 2 * map.edges().len());
}

#[test]
fn the_grid_has_forty_edges_between_neighbours() {
    let edges = grid_edges();
    assert_eq!(edges.len(), 40);
    assert!(edges.contains(&(11, 12)));
    assert!(edges.contains(&(7, 12)));
    assert!(!edges.contains(&(4, 5)));
    assert_eq!(grid_neighbor_nodes(0), [None, Some(1), Some(5), None]);
    assert_eq!(grid_neighbor_nodes(12), [Some(7), Some(13), Some(17), Some(11)]);
    assert_eq!(grid_neighbor_nodes(24), [Some(19), None, None, Some(23)]);
    assert_eq!(normalize_edge(12, 7), (7, 12));
}

#[test]
fn the_clock_seed_mixes_seconds_and_nanoseconds() {
    assert_eq!(seed_from_clock(5, 0), 5);
    assert_eq!(seed_from_clock(0, 1), 1 << 32);
    assert_eq!(seed_from_clock(1 << 32, 1), 0);
}

#[test]
fn a_requested_turn_is_taken_at_a_junction() {
    let map = RailMap::from_edges(1, grid_edges());
    assert_eq!(choose_next_rail(&map, 11, 12, NEG_Z), 7);
}

#[test]
fn carts_cannot_reverse_at_a_junction() {
    let map = RailMap::from_edges(1, grid_edges());
    assert_ne!(choose_next_rail(&map, 11, 12, NEG_X), 11);
}

#[test]
fn without_a_request_a_cart_runs_straight_on() {
    let map = RailMap::from_edges(1, grid_edges());
    assert_eq!(choose_next_rail(&map, 11, 12, ZERO), 13);
    // A dead end is the one place a cart turns back.
    let spur = RailMap::from_edges(1, vec![(11, 12)]);
    assert_eq!(choose_next_rail(&spur, 11, 12, NEG_Z), 11);
}

// The routes' geometry is the game's floating-point code; this checks the
// library's part of it: how many routes a junction has, and how many turn.
#[test]
fn every_junction_route_joins_its_entrance_and_exit_smoothly() {
    let adjacent = [7, 11, 13, 17];
    for mask in 0_u32..16 {
        let neighbors: Vec<usize> = adjacent
            .into_iter()
            .enumerate()
            .filter_map(|(index, node)| (mask & (1 << index) != 0).then_some(node))
            .collect();
        if neighbors.len() < 2 {
            continue;
        }
        let map = RailMap::from_edges(1, neighbors.iter().map(|&neighbor| (12, neighbor)).collect());
        let connections = junction_connections(&map, 12);
        assert_eq!(connections.len(), neighbors.len() * (neighbors.len() - 1) / 2);
        let turns = connections.iter().filter(|&&(from, to)| !junction_is_straight(from, 12, to)).count();
        if neighbors.len() == 3 {
            assert_eq!(turns, 2);
        } else if neighbors.len() == 4 {
            assert_eq!(turns, 4);
        }
    }
}

// Distance travelled is the game's floating-point code; this checks the
// library's part: the route after each stretch, as `advance_cart` asks for it.
#[test]
fn turn_is_chosen_at_junction_entry_and_kept_until_exit() {
    let map = RailMap::from_edges(1, grid_edges());
    let approach = RailPath::Edge { from: 11, to: 12 };
    let turn = RailPath::Junction { from: 11, node: 12, to: 7 };
    assert_eq!(next_path(&map, approach, NEG_Z), turn);
    // Asking for another way once inside the junction changes nothing.
    assert_eq!(next_path(&map, turn, POS_Z), RailPath::Edge { from: 12, to: 7 });
}

#[test]
fn reversing_twice_gives_back_the_route() {
    for path in [
        RailPath::Edge { from: 11, to: 12 },
        RailPath::Junction { from: 11, node: 12, to: 7 },
        RailPath::Junction { from: 11, node: 12, to: 13 },
    ] {
        assert_ne!(path.reversed(), path);
        assert_eq!(path.reversed().reversed(), path);
    }
    assert_eq!(
        RailPath::Junction { from: 11, node: 12, to: 7 }.reversed(),
        RailPath::Junction { from: 7, node: 12, to: 11 }
    );
}

#[test]
fn every_cart_starts_from_its_own_corner() {
    let map = RailMap::from_seed(9);
    let corners: Vec<usize> = (0..4).map(|id| map.starting_route(id).0).collect();
    assert_eq!(corners, vec![0, 24, 20, 4]);
    for id in 0..4 {
        let (from, to) = map.starting_route(id);
        assert!(map.neighbors()[from].contains(&to));
    }
}
