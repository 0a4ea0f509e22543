//! The routes a cart follows: straight track between junctions, and the
//! curve or straight it takes through a junction. Which exit a cart takes is
//! decided here; where along a route it stands is the game's geometry.

use vstd::prelude::*;
use crate::map::{
    RailMap, adjacency_count, count_of, grid_adjacent, is_grid_edge, lemma_count_contains, lemma_grid_edges_exact,
    lemma_grid_map_on_grid, normalized, spec_grid_edges,
};

verus! {

/// One stretch of a cart's route.
#[derive(Clone, Copy, Debug, PartialEq, Eq, Structural)]
pub enum RailPath {
    /// Straight track from one junction to the next.
    Edge { from: usize, to: usize },
    /// Through junction `node`, entering from `from` and leaving towards `to`.
    Junction { from: usize, node: usize, to: usize },
}

impl RailPath {
    /// The same stretch travelled the other way.
    pub open spec fn flipped(self) -> Self {
        match self {
            RailPath::Edge { from, to } => RailPath::Edge { from: to, to: from },
            RailPath::Junction { from, node, to } => RailPath::Junction { from: to, node, to: from },
        }
    }

    pub fn reversed(self) -> (path: Self)
        ensures
            path == self.flipped(),
    {
        match self {
            RailPath::Edge { from, to } => RailPath::Edge { from: to, to: from },
            RailPath::Junction { from, node, to } => RailPath::Junction { from: to, node, to: from },
        }
    }
}

/// Reversing twice gives back the route.
pub proof fn lemma_reversed_twice(path: RailPath)
    ensures
        path.flipped().flipped() == path,
{
}

/// A direction a player or bot asks to turn in, in thousandths of a unit
/// along the ground's x axis, up, and the ground's z axis.
#[derive(Clone, Copy, Debug, PartialEq, Eq, Structural)]
pub struct Heading {
    pub x: i32,
    pub y: i32,
    pub z: i32,
}

/// Column of a junction; the ground's x grows with it.
pub open spec fn column(node: usize) -> int {
    (node % 5) as int
}

/// Row of a junction; the ground's z grows with it.
pub open spec fn row(node: usize) -> int {
    (node / 5) as int
}

/// The requested heading counts once it is longer than a tenth of a unit.
pub open spec fn is_requested(turn: Heading) -> bool {
    turn.x * turn.x + turn.y * turn.y + turn.z * turn.z > 10_000
}

/// The direction the cart wants at `current`: the requested heading, or else
/// straight on from `previous`.
pub open spec fn desired_direction(previous: usize, current: usize, turn: Heading) -> (int, int) {
    if is_requested(turn) {
        (turn.x as int, turn.z as int)
    } else {
        (column(current) - column(previous), row(current) - row(previous))
    }
}

/// How well leaving `current` towards `candidate` follows `desired`.
pub open spec fn turn_score(current: usize, candidate: usize, desired: (int, int)) -> int {
    desired.0 * (column(candidate) - column(current)) + desired.1 * (row(candidate) - row(current))
}

/// The exit a cart arriving at `current` from `previous` takes: among the
/// neighbours of `current` other than `previous`, the last one that follows
/// `turn` best; `previous` only when there is no other way out.
pub open spec fn is_chosen_exit(options: Seq<usize>, previous: usize, current: usize, turn: Heading, exit: usize) -> bool {
    let d = desired_direction(previous, current, turn);
    if forall|i: int| 0 <= i < options.len() ==> #[trigger] options[i] == previous {
        exit == previous
    } else {
        exists|k: int|
            #![trigger options[k]]
            0 <= k < options.len() && options[k] == exit && exit != previous
            && (forall|i: int| 0 <= i < options.len() && #[trigger] options[i] != previous ==> turn_score(current, options[i], d) <= turn_score(current, exit, d))
            && (forall|i: int| k < i < options.len() && #[trigger] options[i] != previous ==> turn_score(current, options[i], d) < turn_score(current, exit, d))
    }
}

/// Which way to leave `current` after arriving from `previous`. Carts never
/// turn back while there is any other way out.
pub fn choose_next_rail(rail_map: &RailMap, previous: usize, current: usize, requested_turn: Heading) -> (next: usize)
    requires
        rail_map.neighbor_lists().len() == 25,
        rail_map.on_grid(),
        current < 25,
    ensures
        is_chosen_exit(rail_map.neighbor_lists()[current as int]@, previous, current, requested_turn, next),
{
    let options = &rail_map.neighbors()[current];
    let ghost ns = options@;
    let x = requested_turn.x as i128;
    let y = requested_turn.y as i128;
    let z = requested_turn.z as i128;
    assert(0 <= x * x <= 0x4000_0000_0000_0000 && 0 <= y * y <= 0x4000_0000_0000_0000 && 0 <= z * z <= 0x4000_0000_0000_0000) by (nonlinear_arith)
        requires
            -0x8000_0000 <= x <= 0x7fff_ffff,
            -0x8000_0000 <= y <= 0x7fff_ffff,
            -0x8000_0000 <= z <= 0x7fff_ffff,
    ;
    let requested = x * x + y * y + z * z > 10_000;
    let (want_x, want_z): (i128, i128) = if requested {
        (requested_turn.x as i128, requested_turn.z as i128)
    } else {
        (
            (current % 5) as i128 - (previous % 5) as i128,
            (current / 5) as i128 - (previous / 5) as i128,
        )
    };
    let ghost d = desired_direction(previous, current, requested_turn);
    assert(d == (want_x as int, want_z as int));
    let mut best: Option<(usize, i128)> = None;
    let ghost mut best_index: int = 0;
    let mut i: usize = 0;
    while i < options.len()
        invariant
            ns == rail_map.neighbor_lists()[current as int]@,
            options@ == ns,
            rail_map.on_grid(),
            rail_map.neighbor_lists().len() == 25,
            current < 25,
            d == (want_x as int, want_z as int),
            -0x1_0000_0000_0000_0000 <= want_x <= 0x1_0000_0000_0000_0000,
            -0x1_0000_0000_0000_0000 <= want_z <= 0x1_0000_0000_0000_0000,
            i <= ns.len(),
            match best {
                None => forall|j: int| 0 <= j < i ==> #[trigger] ns[j] == previous,
                Some((exit, score)) => {
                    &&& 0 <= best_index < i
                    &&& ns[best_index] == exit
                    &&& exit != previous
                    &&& score == turn_score(current, exit, d)
                    &&& forall|j: int| 0 <= j < i && #[trigger] ns[j] != previous ==> turn_score(current, ns[j], d) <= score
                    &&& forall|j: int| best_index < j < i && #[trigger] ns[j] != previous ==> turn_score(current, ns[j], d) < score
                },
            },
        decreases ns.len() - i,
    {
        let candidate = options[i];
        if candidate != previous {
            proof {
                assert(grid_adjacent(current, ns[i as int]));
            }
            let step_x = (candidate % 5) as i128 - (current % 5) as i128;
            let step_z = (candidate / 5) as i128 - (current / 5) as i128;
            assert(-1 <= step_x <= 1 && -1 <= step_z <= 1);
            assert(-0x1_0000_0000_0000_0000 <= want_x * step_x <= 0x1_0000_0000_0000_0000
                && -0x1_0000_0000_0000_0000 <= want_z * step_z <= 0x1_0000_0000_0000_0000) by (nonlinear_arith)
                requires
                    -0x1_0000_0000_0000_0000 <= want_x <= 0x1_0000_0000_0000_0000,
                    -0x1_0000_0000_0000_0000 <= want_z <= 0x1_0000_0000_0000_0000,
                    -1 <= step_x <= 1,
                    -1 <= step_z <= 1,
            ;
            let score = want_x * step_x + want_z * step_z;
            let replace = match best {
                None => true,
                Some((_, top)) => score >= top,
            };
            if replace {
                best = Some((candidate, score));
                proof {
                    best_index = i as int;
                }
            }
        }
        i += 1;
    }
    match best {
        Some((exit, _)) => {
            assert(ns[best_index] == exit);
            exit
        },
        None => previous,
    }
}

/// Whether the route through `node` from `from` to `to` runs straight on.
pub fn junction_is_straight(from: usize, node: usize, to: usize) -> (straight: bool)
    ensures
        straight == (column(to) - column(node) == column(node) - column(from) && row(to) - row(node)
            == row(node) - row(from)),
{
    (to % 5) as i64 - (node % 5) as i64 == (node % 5) as i64 - (from % 5) as i64 && (to / 5) as i64
        - (node / 5) as i64 == (node / 5) as i64 - (from / 5) as i64
}

/// The stretch after `path` ends: an edge leads into a junction, where the
/// exit is chosen; a junction leads onto the edge it leaves by.
pub fn next_path(rail_map: &RailMap, path: RailPath, requested_turn: Heading) -> (next: RailPath)
    requires
        rail_map.neighbor_lists().len() == 25,
        rail_map.on_grid(),
        match path {
            RailPath::Edge { to, .. } => to < 25,
            RailPath::Junction { .. } => true,
        },
    ensures
        match path {
            RailPath::Edge { from, to } => next matches RailPath::Junction { from: f, node, to: exit }
                && f == from && node == to && is_chosen_exit(rail_map.neighbor_lists()[to as int]@, from, to, requested_turn, exit),
            RailPath::Junction { node, to, .. } => next == (RailPath::Edge { from: node, to }),
        },
{
    match path {
        RailPath::Edge { from, to: node } => RailPath::Junction {
            from,
            node,
            to: choose_next_rail(rail_map, from, node, requested_turn),
        },
        RailPath::Junction { node: from, to, .. } => RailPath::Edge { from, to },
    }
}

impl RailMap {
    /// `path` runs along track this map has.
    pub open spec fn carries(&self, path: RailPath) -> bool {
        match path {
            RailPath::Edge { from, to } => from < 25 && to < 25 && self.neighbor_lists()[from as int]@.contains(to),
            RailPath::Junction { from, node, to } => node < 25 && self.neighbor_lists()[node as int]@.contains(from)
                && self.neighbor_lists()[node as int]@.contains(to),
        }
    }
}

/// A cart on the track stays on the track: the stretch after one the map
/// carries is carried too, and starts where the last one ended.
pub proof fn lemma_next_path_stays_on_track(rail_map: RailMap, path: RailPath, requested_turn: Heading, next: RailPath)
    requires
        rail_map.wf(),
        rail_map.on_grid(),
        rail_map.carries(path),
        match path {
            RailPath::Edge { from, to } => next matches RailPath::Junction { from: f, node, to: exit }
                && f == from && node == to && is_chosen_exit(rail_map.neighbor_lists()[to as int]@, from, to, requested_turn, exit),
            RailPath::Junction { node, to, .. } => next == (RailPath::Edge { from: node, to }),
        },
    ensures
        rail_map.carries(next),
{
    match path {
        RailPath::Edge { from, to } => {
            let ns = rail_map.neighbor_lists()[to as int]@;
            lemma_count_contains(rail_map.neighbor_lists()[from as int]@, to);
            assert(count_of(rail_map.neighbor_lists()[from as int]@, to) == adjacency_count(rail_map.edge_list(), from, to));
            assert(count_of(ns, from) == adjacency_count(rail_map.edge_list(), to, from));
            lemma_count_contains(ns, from);
            if let RailPath::Junction { from: f, node, to: exit } = next {
                if !(forall|i: int| 0 <= i < ns.len() ==> #[trigger] ns[i] == from) {
                    let k = choose|k: int| 0 <= k < ns.len() && ns[k] == exit && exit != from && (forall|i: int| 0 <= i < ns.len() && #[trigger] ns[i] != from ==> turn_score(to, ns[i], desired_direction(from, to, requested_turn)) <= turn_score(to, exit, desired_direction(from, to, requested_turn))) && (forall|i: int| k < i < ns.len() && #[trigger] ns[i] != from ==> turn_score(to, ns[i], desired_direction(from, to, requested_turn)) < turn_score(to, exit, desired_direction(from, to, requested_turn)));
                    assert(ns.contains(exit));
                }
            }
        },
        RailPath::Junction { from, node, to } => {
            assert(to < 25) by {
                let ns = rail_map.neighbor_lists()[node as int]@;
                let i = choose|i: int| 0 <= i < ns.len() && ns[i] == to;
                assert(grid_adjacent(node, ns[i]));
            }
        },
    }
}

/// A requested turn along one of the grid's axes, `(step_x, step_z)` in
/// whole units held at any strength `strength` (in thousandths) that counts
/// as a request, takes the exit that lies that way whenever the junction has
/// one and it is not the way back.
pub proof fn lemma_requested_turn_is_taken(
    rail_map: RailMap,
    previous: usize,
    current: usize,
    step_x: int,
    step_z: int,
    strength: int,
    exit: usize,
    target: usize,
)
    requires
        rail_map.neighbor_lists().len() == 25,
        rail_map.on_grid(),
        current < 25,
        (step_x == 0 && (step_z == 1 || step_z == -1)) || (step_z == 0 && (step_x == 1 || step_x == -1)),
        100 < strength <= i32::MAX,
        rail_map.neighbor_lists()[current as int]@.contains(target),
        target != previous,
        column(target) - column(current) == step_x,
        row(target) - row(current) == step_z,
        is_chosen_exit(
            rail_map.neighbor_lists()[current as int]@,
            previous,
            current,
            Heading { x: (strength * step_x) as i32, y: 0, z: (strength * step_z) as i32 },
            exit,
        ),
    ensures
        exit == target,
{
    let turn = Heading { x: (strength * step_x) as i32, y: 0, z: (strength * step_z) as i32 };
    let ns = rail_map.neighbor_lists()[current as int]@;
    let d = desired_direction(previous, current, turn);
    assert(turn.x == strength * step_x && turn.z == strength * step_z) by (nonlinear_arith)
        requires
            100 < strength <= i32::MAX,
            (step_x == 0 && (step_z == 1 || step_z == -1)) || (step_z == 0 && (step_x == 1 || step_x == -1)),
            turn.x == (strength * step_x) as i32,
            turn.z == (strength * step_z) as i32,
    ;
    assert(turn.x * turn.x + turn.y * turn.y + turn.z * turn.z == strength * strength) by (nonlinear_arith)
        requires
            turn.x == strength * step_x,
            turn.z == strength * step_z,
            turn.y == 0,
            (step_x == 0 && (step_z == 1 || step_z == -1)) || (step_z == 0 && (step_x == 1 || step_x == -1)),
    ;
    assert(strength * strength > 10_000) by (nonlinear_arith)
        requires
            100 < strength,
    ;
    assert(d == (strength * step_x, strength * step_z));
    let t = choose|t: int| 0 <= t < ns.len() && ns[t] == target;
    assert(ns[t] != previous);
    assert(turn_score(current, target, d) == strength) by (nonlinear_arith)
        requires
            d == (strength * step_x, strength * step_z),
            turn_score(current, target, d) == d.0 * step_x + d.1 * step_z,
            (step_x == 0 && (step_z == 1 || step_z == -1)) || (step_z == 0 && (step_x == 1 || step_x == -1)),
    ;
    let k = choose|k: int| 0 <= k < ns.len() && ns[k] == exit && exit != previous && (forall|i: int| 0 <= i < ns.len() && #[trigger] ns[i] != previous ==> turn_score(current, ns[i], d) <= turn_score(current, exit, d)) && (forall|i: int| k < i < ns.len() && #[trigger] ns[i] != previous ==> turn_score(current, ns[i], d) < turn_score(current, exit, d));
    assert(turn_score(current, ns[t], d) <= turn_score(current, exit, d));
    assert(grid_adjacent(current, ns[k]));
    let ex = column(exit) - column(current);
    let ez = row(exit) - row(current);
    assert((ex == 0 && (ez == 1 || ez == -1)) || (ez == 0 && (ex == 1 || ex == -1)));
    assert(turn_score(current, exit, d) == d.0 * ex + d.1 * ez);
    assert(ex == step_x && ez == step_z) by (nonlinear_arith)
        requires
            d == (strength * step_x, strength * step_z),
            d.0 * ex + d.1 * ez >= strength,
            100 < strength,
            (ex == 0 && (ez == 1 || ez == -1)) || (ez == 0 && (ex == 1 || ex == -1)),
            (step_x == 0 && (step_z == 1 || step_z == -1)) || (step_z == 0 && (step_x == 1 || step_x == -1)),
    ;
    assert(exit == target) by (nonlinear_arith)
        requires
            exit % 5 == target % 5,
            exit / 5 == target / 5,
    ;
}

/// On the full grid, holding a direction along one of the grid's axes
/// while a cart approaches a junction takes the branch that lies that way,
/// whenever the grid has one there and it is not the way back.
pub proof fn lemma_full_grid_takes_requested_turn(
    rail_map: RailMap,
    previous: usize,
    current: usize,
    step_x: int,
    step_z: int,
    strength: int,
    exit: usize,
    target: usize,
)
    requires
        rail_map.wf(),
        forall|e: (usize, usize)| #[trigger] count_of(rail_map.edge_list(), e) == count_of(spec_grid_edges(), e),
        current < 25,
        target < 25,
        (step_x == 0 && (step_z == 1 || step_z == -1)) || (step_z == 0 && (step_x == 1 || step_x == -1)),
        100 < strength <= i32::MAX,
        target != previous,
        column(target) - column(current) == step_x,
        row(target) - row(current) == step_z,
        is_chosen_exit(
            rail_map.neighbor_lists()[current as int]@,
            previous,
            current,
            Heading { x: (strength * step_x) as i32, y: 0, z: (strength * step_z) as i32 },
            exit,
        ),
    ensures
        exit == target,
{
    lemma_grid_edges_exact();
    assert forall|e: (usize, usize)| #[trigger] rail_map.edge_list().contains(e) implies is_grid_edge(e) by {
        lemma_count_contains(rail_map.edge_list(), e);
        lemma_count_contains(spec_grid_edges(), e);
    }
    lemma_grid_map_on_grid(rail_map);
    let e = normalized((current, target));
    assert(is_grid_edge(e)) by {
        assert(current as int == 5 * row(current) + column(current));
        assert(target as int == 5 * row(target) + column(target));
        assert(0 <= column(current) < 5 && 0 <= column(target) < 5);
    }
    lemma_count_contains(spec_grid_edges(), e);
    lemma_count_contains(rail_map.edge_list(), e);
    let ns = rail_map.neighbor_lists()[current as int]@;
    assert(count_of(ns, target) == adjacency_count(rail_map.edge_list(), current, target));
    lemma_count_contains(ns, target);
    lemma_requested_turn_is_taken(rail_map, previous, current, step_x, step_z, strength, exit, target);
}

/// The routes through `node`: every pair of its neighbours, each pair once,
/// in the order of the neighbour list.
pub open spec fn pairs_from(ns: Seq<usize>, i: int) -> Seq<(usize, usize)>
    decreases ns.len() - i,
{
    if i >= ns.len() || i < 0 {
        seq![]
    } else {
        Seq::new((ns.len() - i - 1) as nat, |j: int| (ns[i], ns[i + 1 + j])) + pairs_from(ns, i + 1)
    }
}

/// Every route through `node`, one per pair of its neighbours.
pub fn junction_connections(rail_map: &RailMap, node: usize) -> (connections: Vec<(usize, usize)>)
    requires
        node < rail_map.neighbor_lists().len(),
    ensures
        connections@ == pairs_from(rail_map.neighbor_lists()[node as int]@, 0),
{
    let neighbors = &rail_map.neighbors()[node];
    let ghost ns = neighbors@;
    let mut connections: Vec<(usize, usize)> = Vec::new();
    let mut index: usize = 0;
    while index < neighbors.len()
        invariant
            ns == neighbors@,
            index <= ns.len(),
            connections@ + pairs_from(ns, index as int) == pairs_from(ns, 0),
        decreases ns.len() - index,
    {
        let from = neighbors[index];
        let mut other = index + 1;
        while other < neighbors.len()
            invariant
                ns == neighbors@,
                index < ns.len(),
                from == ns[index as int],
                index + 1 <= other <= ns.len(),
                connections@ + Seq::new((ns.len() - other) as nat, |j: int| (ns[index as int], ns[other + j])) + pairs_from(ns, index + 1) == pairs_from(ns, 0),
            decreases ns.len() - other,
        {
            let ghost before = connections@;
            connections.push((from, neighbors[other]));
            proof {
                let rest_now = Seq::new((ns.len() - other) as nat, |j: int| (ns[index as int], ns[other + j]));
                let rest_next = Seq::new((ns.len() - other - 1) as nat, |j: int| (ns[index as int], ns[other + 1 + j]));
                assert(rest_now =~= seq![(ns[index as int], ns[other as int])] + rest_next);
                assert(connections@ + rest_next =~= before + rest_now);
            }
            other += 1;
        }
        proof {
            assert(Seq::new((ns.len() - other) as nat, |j: int| (ns[index as int], ns[other + j])) =~= Seq::<(usize, usize)>::empty());
            assert(connections@ + pairs_from(ns, index + 1) =~= connections@ + Seq::<(usize, usize)>::empty() + pairs_from(ns, index + 1));
        }
        index += 1;
    }
    proof {
        assert(connections@ + pairs_from(ns, index as int) =~= connections@);
    }
    connections
}

/// A junction with `n` neighbours has `n (n - 1) / 2` routes through it.
pub proof fn lemma_connection_count(ns: Seq<usize>, i: int)
    requires
        0 <= i <= ns.len(),
    ensures
        pairs_from(ns, i).len() * 2 == (ns.len() - i) * (ns.len() - i - 1),
    decreases ns.len() - i,
{
    if i < ns.len() {
        lemma_connection_count(ns, i + 1);
        let r = ns.len() - i;
        let rest = pairs_from(ns, i + 1).len();
        assert(pairs_from(ns, i).len() == (r - 1) + rest);
        assert(rest * 2 == (r - 1) * (r - 2));
        assert(((r - 1) + rest) * 2 == r * (r - 1)) by (nonlinear_arith)
            requires
                rest * 2 == (r - 1) * (r - 2),
        ;
        assert(pairs_from(ns, i).len() * 2 == r * (r - 1));
    } else {
        let r = ns.len() - i;
        assert(r == 0);
        assert(r * (r - 1) == 0) by (nonlinear_arith)
            requires
                r == 0,
        ;
    }
}

} // verus!
