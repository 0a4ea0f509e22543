//! The rail network: a five by five grid of junctions, some of them joined by
//! straight track. A generated network is connected and has no dead ends.

use vstd::prelude::*;
use crate::graph::{connected, linked, is_walk};
use crate::rng::{SimpleRng, xorshift, index_of, chance_of, shuffled, seed_state};
use crate::union_find::{UnionFind, lemma_merge_components};
use std::collections::HashSet;

verus! {

/// Junctions per side of the grid.
pub const TRACK_GRID_SIZE: usize = 5;

/// Junctions in the grid.
pub const NODE_COUNT: usize = 25;

/// A straight piece of track between two grid neighbours, smaller end first.
pub open spec fn is_grid_edge(e: (usize, usize)) -> bool {
    &&& e.1 < 25
    &&& (e.1 == e.0 + 1 && e.0 % 5 != 4) || e.1 == e.0 + 5
}

/// `(left, right)` spelled with the smaller node first.
pub open spec fn normalized(e: (usize, usize)) -> (usize, usize) {
    if e.0 <= e.1 {
        e
    } else {
        (e.1, e.0)
    }
}

/// The grid edges that start at `node`: to the right, then down.
pub open spec fn node_grid_edges(node: usize) -> Seq<(usize, usize)> {
    let right: Seq<(usize, usize)> = if node % 5 + 1 < 5 {
        seq![(node, (node + 1) as usize)]
    } else {
        seq![]
    };
    let down: Seq<(usize, usize)> = if node / 5 + 1 < 5 {
        seq![(node, (node + 5) as usize)]
    } else {
        seq![]
    };
    right + down
}

/// The grid edges of the first `count` nodes, in row-major order.
pub open spec fn grid_edges_before(count: nat) -> Seq<(usize, usize)>
    decreases count,
{
    if count == 0 {
        seq![]
    } else {
        grid_edges_before((count - 1) as nat) + node_grid_edges((count - 1) as usize)
    }
}

/// Every edge of the full grid, in the order `grid_edges` lists them.
pub open spec fn spec_grid_edges() -> Seq<(usize, usize)> {
    grid_edges_before(25)
}

proof fn lemma_grid_edges_before(count: nat)
    requires
        count <= 25,
    ensures
        forall|e: (usize, usize)| #[trigger] grid_edges_before(count).contains(e) <==> (
        is_grid_edge(e) && e.0 < count),
    decreases count,
{
    if count > 0 {
        let n = (count - 1) as usize;
        lemma_grid_edges_before((count - 1) as nat);
        let prev = grid_edges_before((count - 1) as nat);
        let here = node_grid_edges(n);
        assert forall|e: (usize, usize)| #[trigger] grid_edges_before(count).contains(e) <==> (
        is_grid_edge(e) && e.0 < count) by {
            assert(grid_edges_before(count) == prev + here);
            if (prev + here).contains(e) {
                let k = choose|k: int| 0 <= k < (prev + here).len() && (prev + here)[k] == e;
                if k < prev.len() {
                    assert(prev.contains(e));
                } else {
                    assert(here.contains(e));
                    assert(n % 5 + 1 < 5 ==> n % 5 != 4);
                    assert(n / 5 + 1 < 5 ==> n + 5 < 25);
                }
            }
            if is_grid_edge(e) && e.0 < count {
                if e.0 < n {
                    assert(prev.contains(e));
                    let k = choose|k: int| 0 <= k < prev.len() && prev[k] == e;
                    assert((prev + here)[k] == e);
                } else {
                    assert(e.0 == n);
                    if e.1 == e.0 + 1 && e.0 % 5 != 4 {
                        assert(n % 5 + 1 < 5);
                        assert(here[0] == e);
                        assert((prev + here)[prev.len() as int] == e);
                    } else {
                        assert(e.1 == n + 5);
                        assert(n / 5 + 1 < 5);
                        let k = here.len() - 1;
                        assert(here[k] == e);
                        assert((prev + here)[prev.len() + k] == e);
                    }
                }
            }
        }
    }
}

/// The full grid lists exactly the grid edges.
pub proof fn lemma_grid_edges_exact()
    ensures
        forall|e: (usize, usize)| #[trigger] spec_grid_edges().contains(e) <==> is_grid_edge(e),
{
    lemma_grid_edges_before(25);
    assert forall|e: (usize, usize)| #[trigger] spec_grid_edges().contains(e) <==> is_grid_edge(
        e,
    ) by {
        if is_grid_edge(e) {
            assert(e.0 < 25);
        }
    }
}

/// Every edge of the full grid, each once, smaller node first.
pub fn grid_edges() -> (edges: Vec<(usize, usize)>)
    ensures
        edges@ == spec_grid_edges(),
{
    let mut edges = Vec::new();
    let mut row: usize = 0;
    while row < TRACK_GRID_SIZE
        invariant
            row <= 5,
            edges@ == grid_edges_before((row * 5) as nat),
        decreases 5 - row,
    {
        let mut column: usize = 0;
        while column < TRACK_GRID_SIZE
            invariant
                row < 5,
                column <= 5,
                edges@ == grid_edges_before((row * 5 + column) as nat),
            decreases 5 - column,
        {
            let node = row * TRACK_GRID_SIZE + column;
            assert(node % 5 == column && node / 5 == row) by (nonlinear_arith)
                requires
                    node == row * 5 + column,
                    column < 5,
            ;
            let ghost before = edges@;
            if column + 1 < TRACK_GRID_SIZE {
                edges.push((node, node + 1));
            }
            if row + 1 < TRACK_GRID_SIZE {
                edges.push((node, node + TRACK_GRID_SIZE));
            }
            assert(edges@ =~= before + node_grid_edges(node));
            column += 1;
        }
        row += 1;
    }
    edges
}

/// The neighbour of `node` on `side`: up, right, down, left.
pub open spec fn grid_neighbor(node: usize, side: int) -> Option<usize> {
    let row = node / 5;
    let column = node % 5;
    if side == 0 {
        if row > 0 {
            Some((node - 5) as usize)
        } else {
            None
        }
    } else if side == 1 {
        if column + 1 < 5 {
            Some((node + 1) as usize)
        } else {
            None
        }
    } else if side == 2 {
        if row + 1 < 5 {
            Some((node + 5) as usize)
        } else {
            None
        }
    } else {
        if column > 0 {
            Some((node - 1) as usize)
        } else {
            None
        }
    }
}

/// The grid neighbours of `node`, up, right, down, and left, where they exist.
pub fn grid_neighbor_nodes(node: usize) -> (sides: [Option<usize>; 4])
    requires
        node < usize::MAX,
    ensures
        forall|side: int| 0 <= side < 4 ==> #[trigger] sides@[side] == grid_neighbor(node, side),
{
    let row = node / TRACK_GRID_SIZE;
    let column = node % TRACK_GRID_SIZE;
    [
        if row > 0 {
            Some(node - TRACK_GRID_SIZE)
        } else {
            None
        },
        if column + 1 < TRACK_GRID_SIZE {
            Some(node + 1)
        } else {
            None
        },
        if row + 1 < TRACK_GRID_SIZE {
            Some(node + TRACK_GRID_SIZE)
        } else {
            None
        },
        if column > 0 {
            Some(node - 1)
        } else {
            None
        },
    ]
}

/// The neighbour on any side of a node is joined to it by a grid edge.
pub proof fn lemma_grid_neighbor_is_grid_edge(node: usize, side: int)
    requires
        node < 25,
        0 <= side < 4,
        grid_neighbor(node, side) is Some,
    ensures
        is_grid_edge(normalized((node, grid_neighbor(node, side)->0))),
        grid_neighbor(node, side)->0 < 25,
        grid_neighbor(node, side)->0 != node,
{
    let n = grid_neighbor(node, side)->0;
    if side == 0 {
        assert(node >= 5);
        assert((n as int) % 5 == (node as int) % 5) by (nonlinear_arith)
            requires
                n == node - 5,
        ;
    } else if side == 3 {
        assert(node % 5 > 0);
        assert(n % 5 != 4) by (nonlinear_arith)
            requires
                n + 1 == node,
                node % 5 > 0,
        ;
    }
}

/// Spell an edge with the smaller node first.
pub fn normalize_edge(left: usize, right: usize) -> (edge: (usize, usize))
    ensures
        edge == normalized((left, right)),
{
    if left <= right {
        (left, right)
    } else {
        (right, left)
    }
}

/// How many times `x` occurs in `s`.
pub open spec fn count_of<T>(s: Seq<T>, x: T) -> nat
    decreases s.len(),
{
    if s.len() == 0 {
        0
    } else {
        count_of(s.drop_last(), x) + if s.last() == x {
            1nat
        } else {
            0nat
        }
    }
}

pub proof fn lemma_count_push<T>(s: Seq<T>, y: T, x: T)
    ensures
        count_of(s.push(y), x) == count_of(s, x) + if y == x {
            1nat
        } else {
            0nat
        },
{
    assert(s.push(y).drop_last() =~= s);
}

pub proof fn lemma_count_contains<T>(s: Seq<T>, x: T)
    ensures
        count_of(s, x) > 0 <==> s.contains(x),
    decreases s.len(),
{
    if s.len() > 0 {
        lemma_count_contains(s.drop_last(), x);
        if s.drop_last().contains(x) {
            let k = choose|k: int| 0 <= k < s.drop_last().len() && s.drop_last()[k] == x;
            assert(s[k] == x);
        }
        if s.contains(x) && s.last() != x {
            let k = choose|k: int| 0 <= k < s.len() && s[k] == x;
            assert(s.drop_last()[k] == x);
        }
    }
}

/// Lexicographic order on edges.
pub open spec fn edge_le(a: (usize, usize), b: (usize, usize)) -> bool {
    a.0 < b.0 || (a.0 == b.0 && a.1 <= b.1)
}

pub open spec fn edges_sorted(s: Seq<(usize, usize)>) -> bool {
    forall|i: int, j: int| 0 <= i < j < s.len() ==> edge_le(#[trigger] s[i], #[trigger] s[j])
}

pub open spec fn nodes_sorted(s: Seq<usize>) -> bool {
    forall|i: int, j: int| 0 <= i < j < s.len() ==> #[trigger] s[i] <= #[trigger] s[j]
}

/// How many times `node` lists `other` among its neighbours: once for each
/// edge between them, in either spelling.
pub open spec fn adjacency_count(edges: Seq<(usize, usize)>, node: usize, other: usize) -> nat {
    count_of(edges, (node, other)) + count_of(edges, (other, node))
}

/// Every edge joins two nodes of the grid.
pub open spec fn edges_in_grid(edges: Seq<(usize, usize)>) -> bool {
    forall|i: int| 0 <= i < edges.len() ==> (#[trigger] edges[i]).0 < 25 && edges[i].1 < 25
}

fn count_edge(edges: &Vec<(usize, usize)>, edge: (usize, usize)) -> (count: usize)
    ensures
        count == count_of(edges@, edge),
{
    let mut count: usize = 0;
    let mut i: usize = 0;
    while i < edges.len()
        invariant
            i <= edges.len(),
            count <= i,
            count == count_of(edges@.take(i as int), edge),
        decreases edges.len() - i,
    {
        assert(edges@.take(i + 1).drop_last() =~= edges@.take(i as int));
        if edges[i].0 == edge.0 && edges[i].1 == edge.1 {
            count += 1;
        }
        i += 1;
    }
    assert(edges@.take(edges.len() as int) =~= edges@);
    count
}

/// The rail network: its seed, its edges, and each junction's neighbours.
pub struct RailMap {
    seed: u64,
    /// Every piece of straight track, in lexicographic order.
    edges: Vec<(usize, usize)>,
    /// For each junction, the junctions its track leads to, in ascending order.
    neighbors: Vec<Vec<usize>>,
}

impl RailMap {
    /// The seed the map was made with.
    pub closed spec fn seed_value(&self) -> u64 {
        self.seed
    }

    /// Every piece of straight track.
    pub closed spec fn edge_list(&self) -> Seq<(usize, usize)> {
        self.edges@
    }

    /// Each junction's neighbour list.
    pub closed spec fn neighbor_lists(&self) -> Seq<Vec<usize>> {
        self.neighbors@
    }

    pub fn seed(&self) -> (seed: u64)
        ensures
            seed == self.seed_value(),
    {
        self.seed
    }

    pub fn edges(&self) -> (edges: &Vec<(usize, usize)>)
        ensures
            edges@ == self.edge_list(),
    {
        &self.edges
    }

    pub fn neighbors(&self) -> (neighbors: &Vec<Vec<usize>>)
        ensures
            neighbors@ == self.neighbor_lists(),
    {
        &self.neighbors
    }

    /// The neighbour lists are those of the edge list: one entry per edge end.
    pub open spec fn lists_neighbors_of(&self, edges: Seq<(usize, usize)>) -> bool {
        &&& self.neighbor_lists().len() == 25
        &&& forall|n: int|
            #![trigger self.neighbor_lists()[n]]
            0 <= n < 25 ==> nodes_sorted(self.neighbor_lists()[n]@) && forall|m: usize|
                #[trigger] count_of(self.neighbor_lists()[n]@, m) == adjacency_count(edges, n as usize, m)
    }

    /// The edges are sorted, join grid junctions, and the neighbour lists
    /// are the ones they describe.
    pub open spec fn wf(&self) -> bool {
        &&& edges_in_grid(self.edge_list())
        &&& edges_sorted(self.edge_list())
        &&& self.lists_neighbors_of(self.edge_list())
    }

    /// The map a list of edges describes: the edges sorted, and each
    /// junction's neighbours gathered and sorted.
    pub fn from_edges(seed: u64, edges: Vec<(usize, usize)>) -> (map: Self)
        requires
            edges_in_grid(edges@),
        ensures
            map.wf(),
            map.seed_value() == seed,
            edges_sorted(map.edge_list()),
            forall|e: (usize, usize)| #[trigger] count_of(map.edge_list(), e) == count_of(edges@, e),
            map.lists_neighbors_of(edges@),
    {
        let mut sorted: Vec<(usize, usize)> = Vec::new();
        let mut left: usize = 0;
        while left < NODE_COUNT
            invariant
                left <= 25,
                edges_in_grid(edges@),
                edges_sorted(sorted@),
                forall|i: int| 0 <= i < sorted.len() ==> (#[trigger] sorted@[i]).0 < left,
                forall|e: (usize, usize)| #[trigger]
                    count_of(sorted@, e) == if e.0 < left {
                        count_of(edges@, e)
                    } else {
                        0
                    },
            decreases 25 - left,
        {
            let mut right: usize = 0;
            while right < NODE_COUNT
                invariant
                    left < 25,
                    right <= 25,
                    edges_in_grid(edges@),
                    edges_sorted(sorted@),
                    forall|i: int| 0 <= i < sorted.len() ==> edge_le(#[trigger] sorted@[i], (left, right)),
                    forall|i: int| 0 <= i < sorted.len() ==> (#[trigger] sorted@[i]).0 <= left,
                    forall|e: (usize, usize)| #[trigger]
                        count_of(sorted@, e) == if e.0 < left || (e.0 == left && e.1 < right) {
                            count_of(edges@, e)
                        } else {
                            0
                        },
                decreases 25 - right,
            {
                let copies = count_edge(&edges, (left, right));
                let mut k: usize = 0;
                while k < copies
                    invariant
                        left < 25,
                        right < 25,
                        k <= copies,
                        copies == count_of(edges@, (left, right)),
                        edges_sorted(sorted@),
                        forall|i: int| 0 <= i < sorted.len() ==> edge_le(#[trigger] sorted@[i], (left, right)),
                        forall|i: int| 0 <= i < sorted.len() ==> (#[trigger] sorted@[i]).0 <= left,
                        forall|e: (usize, usize)| #[trigger]
                            count_of(sorted@, e) == if e.0 < left || (e.0 == left && e.1 < right) {
                                count_of(edges@, e)
                            } else if e == (left, right) {
                                k as nat
                            } else {
                                0
                            },
                    decreases copies - k,
                {
                    proof {
                        assert forall|e: (usize, usize)| #[trigger] count_of(sorted@.push((left, right)), e)
                            == count_of(sorted@, e) + if (left, right) == e {
                            1nat
                        } else {
                            0nat
                        } by {
                            lemma_count_push(sorted@, (left, right), e);
                        }
                    }
                    sorted.push((left, right));
                    k += 1;
                }
                right += 1;
            }
            proof {
                assert forall|e: (usize, usize)| #[trigger] count_of(sorted@, e) == if e.0 < left + 1 {
                    count_of(edges@, e)
                } else {
                    0
                } by {
                    if e.0 == left && e.1 >= 25 {
                        lemma_count_contains(edges@, e);
                        if edges@.contains(e) {
                            let i = choose|i: int| 0 <= i < edges.len() && edges@[i] == e;
                            assert(edges_in_grid(edges@));
                            assert(edges@[i].1 < 25);
                        }
                    }
                }
            }
            left += 1;
        }
        proof {
            assert forall|e: (usize, usize)| #[trigger] count_of(sorted@, e) == count_of(edges@, e) by {
                if e.0 >= 25 {
                    lemma_count_contains(edges@, e);
                    if edges@.contains(e) {
                        let i = choose|i: int| 0 <= i < edges.len() && edges@[i] == e;
                        assert(edges@[i].0 < 25);
                    }
                }
            }
        }

        let mut neighbors: Vec<Vec<usize>> = Vec::new();
        let mut node: usize = 0;
        while node < NODE_COUNT
            invariant
                node <= 25,
                edges_in_grid(edges@),
                neighbors.len() == node,
                forall|n: int|
                    #![trigger neighbors[n]]
                    0 <= n < node ==> nodes_sorted(neighbors[n]@) && forall|m: usize|
                        #[trigger] count_of(neighbors[n]@, m) == adjacency_count(edges@, n as usize, m),
            decreases 25 - node,
        {
            let mut adjacent: Vec<usize> = Vec::new();
            let mut other: usize = 0;
            while other < NODE_COUNT
                invariant
                    node < 25,
                    other <= 25,
                    edges_in_grid(edges@),
                    nodes_sorted(adjacent@),
                    forall|i: int| 0 <= i < adjacent.len() ==> #[trigger] adjacent@[i] < other,
                    forall|m: usize| #[trigger]
                        count_of(adjacent@, m) == if m < other {
                            adjacency_count(edges@, node, m)
                        } else {
                            0
                        },
                decreases 25 - other,
            {
                let forwards = count_edge(&edges, (node, other));
                let backwards = count_edge(&edges, (other, node));
                let ghost base = adjacent@;
                let mut k: usize = 0;
                while k < forwards
                    invariant
                        other < 25,
                        k <= forwards,
                        nodes_sorted(adjacent@),
                        forall|i: int| 0 <= i < adjacent.len() ==> #[trigger] adjacent@[i] <= other,
                        forall|m: usize| #[trigger]
                            count_of(adjacent@, m) == count_of(base, m) + if m == other {
                                k as nat
                            } else {
                                0
                            },
                    decreases forwards - k,
                {
                    proof {
                        assert forall|m: usize| #[trigger] count_of(adjacent@.push(other), m)
                            == count_of(adjacent@, m) + if other == m {
                            1nat
                        } else {
                            0nat
                        } by {
                            lemma_count_push(adjacent@, other, m);
                        }
                    }
                    adjacent.push(other);
                    k += 1;
                }
                let mut k: usize = 0;
                while k < backwards
                    invariant
                        other < 25,
                        k <= backwards,
                        nodes_sorted(adjacent@),
                        forall|i: int| 0 <= i < adjacent.len() ==> #[trigger] adjacent@[i] <= other,
                        forall|m: usize| #[trigger]
                            count_of(adjacent@, m) == count_of(base, m) + if m == other {
                                (forwards + k) as nat
                            } else {
                                0
                            },
                    decreases backwards - k,
                {
                    proof {
                        assert forall|m: usize| #[trigger] count_of(adjacent@.push(other), m)
                            == count_of(adjacent@, m) + if other == m {
                            1nat
                        } else {
                            0nat
                        } by {
                            lemma_count_push(adjacent@, other, m);
                        }
                    }
                    adjacent.push(other);
                    k += 1;
                }
                other += 1;
            }
            proof {
                assert forall|m: usize| #[trigger] count_of(adjacent@, m) == adjacency_count(edges@, node, m) by {
                    if m >= 25 {
                        lemma_count_contains(edges@, (node, m));
                        lemma_count_contains(edges@, (m, node));
                        if edges@.contains((node, m)) {
                            let i = choose|i: int| 0 <= i < edges.len() && edges@[i] == (node, m);
                            assert(edges@[i].1 < 25);
                        }
                        if edges@.contains((m, node)) {
                            let i = choose|i: int| 0 <= i < edges.len() && edges@[i] == (m, node);
                            assert(edges@[i].0 < 25);
                        }
                    }
                }
            }
            neighbors.push(adjacent);
            node += 1;
        }
        let map = Self { seed, edges: sorted, neighbors };
        proof {
            assert forall|i: int| 0 <= i < map.edge_list().len() implies (#[trigger] map.edge_list()[i]).0 < 25
                && map.edge_list()[i].1 < 25 by {
                let e = map.edge_list()[i];
                lemma_count_contains(map.edge_list(), e);
                lemma_count_contains(edges@, e);
                let j = choose|j: int| 0 <= j < edges.len() && edges@[j] == e;
                assert(edges@[j].0 < 25);
            }
        }
        map
    }
}

} // verus!

verus! {

/// The key a selected edge is stored under.
pub open spec fn edge_code(e: (usize, usize)) -> usize {
    (e.0 * 25 + e.1) as usize
}

/// The edges a set of keys stands for.
pub open spec fn edge_view(codes: Set<usize>) -> Set<(usize, usize)> {
    Set::new(|e: (usize, usize)| e.0 < 25 && e.1 < 25 && codes.contains(edge_code(e)))
}

/// Every edge is a grid edge, so in particular spelled smaller node first.
pub open spec fn grid_only(es: Set<(usize, usize)>) -> bool {
    forall|e: (usize, usize)| #[trigger] es.contains(e) ==> is_grid_edge(e)
}

pub proof fn lemma_edge_view_insert(codes: Set<usize>, e: (usize, usize))
    requires
        e.0 < 25,
        e.1 < 25,
    ensures
        edge_view(codes.insert(edge_code(e))) == edge_view(codes).insert(e),
{
    assert forall|f: (usize, usize)| #[trigger] edge_view(codes.insert(edge_code(e))).contains(f)
        <==> edge_view(codes).insert(e).contains(f) by {
        if f.0 < 25 && f.1 < 25 && edge_code(f) == edge_code(e) {
            assert(f.0 == e.0 && f.1 == e.1) by (nonlinear_arith)
                requires
                    f.0 < 25,
                    f.1 < 25,
                    e.0 < 25,
                    e.1 < 25,
                    f.0 * 25 + f.1 == e.0 * 25 + e.1,
            ;
        }
    }
    assert(edge_view(codes.insert(edge_code(e))) =~= edge_view(codes).insert(e));
}

/// The edges randomised Kruskal keeps from `edges`, taken in order: each one
/// that joins two parts not yet joined.
pub open spec fn kruskal(edges: Seq<(usize, usize)>) -> Set<(usize, usize)>
    decreases edges.len(),
{
    if edges.len() == 0 {
        Set::empty()
    } else {
        let before = kruskal(edges.drop_last());
        let e = edges.last();
        if connected(before, e.0, e.1) {
            before
        } else {
            before.insert(normalized(e))
        }
    }
}

/// How many of the nodes below `k` other than `node` an edge of `es` joins to it.
pub open spec fn degree_below(es: Set<(usize, usize)>, node: usize, k: nat) -> nat
    decreases k,
{
    if k == 0 {
        0
    } else {
        degree_below(es, node, (k - 1) as nat) + if (k - 1) != node && linked(
            es,
            node,
            (k - 1) as usize,
        ) {
            1nat
        } else {
            0nat
        }
    }
}

/// How many junctions an edge of `es` joins to `node`.
pub open spec fn degree(es: Set<(usize, usize)>, node: usize) -> nat {
    degree_below(es, node, 25)
}

proof fn lemma_degree_two_below(es: Set<(usize, usize)>, node: usize, a: usize, b: usize, k: nat)
    requires
        a != b,
        a != node,
        b != node,
        linked(es, node, a),
        linked(es, node, b),
    ensures
        degree_below(es, node, k) >= (if a < k {
            1nat
        } else {
            0nat
        }) + (if b < k {
            1nat
        } else {
            0nat
        }),
    decreases k,
{
    if k > 0 {
        lemma_degree_two_below(es, node, a, b, (k - 1) as nat);
    }
}

proof fn lemma_degree_grows_below(es: Set<(usize, usize)>, more: Set<(usize, usize)>, node: usize, k: nat)
    requires
        es.subset_of(more),
    ensures
        degree_below(es, node, k) <= degree_below(more, node, k),
    decreases k,
{
    if k > 0 {
        lemma_degree_grows_below(es, more, node, (k - 1) as nat);
    }
}

/// More edges never lower a degree.
pub proof fn lemma_degree_grows(es: Set<(usize, usize)>, more: Set<(usize, usize)>)
    requires
        es.subset_of(more),
    ensures
        forall|node: usize| #[trigger] degree(es, node) <= degree(more, node),
{
    assert forall|node: usize| #[trigger] degree(es, node) <= degree(more, node) by {
        lemma_degree_grows_below(es, more, node, 25);
    }
}

proof fn lemma_degree_insert_below(es: Set<(usize, usize)>, node: usize, n: usize, k: nat)
    requires
        n != node,
        !linked(es, node, n),
        k <= 25,
    ensures
        degree_below(es.insert(normalized((node, n))), node, k) == degree_below(es, node, k) + if n
            < k {
            1nat
        } else {
            0nat
        },
    decreases k,
{
    if k > 0 {
        lemma_degree_insert_below(es, node, n, (k - 1) as nat);
        let m = (k - 1) as usize;
        let es2 = es.insert(normalized((node, n)));
        if m != n {
            assert(linked(es2, node, m) == linked(es, node, m));
        } else {
            assert(linked(es2, node, m));
        }
    }
}

/// Joining `node` to a junction it was not yet joined to raises its degree by one.
pub proof fn lemma_degree_insert(es: Set<(usize, usize)>, node: usize, n: usize)
    requires
        n != node,
        n < 25,
        !linked(es, node, n),
    ensures
        degree(es.insert(normalized((node, n))), node) == degree(es, node) + 1,
{
    lemma_degree_insert_below(es, node, n, 25);
}

/// The unjoined grid neighbours of `node` on the sides from `side` on, in
/// the order up, right, down, left.
pub open spec fn candidates_from(es: Set<(usize, usize)>, node: usize, side: nat) -> Seq<usize>
    decreases 4 - side,
{
    if side >= 4 {
        seq![]
    } else {
        let rest = candidates_from(es, node, side + 1);
        match grid_neighbor(node, side as int) {
            Some(n) => if !es.contains(normalized((node, n))) {
                seq![n] + rest
            } else {
                rest
            },
            None => rest,
        }
    }
}

/// The grid neighbours of `node` that `es` does not join to it yet.
pub open spec fn candidates(es: Set<(usize, usize)>, node: usize) -> Seq<usize> {
    candidates_from(es, node, 0)
}

proof fn lemma_candidates_from(es: Set<(usize, usize)>, node: usize, side: nat)
    requires
        node < 25,
        grid_only(es),
    ensures
        forall|i: int|
            0 <= i < candidates_from(es, node, side).len() ==> {
                let c = #[trigger] candidates_from(es, node, side)[i];
                &&& c < 25
                &&& c != node
                &&& !linked(es, node, c)
                &&& is_grid_edge(normalized((node, c)))
            },
        forall|s: int|
            side <= s < 4 && #[trigger] grid_neighbor(node, s) is Some && !es.contains(
                normalized((node, grid_neighbor(node, s)->0)),
            ) ==> candidates_from(es, node, side).len() > 0,
    decreases 4 - side,
{
    if side < 4 {
        lemma_candidates_from(es, node, side + 1);
        let rest = candidates_from(es, node, side + 1);
        match grid_neighbor(node, side as int) {
            Some(n) => {
                lemma_grid_neighbor_is_grid_edge(node, side as int);
                if !es.contains(normalized((node, n))) {
                    let all = seq![n] + rest;
                    assert forall|i: int| 0 <= i < all.len() implies {
                        let c = #[trigger] all[i];
                        &&& c < 25
                        &&& c != node
                        &&& !linked(es, node, c)
                        &&& is_grid_edge(normalized((node, c)))
                    } by {
                        if i == 0 {
                            if es.contains((n, node)) {
                                assert(is_grid_edge((n, node)));
                            }
                        } else {
                            assert(all[i] == rest[i - 1]);
                        }
                    }
                }
            },
            None => {},
        }
    }
}

/// A junction with fewer than two edges still has a grid neighbour to join.
proof fn lemma_candidates_exist(es: Set<(usize, usize)>, node: usize)
    requires
        node < 25,
        grid_only(es),
        degree(es, node) < 2,
    ensures
        candidates(es, node).len() > 0,
{
    lemma_candidates_from(es, node, 0);
    let vertical: int = if node / 5 > 0 {
        0
    } else {
        2
    };
    let horizontal: int = if node % 5 > 0 {
        3
    } else {
        1
    };
    lemma_grid_neighbor_is_grid_edge(node, vertical);
    lemma_grid_neighbor_is_grid_edge(node, horizontal);
    let a = grid_neighbor(node, vertical)->0;
    let b = grid_neighbor(node, horizontal)->0;
    assert(a != b);
    if linked(es, node, a) && linked(es, node, b) {
        lemma_degree_two_below(es, node, a, b, 25);
    }
    if !linked(es, node, a) {
        assert(!es.contains(normalized((node, a))));
        assert(grid_neighbor(node, vertical) is Some);
    } else {
        assert(!es.contains(normalized((node, b))));
        assert(grid_neighbor(node, horizontal) is Some);
    }
}

/// Add random grid edges at `node` until it has two, spending at most `fuel`.
pub open spec fn fix_node(state: u64, es: Set<(usize, usize)>, node: usize, fuel: nat) -> (u64, Set<(usize, usize)>)
    decreases fuel,
{
    if fuel == 0 || degree(es, node) >= 2 {
        (state, es)
    } else {
        let choices = candidates(es, node);
        let pick = choices[index_of(state, choices.len() as usize) as int];
        fix_node(xorshift(state), es.insert(normalized((node, pick))), node, (fuel - 1) as nat)
    }
}

/// Give each of the first `count` junctions at least two edges, in order.
pub open spec fn fix_all(state: u64, es: Set<(usize, usize)>, count: nat) -> (u64, Set<(usize, usize)>)
    decreases count,
{
    if count == 0 {
        (state, es)
    } else {
        let before = fix_all(state, es, (count - 1) as nat);
        fix_node(before.0, before.1, (count - 1) as usize, 2)
    }
}

/// Walk the first `count` of `edges` adding each missing one with a chance of
/// twenty-eight in a hundred.
pub open spec fn extra_links(state: u64, es: Set<(usize, usize)>, edges: Seq<(usize, usize)>, count: nat) -> (u64, Set<(usize, usize)>)
    decreases count,
{
    if count == 0 {
        (state, es)
    } else {
        let before = extra_links(state, es, edges, (count - 1) as nat);
        let e = normalized(edges[count - 1]);
        if before.1.contains(e) {
            before
        } else {
            (xorshift(before.0), if chance_of(before.0, 28) {
                before.1.insert(e)
            } else {
                before.1
            })
        }
    }
}

/// The grid edges in the order the generator for `seed` visits them.
pub open spec fn shuffled_grid_edges(seed: u64) -> Seq<(usize, usize)> {
    shuffled(seed_state(seed), spec_grid_edges()).1
}

/// The track the generator lays for `seed`: a spanning tree by randomised
/// Kruskal, an extra edge at every junction left with fewer than two, then
/// every remaining grid edge with a chance of twenty-eight in a hundred.
pub open spec fn generated_edges(seed: u64) -> Set<(usize, usize)> {
    let shuffle = shuffled(seed_state(seed), spec_grid_edges());
    let tree = kruskal(shuffle.1);
    let fixed = fix_all(shuffle.0, tree, 25);
    extra_links(fixed.0, fixed.1, shuffle.1, shuffle.1.len()).1
}

} // verus!

verus! {

broadcast use vstd::std_specs::hash::group_hash_axioms;

/// Every junction shares a label with junction 0 once every grid edge joins
/// two junctions of the same label.
proof fn lemma_grid_labels_equal(label: Seq<usize>, x: nat)
    requires
        label.len() == 25,
        x < 25,
        forall|e: (usize, usize)| #[trigger] is_grid_edge(e) ==> label[e.0 as int] == label[e.1 as int],
    ensures
        label[x as int] == label[0],
    decreases x,
{
    if x > 0 {
        if x % 5 != 0 {
            let e = ((x - 1) as usize, x as usize);
            assert(is_grid_edge(e));
            lemma_grid_labels_equal(label, (x - 1) as nat);
        } else {
            let e = ((x - 5) as usize, x as usize);
            assert(is_grid_edge(e));
            lemma_grid_labels_equal(label, (x - 5) as nat);
        }
    }
}

/// The sum over the nodes below `k` of how often each occurs in `s`.
pub open spec fn count_sum(s: Seq<usize>, k: nat) -> nat
    decreases k,
{
    if k == 0 {
        0
    } else {
        count_sum(s, (k - 1) as nat) + count_of(s, (k - 1) as usize)
    }
}

proof fn lemma_count_sum_push(s: Seq<usize>, y: usize, k: nat)
    requires
        k <= 25,
    ensures
        count_sum(s.push(y), k) == count_sum(s, k) + if y < k {
            1nat
        } else {
            0nat
        },
    decreases k,
{
    if k > 0 {
        lemma_count_sum_push(s, y, (k - 1) as nat);
        lemma_count_push(s, y, (k - 1) as usize);
    }
}

/// A list of junctions is as long as the sum of how often each junction occurs.
proof fn lemma_len_is_count_sum(s: Seq<usize>)
    requires
        forall|i: int| 0 <= i < s.len() ==> #[trigger] s[i] < 25,
    ensures
        s.len() == count_sum(s, 25),
    decreases s.len(),
{
    if s.len() == 0 {
        assert(count_sum(s, 25) == 0) by {
            lemma_count_sum_empty(s, 25);
        }
    } else {
        let front = s.drop_last();
        lemma_len_is_count_sum(front);
        lemma_count_sum_push(front, s.last(), 25);
        assert(front.push(s.last()) =~= s);
    }
}

proof fn lemma_count_sum_empty(s: Seq<usize>, k: nat)
    requires
        s.len() == 0,
    ensures
        count_sum(s, k) == 0,
    decreases k,
{
    if k > 0 {
        lemma_count_sum_empty(s, (k - 1) as nat);
    }
}

proof fn lemma_degree_within_count_sum(es: Set<(usize, usize)>, list: Seq<usize>, node: usize, k: nat)
    requires
        k <= 25,
        forall|m: usize|
            m < 25 && m != node && linked(es, node, m) ==> #[trigger] count_of(list, m) >= 1,
    ensures
        degree_below(es, node, k) <= count_sum(list, k),
    decreases k,
{
    if k > 0 {
        lemma_degree_within_count_sum(es, list, node, (k - 1) as nat);
    }
}

/// How many junctions an edge of the selection joins to `node`.
fn edge_degree(edges: &HashSet<usize>, node: usize) -> (count: usize)
    requires
        node < 25,
    ensures
        count == degree(edge_view(edges@), node),
{
    let mut count: usize = 0;
    let mut other: usize = 0;
    while other < NODE_COUNT
        invariant
            node < 25,
            other <= 25,
            count <= other,
            count == degree_below(edge_view(edges@), node, other as nat),
        decreases 25 - other,
    {
        if other != node && (edges.contains(&(node * NODE_COUNT + other)) || edges.contains(
            &(other * NODE_COUNT + node),
        )) {
            count += 1;
        }
        other += 1;
    }
    count
}

/// The selection as a list, in lexicographic order.
fn sorted_edges(edges: &HashSet<usize>) -> (list: Vec<(usize, usize)>)
    ensures
        edges_in_grid(list@),
        edges_sorted(list@),
        forall|e: (usize, usize)| #[trigger] count_of(list@, e) == if edge_view(edges@).contains(e) {
            1nat
        } else {
            0nat
        },
{
    let mut list: Vec<(usize, usize)> = Vec::new();
    let mut left: usize = 0;
    while left < NODE_COUNT
        invariant
            left <= 25,
            edges_in_grid(list@),
            edges_sorted(list@),
            forall|i: int| 0 <= i < list.len() ==> (#[trigger] list@[i]).0 < left,
            forall|e: (usize, usize)| #[trigger] count_of(list@, e) == if e.0 < left && edge_view(edges@).contains(e) {
                1nat
            } else {
                0nat
            },
        decreases 25 - left,
    {
        let mut right: usize = 0;
        while right < NODE_COUNT
            invariant
                left < 25,
                right <= 25,
                edges_in_grid(list@),
                edges_sorted(list@),
                forall|i: int| 0 <= i < list.len() ==> edge_le(#[trigger] list@[i], (left, right)) && list@[i] != (left, right),
                forall|i: int| 0 <= i < list.len() ==> (#[trigger] list@[i]).0 <= left,
                forall|e: (usize, usize)| #[trigger] count_of(list@, e) == if (e.0 < left || (e.0 == left && e.1 < right)) && edge_view(edges@).contains(e) {
                    1nat
                } else {
                    0nat
                },
            decreases 25 - right,
        {
            if edges.contains(&(left * NODE_COUNT + right)) {
                proof {
                    assert forall|e: (usize, usize)| #[trigger] count_of(list@.push((left, right)), e)
                        == count_of(list@, e) + if (left, right) == e {
                        1nat
                    } else {
                        0nat
                    } by {
                        lemma_count_push(list@, (left, right), e);
                    }
                }
                list.push((left, right));
            }
            right += 1;
        }
        left += 1;
    }
    list
}

impl RailMap {
    /// Junction pairs that some neighbour list joins.
    pub open spec fn tracks(&self) -> Set<(usize, usize)> {
        Set::new(|e: (usize, usize)| e.0 < 25 && self.neighbor_lists()[e.0 as int]@.contains(e.1))
    }

    /// Every junction can be reached from junction 0 along the track.
    pub open spec fn is_connected(&self) -> bool {
        forall|n: usize| n < 25 ==> #[trigger] connected(self.tracks(), 0, n)
    }

    /// Every junction has at least two exits.
    pub open spec fn has_no_dead_ends(&self) -> bool {
        forall|n: int| 0 <= n < 25 ==> #[trigger] self.neighbor_lists()[n].len() >= 2
    }

    /// The map generated from `seed`: exactly the track `generated_edges`
    /// describes, which is connected and has no dead ends.
    pub fn from_seed(seed: u64) -> (map: Self)
        ensures
            map.wf(),
            map.seed_value() == seed,
            forall|e: (usize, usize)| #[trigger] count_of(map.edge_list(), e) == if generated_edges(seed).contains(e) {
                1nat
            } else {
                0nat
            },
            forall|e: (usize, usize)| #[trigger] generated_edges(seed).contains(e) ==> is_grid_edge(e),
            map.on_grid(),
            map.is_connected(),
            map.has_no_dead_ends(),
    {
        let mut rng = SimpleRng::new(seed);
        let mut possible_edges = grid_edges();
        proof {
            assert(possible_edges@.len() == possible_edges.len());
            lemma_grid_edges_exact();
            crate::rng::lemma_shuffle_permutes(seed_state(seed), spec_grid_edges());
        }
        rng.shuffle(possible_edges.as_mut_slice());

        // Randomised Kruskal produces a spanning tree, guaranteeing that every
        // junction belongs to one connected railway network.
        let mut selected = spanning_tree(&possible_edges);
        let ghost tree = edge_view(selected@);

        // A tree has dead ends. Add links until every junction has at least two
        // exits, so the no-U-turn rule never traps a cart.
        fix_dead_ends(&mut rng, &mut selected);
        let ghost fixed = edge_view(selected@);

        // Extra links make each launch feel less like a pure maze and create
        // more tactical intersections and loops.
        add_extra_links(&mut rng, &mut selected, &possible_edges);
        let ghost done = edge_view(selected@);
        proof {
            lemma_degree_grows(fixed, done);
            assert forall|n: usize| n < 25 implies #[trigger] degree(done, n) >= 2 by {
                assert(degree(fixed, n) >= 2);
            }
            assert(tree.subset_of(done));
            assert forall|n: usize| n < 25 implies #[trigger] connected(done, 0, n) by {
                crate::graph::lemma_connected_grows(tree, done, 0, n);
            }
        }

        let chosen = sorted_edges(&selected);
        let map = Self::from_edges(seed, chosen);
        proof {
            lemma_generated_map_laws(map, done);
            assert forall|e: (usize, usize)| #[trigger] map.edge_list().contains(e) implies is_grid_edge(e) by {
                lemma_count_contains(map.edge_list(), e);
            }
            lemma_grid_map_on_grid(map);
        }
        map
    }
}

/// The map built from a connected selection in which every junction has two
/// exits is connected and has no dead ends.
proof fn lemma_generated_map_laws(map: RailMap, done: Set<(usize, usize)>)
    requires
        map.wf(),
        grid_only(done),
        forall|e: (usize, usize)| #[trigger] count_of(map.edge_list(), e) == if done.contains(e) {
            1nat
        } else {
            0nat
        },
        forall|n: usize| n < 25 ==> #[trigger] connected(done, 0, n),
        forall|n: usize| n < 25 ==> #[trigger] degree(done, n) >= 2,
    ensures
        map.is_connected(),
        map.has_no_dead_ends(),
{
    assert forall|e: (usize, usize)| done.contains(e) implies #[trigger] map.tracks().contains(e) by {
        assert(count_of(map.neighbor_lists()[e.0 as int]@, e.1) >= 1);
        lemma_count_contains(map.neighbor_lists()[e.0 as int]@, e.1);
    }
    assert(done.subset_of(map.tracks()));
    assert forall|n: usize| n < 25 implies #[trigger] connected(map.tracks(), 0, n) by {
        crate::graph::lemma_connected_grows(done, map.tracks(), 0, n);
    }
    assert forall|n: int| 0 <= n < 25 implies #[trigger] map.neighbor_lists()[n].len() >= 2 by {
        let list = map.neighbor_lists()[n]@;
        assert forall|i: int| 0 <= i < list.len() implies #[trigger] list[i] < 25 by {
            let m = list[i];
            lemma_count_contains(list, m);
            if m >= 25 {
                assert(!done.contains((n as usize, m)));
                assert(!done.contains((m, n as usize)));
            }
        }
        lemma_len_is_count_sum(list);
        assert forall|m: usize| m < 25 && m != n && linked(done, n as usize, m) implies #[trigger] count_of(list, m) >= 1 by {
        }
        lemma_degree_within_count_sum(done, list, n as usize, 25);
        assert(degree(done, n as usize) >= 2);
    }
}

/// Randomised Kruskal over `order`: the kept edges span the grid.
fn spanning_tree(order: &Vec<(usize, usize)>) -> (selected: HashSet<usize>)
    requires
        forall|e: (usize, usize)| #[trigger] order@.contains(e) <==> is_grid_edge(e),
    ensures
        edge_view(selected@) == kruskal(order@),
        grid_only(edge_view(selected@)),
        forall|n: usize| n < 25 ==> #[trigger] connected(edge_view(selected@), 0, n),
{
    let mut parents = UnionFind::new();
    let mut selected: HashSet<usize> = HashSet::new();
    proof {
        assert(edge_view(selected@) =~= Set::empty());
        assert forall|x: usize, y: usize| x < 25 && y < 25 implies (#[trigger] parents.roots()[x as int]
            == #[trigger] parents.roots()[y as int] <==> connected(edge_view(selected@), x, y)) by {
            if connected(edge_view(selected@), x, y) {
                crate::graph::lemma_connected_empty(x, y);
            }
            if x == y {
                crate::graph::lemma_connected_refl(edge_view(selected@), x);
            }
        }
    }
    let mut i: usize = 0;
    while i < order.len()
        invariant
            forall|e: (usize, usize)| #[trigger] order@.contains(e) <==> is_grid_edge(e),
            i <= order.len(),
            parents.wf(),
            edge_view(selected@) == kruskal(order@.take(i as int)),
            grid_only(edge_view(selected@)),
            forall|x: usize, y: usize|
                x < 25 && y < 25 ==> (#[trigger] parents.roots()[x as int]
                    == #[trigger] parents.roots()[y as int] <==> connected(edge_view(selected@), x, y)),
            forall|j: int|
                0 <= j < i ==> parents.roots()[(#[trigger] order@[j]).0 as int]
                    == parents.roots()[order@[j].1 as int],
        decreases order.len() - i,
    {
        let (left, right) = order[i];
        proof {
            assert(order@.contains(order@[i as int]));
            assert(order@.take(i + 1).drop_last() =~= order@.take(i as int));
        }
        let ghost roots_before = parents.roots();
        let ghost view_before = edge_view(selected@);
        let joined = parents.union(left, right);
        if joined {
            let edge = normalize_edge(left, right);
            proof {
                lemma_merge_components(roots_before, view_before, left, right);
                lemma_edge_view_insert(selected@, edge);
            }
            selected.insert(edge.0 * NODE_COUNT + edge.1);
        }
        proof {
            let roots = parents.roots();
            assert forall|j: int| 0 <= j < i + 1 implies roots[(#[trigger] order@[j]).0 as int]
                == roots[order@[j].1 as int] by {
                assert(order@.contains(order@[j]));
                assert(is_grid_edge(order@[j]));
                if j < i {
                    assert(roots_before[order@[j].0 as int] == roots_before[order@[j].1 as int]);
                }
            }
        }
        i += 1;
    }
    proof {
        assert(order@.take(order.len() as int) =~= order@);
        let roots = parents.roots();
        assert forall|e: (usize, usize)| #[trigger] is_grid_edge(e) implies roots[e.0 as int] == roots[e.1 as int] by {
            assert(order@.contains(e));
            let j = choose|j: int| 0 <= j < order.len() && order@[j] == e;
            assert(roots[order@[j].0 as int] == roots[order@[j].1 as int]);
        }
        assert forall|n: usize| n < 25 implies #[trigger] connected(edge_view(selected@), 0, n) by {
            lemma_grid_labels_equal(roots, n as nat);
        }
    }
    selected
}

/// Join every junction with fewer than two exits to random grid neighbours.
fn fix_dead_ends(rng: &mut SimpleRng, selected: &mut HashSet<usize>)
    requires
        grid_only(edge_view(old(selected)@)),
    ensures
        (final(rng).state(), edge_view(final(selected)@)) == fix_all(old(rng).state(), edge_view(old(selected)@), 25),
        edge_view(old(selected)@).subset_of(edge_view(final(selected)@)),
        grid_only(edge_view(final(selected)@)),
        forall|n: usize| n < 25 ==> #[trigger] degree(edge_view(final(selected)@), n) >= 2,
{
    let ghost first = (rng.state(), edge_view(selected@));
    let mut node: usize = 0;
    while node < NODE_COUNT
        invariant
            node <= 25,
            (rng.state(), edge_view(selected@)) == fix_all(first.0, first.1, node as nat),
            first.1.subset_of(edge_view(selected@)),
            grid_only(edge_view(selected@)),
            forall|n: usize| n < node ==> #[trigger] degree(edge_view(selected@), n) >= 2,
        decreases 25 - node,
    {
        let ghost fuel: nat = 2;
        let ghost start = (rng.state(), edge_view(selected@));
        while edge_degree(selected, node) < 2
            invariant
                node < 25,
                fuel <= 2,
                fuel + degree(edge_view(selected@), node) >= 2,
                fix_node(start.0, start.1, node, 2) == fix_node(rng.state(), edge_view(selected@), node, fuel),
                first.1.subset_of(edge_view(selected@)),
                start.1.subset_of(edge_view(selected@)),
                grid_only(edge_view(selected@)),
                forall|n: usize| n < node ==> #[trigger] degree(edge_view(selected@), n) >= 2,
            decreases fuel,
        {
            let ghost view = edge_view(selected@);
            let choices = unjoined_neighbors(selected, node);
            let pick = rng.index(choices.len());
            let neighbor = choices[pick];
            let edge = normalize_edge(node, neighbor);
            proof {
                lemma_candidates_from(view, node, 0);
                assert(choices@.contains(neighbor));
                lemma_edge_view_insert(selected@, edge);
                lemma_degree_insert(view, node, neighbor);
                lemma_degree_grows(view, view.insert(edge));
                fuel = (fuel - 1) as nat;
            }
            selected.insert(edge.0 * NODE_COUNT + edge.1);
            proof {
                assert(edge_view(selected@) == view.insert(edge));
                assert forall|n: usize| n < node implies #[trigger] degree(edge_view(selected@), n) >= 2 by {
                    assert(degree(view, n) >= 2);
                }
            }
        }
        node += 1;
    }
}

/// The grid neighbours of `node` it has no edge to yet, up, right, down, left.
fn unjoined_neighbors(selected: &HashSet<usize>, node: usize) -> (choices: Vec<usize>)
    requires
        node < 25,
        grid_only(edge_view(selected@)),
        degree(edge_view(selected@), node) < 2,
    ensures
        choices@ == candidates(edge_view(selected@), node),
        choices.len() > 0,
{
    let ghost view = edge_view(selected@);
    proof {
        lemma_candidates_exist(view, node);
    }
    let sides = grid_neighbor_nodes(node);
    let mut choices: Vec<usize> = Vec::new();
    let mut side: usize = 0;
    while side < 4
        invariant
            node < 25,
            side <= 4,
            edge_view(selected@) == view,
            forall|s: int| 0 <= s < 4 ==> #[trigger] sides@[s] == grid_neighbor(node, s),
            choices@ + candidates_from(view, node, side as nat) == candidates(view, node),
        decreases 4 - side,
    {
        if let Some(neighbor) = sides[side] {
            proof {
                assert(sides@[side as int] == grid_neighbor(node, side as int));
                lemma_grid_neighbor_is_grid_edge(node, side as int);
            }
            let edge = normalize_edge(node, neighbor);
            if !selected.contains(&(edge.0 * NODE_COUNT + edge.1)) {
                proof {
                    assert(choices@.push(neighbor) + candidates_from(view, node, (side + 1) as nat)
                        =~= choices@ + candidates_from(view, node, side as nat));
                }
                choices.push(neighbor);
            } else {
                assert(view.contains(edge));
            }
        } else {
            assert(sides@[side as int] == grid_neighbor(node, side as int));
        }
        side += 1;
    }
    assert(choices@ =~= candidates(view, node));
    choices
}

/// Add each grid edge not yet chosen with a chance of 28 in a hundred.
fn add_extra_links(rng: &mut SimpleRng, selected: &mut HashSet<usize>, order: &Vec<(usize, usize)>)
    requires
        grid_only(edge_view(old(selected)@)),
        forall|e: (usize, usize)| #[trigger] order@.contains(e) <==> is_grid_edge(e),
    ensures
        (final(rng).state(), edge_view(final(selected)@)) == extra_links(old(rng).state(), edge_view(old(selected)@), order@, order@.len()),
        edge_view(old(selected)@).subset_of(edge_view(final(selected)@)),
        grid_only(edge_view(final(selected)@)),
{
    let ghost first = (rng.state(), edge_view(selected@));
    let mut i: usize = 0;
    while i < order.len()
        invariant
            forall|e: (usize, usize)| #[trigger] order@.contains(e) <==> is_grid_edge(e),
            i <= order.len(),
            (rng.state(), edge_view(selected@)) == extra_links(first.0, first.1, order@, i as nat),
            first.1.subset_of(edge_view(selected@)),
            grid_only(edge_view(selected@)),
        decreases order.len() - i,
    {
        let (left, right) = order[i];
        proof {
            assert(order@.contains(order@[i as int]));
        }
        let edge = normalize_edge(left, right);
        if !selected.contains(&(edge.0 * NODE_COUNT + edge.1)) && rng.chance(28) {
            proof {
                lemma_edge_view_insert(selected@, edge);
            }
            selected.insert(edge.0 * NODE_COUNT + edge.1);
        }
        i += 1;
    }
}

} // verus!

verus! {

/// The four corners the carts start from, one per seat.
pub open spec fn start_node(id: usize) -> usize {
    let k = id % 4;
    if k == 0 {
        0
    } else if k == 1 {
        24
    } else if k == 2 {
        20
    } else {
        4
    }
}

/// `a` and `b` are grid neighbours.
pub open spec fn grid_adjacent(a: usize, b: usize) -> bool {
    is_grid_edge(normalized((a, b)))
}

/// The seed a launch at `secs` seconds and `nanos` nanoseconds uses.
pub open spec fn launch_seed(secs: u64, nanos: u32) -> u64 {
    secs ^ crate::rng::rotated_left(nanos as u64, 32)
}

/// Mixes the seconds and nanoseconds of a reading of the clock into a seed.
pub fn seed_from_clock(secs: u64, nanos: u32) -> (seed: u64)
    ensures
        seed == launch_seed(secs, nanos),
{
    secs ^ crate::rng::rotate_left(nanos as u64, 32)
}

impl RailMap {
    /// Every neighbour list entry is a grid neighbour of its junction.
    pub open spec fn on_grid(&self) -> bool {
        forall|n: int, i: int|
            0 <= n < 25 && 0 <= i < self.neighbor_lists()[n].len() ==> grid_adjacent(
                n as usize,
                #[trigger] self.neighbor_lists()[n]@[i],
            )
    }

    /// The map for a launch at `secs` seconds and `nanos` nanoseconds past
    /// the Unix epoch: the one generated from the seed that reading makes.
    pub fn from_clock(secs: u64, nanos: u32) -> (map: Self)
        ensures
            map.seed_value() == launch_seed(secs, nanos),
            map.wf(),
            map.on_grid(),
            forall|e: (usize, usize)| #[trigger] count_of(map.edge_list(), e) == if generated_edges(map.seed_value()).contains(e) {
                1nat
            } else {
                0nat
            },
            map.is_connected(),
            map.has_no_dead_ends(),
    {
        let seed = seed_from_clock(secs, nanos);
        Self::from_seed(seed)
    }

    /// The route cart `id` starts on: from its corner to one of the corner's
    /// neighbours.
    pub fn starting_route(&self, id: usize) -> (route: (usize, usize))
        requires
            start_node(id) < self.neighbor_lists().len(),
            self.neighbor_lists()[start_node(id) as int].len() > 0,
        ensures
            route.0 == start_node(id),
            route.1 == self.neighbor_lists()[start_node(id) as int]@[(id % self.neighbor_lists()[start_node(id) as int].len()) as int],
    {
        let corner = id % 4;
        let from = if corner == 0 {
            0
        } else if corner == 1 {
            24
        } else if corner == 2 {
            20
        } else {
            4
        };
        (from, self.neighbors[from][id % self.neighbors[from].len()])
    }
}

/// A map all of whose edges are grid edges lists only grid neighbours.
pub proof fn lemma_grid_map_on_grid(map: RailMap)
    requires
        map.wf(),
        forall|e: (usize, usize)| #[trigger] map.edge_list().contains(e) ==> is_grid_edge(e),
    ensures
        map.on_grid(),
{
    assert forall|n: int, i: int| 0 <= n < 25 && 0 <= i < map.neighbor_lists()[n].len() implies grid_adjacent(
        n as usize,
        #[trigger] map.neighbor_lists()[n]@[i],
    ) by {
        let m = map.neighbor_lists()[n]@[i];
        lemma_count_contains(map.neighbor_lists()[n]@, m);
        assert(count_of(map.neighbor_lists()[n]@, m) == adjacency_count(map.edge_list(), n as usize, m));
        lemma_count_contains(map.edge_list(), (n as usize, m));
        lemma_count_contains(map.edge_list(), (m, n as usize));
        if map.edge_list().contains((n as usize, m)) {
            assert(is_grid_edge((n as usize, m)));
        } else {
            assert(is_grid_edge((m, n as usize)));
        }
    }
}

} // verus!
