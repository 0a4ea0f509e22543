//! Disjoint sets over the grid's junctions, with path compression. The
//! generator links junctions through it so that its first pass builds a
//! spanning tree.

use vstd::prelude::*;
use crate::graph::{connected, lemma_connected_grows, lemma_connected_link, lemma_connected_same_label, lemma_connected_symmetric, lemma_connected_transitive, linked};
use crate::map::normalized;

verus! {

/// Parent links, plus the ghost bookkeeping that shows they form a forest:
/// each node's root, and a rank that strictly grows towards the root.
pub struct UnionFind {
    parents: Vec<usize>,
    roots: Ghost<Seq<usize>>,
    rank: Ghost<Seq<nat>>,
    bound: Ghost<nat>,
}

/// `roots` after the tree rooted at `roots[right]` is hung under `roots[left]`.
pub open spec fn merged_roots(roots: Seq<usize>, left: usize, right: usize) -> Seq<usize> {
    Seq::new(
        25,
        |x: int|
            if roots[x] == roots[right as int] {
                roots[left as int]
            } else {
                roots[x]
            },
    )
}

/// `parents` is a forest whose node `x` has root `roots[x]`, with ranks
/// below `bound` that grow strictly from child to parent.
pub open spec fn is_forest(p: Seq<usize>, r: Seq<usize>, k: Seq<nat>, bound: nat) -> bool {
    &&& p.len() == 25
    &&& r.len() == 25
    &&& k.len() == 25
    &&& forall|x: int|
        #![trigger p[x]]
        #![trigger r[x]]
        #![trigger k[x]]
        0 <= x < 25 ==> {
            &&& p[x] < 25
            &&& r[x] < 25
            &&& k[x] < bound
            &&& p[r[x] as int] == r[x]
            &&& r[p[x] as int] == r[x]
            &&& (p[x] == x ==> r[x] == x)
            &&& (p[x] != x ==> k[p[x] as int] > k[x])
        }
}

/// The rank after hanging root `rr` under root `lr`.
pub open spec fn linked_rank(k: Seq<nat>, lr: int, rr: int) -> Seq<nat> {
    k.update(lr, if k[lr] > k[rr] { k[lr] } else { k[rr] + 1 })
}

proof fn lemma_link_keeps_forest(p: Seq<usize>, r: Seq<usize>, k: Seq<nat>, b: nat, left: usize, right: usize)
    requires
        is_forest(p, r, k, b),
        left < 25,
        right < 25,
        r[left as int] != r[right as int],
    ensures
        is_forest(
            p.update(r[right as int] as int, r[left as int]),
            merged_roots(r, left, right),
            linked_rank(k, r[left as int] as int, r[right as int] as int),
            b + 1,
        ),
{
    let lr = r[left as int] as int;
    let rr = r[right as int] as int;
    assert(p[lr] == lr);
    assert(p[rr] == rr);
    let p2 = p.update(rr, lr as usize);
    let r2 = merged_roots(r, left, right);
    let k2 = linked_rank(k, lr, rr);
    assert forall|x: int| #![trigger p2[x]] 0 <= x < 25 implies {
        &&& p2[x] < 25
        &&& r2[x] < 25
        &&& k2[x] < b + 1
        &&& p2[r2[x] as int] == r2[x]
        &&& r2[p2[x] as int] == r2[x]
        &&& (p2[x] == x ==> r2[x] == x)
        &&& (p2[x] != x ==> k2[p2[x] as int] > k2[x])
    } by {
        assert(r[x] < 25);
        let y = r[x] as int;
        assert(p[y] == y);
        assert(r[y] == y);
        assert(r[p[x] as int] == r[x]);
    }
}

proof fn lemma_compress_keeps_forest(p: Seq<usize>, r: Seq<usize>, k: Seq<nat>, b: nat, node: int)
    requires
        is_forest(p, r, k, b),
        0 <= node < 25,
        p[node] != node,
        k[r[node] as int] > k[node],
    ensures
        is_forest(p.update(node, r[node]), r, k, b),
        r[node] != node,
{
    let root = r[node] as int;
    assert(p[root] == root);
    assert(r[root] == root);
    let p2 = p.update(node, r[node]);
    assert forall|x: int| #![trigger p2[x]] 0 <= x < 25 implies {
        &&& p2[x] < 25
        &&& r[x] < 25
        &&& k[x] < b
        &&& p2[r[x] as int] == r[x]
        &&& r[p2[x] as int] == r[x]
        &&& (p2[x] == x ==> r[x] == x)
        &&& (p2[x] != x ==> k[p2[x] as int] > k[x])
    } by {
        let y = r[x] as int;
        assert(p[y] == y);
        if y == node {
            assert(r[node] == node);
        }
    }
}

impl UnionFind {
    /// Each junction's parent link.
    pub closed spec fn parent_links(&self) -> Seq<usize> {
        self.parents@
    }

    /// Each junction's root: the junction its parent links lead to.
    pub closed spec fn roots(&self) -> Seq<usize> {
        self.roots@
    }

    /// Each junction's rank, which strictly grows along a parent link.
    pub closed spec fn ranks(&self) -> Seq<nat> {
        self.rank@
    }

    /// A bound above every rank.
    pub closed spec fn rank_bound(&self) -> nat {
        self.bound@
    }

    pub open spec fn wf(&self) -> bool {
        is_forest(self.parent_links(), self.roots(), self.ranks(), self.rank_bound())
    }

    /// Every junction on its own.
    pub fn new() -> (sets: Self)
        ensures
            sets.wf(),
            forall|x: int| 0 <= x < 25 ==> #[trigger] sets.roots()[x] == x,
    {
        let mut parents: Vec<usize> = Vec::new();
        let mut node: usize = 0;
        while node < 25
            invariant
                node <= 25,
                parents.len() == node,
                forall|x: int| 0 <= x < node ==> #[trigger] parents@[x] == x,
            decreases 25 - node,
        {
            parents.push(node);
            node += 1;
        }
        UnionFind {
            parents,
            roots: Ghost(Seq::new(25, |x: int| x as usize)),
            rank: Ghost(Seq::new(25, |x: int| 0nat)),
            bound: Ghost(1),
        }
    }

    /// The root of `node`'s tree, pointing every node on the way straight at it.
    pub fn find_root(&mut self, node: usize) -> (root: usize)
        requires
            old(self).wf(),
            node < 25,
        ensures
            final(self).wf(),
            final(self).roots() == old(self).roots(),
            final(self).ranks() == old(self).ranks(),
            final(self).rank_bound() == old(self).rank_bound(),
            root == old(self).roots()[node as int],
            old(self).parent_links()[node as int] != node ==> old(self).ranks()[root as int] > old(
                self,
            ).ranks()[node as int],
            forall|x: int|
                0 <= x < 25 ==> (#[trigger] final(self).parent_links()[x] == x <==> old(self).parent_links()[x]
                    == x),
        decreases old(self).rank_bound() - old(self).ranks()[node as int],
    {
        if self.parents[node] != node {
            let parent = self.parents[node];
            assert(self.ranks()[parent as int] > self.ranks()[node as int]);
            let root = self.find_root(parent);
            proof {
                lemma_compress_keeps_forest(self.parent_links(), self.roots(), self.ranks(), self.rank_bound(), node as int);
            }
            self.parents.set(node, root);
        }
        self.parents[node]
    }

    /// Join the trees of `left` and `right`. True when they were apart.
    pub fn union(&mut self, left: usize, right: usize) -> (joined: bool)
        requires
            old(self).wf(),
            left < 25,
            right < 25,
        ensures
            final(self).wf(),
            joined == (old(self).roots()[left as int] != old(self).roots()[right as int]),
            final(self).roots() == if joined {
                merged_roots(old(self).roots(), left, right)
            } else {
                old(self).roots()
            },
    {
        let left_root = self.find_root(left);
        let right_root = self.find_root(right);
        if left_root == right_root {
            false
        } else {
            let ghost r = self.roots();
            let ghost k = self.ranks();
            let ghost b = self.rank_bound();
            proof {
                lemma_link_keeps_forest(self.parent_links(), r, k, b, left, right);
            }
            self.parents.set(right_root, left_root);
            self.roots = Ghost(merged_roots(r, left, right));
            self.rank = Ghost(linked_rank(k, left_root as int, right_root as int));
            self.bound = Ghost(b + 1);
            true
        }
    }
}

/// Merging two components keeps the roots in step with connectivity: two
/// junctions share a root exactly when the selected edges join them.
pub proof fn lemma_merge_components(roots: Seq<usize>, sel: Set<(usize, usize)>, l: usize, r: usize)
    requires
        roots.len() == 25,
        forall|x: int| 0 <= x < 25 ==> #[trigger] roots[x] < 25,
        l < 25,
        r < 25,
        roots[l as int] != roots[r as int],
        forall|e: (usize, usize)| #[trigger] sel.contains(e) ==> e.0 < 25 && e.1 < 25,
        forall|x: usize, y: usize|
            x < 25 && y < 25 ==> (#[trigger] roots[x as int] == #[trigger] roots[y as int]
                <==> connected(sel, x, y)),
    ensures
        forall|x: usize, y: usize|
            x < 25 && y < 25 ==> (#[trigger] merged_roots(roots, l, r)[x as int]
                == #[trigger] merged_roots(roots, l, r)[y as int] <==> connected(
                sel.insert(normalized((l, r))),
                x,
                y,
            )),
{
    let m = merged_roots(roots, l, r);
    let sel2 = sel.insert(normalized((l, r)));
    assert(sel.subset_of(sel2));
    assert forall|e: (usize, usize)| #[trigger] sel2.contains(e) implies e.0 < m.len() && e.1
        < m.len() && m[e.0 as int] == m[e.1 as int] by {
        if sel.contains(e) {
            lemma_connected_link(sel, e.0, e.1);
            assert(roots[e.0 as int] == roots[e.1 as int]);
        }
    }
    assert(linked(sel2, l, r));
    lemma_connected_link(sel2, l, r);
    lemma_connected_symmetric(sel2, l, r);
    assert forall|x: usize, y: usize| x < 25 && y < 25 implies (#[trigger] m[x as int]
        == #[trigger] m[y as int] <==> connected(sel2, x, y)) by {
        if connected(sel2, x, y) {
            lemma_connected_same_label(sel2, m, x, y);
        }
        if m[x as int] == m[y as int] {
            if roots[x as int] == roots[y as int] {
                lemma_connected_grows(sel, sel2, x, y);
            } else if roots[x as int] == roots[l as int] {
                assert(roots[y as int] == roots[r as int]);
                assert(connected(sel, x, l));
                assert(connected(sel, r, y));
                lemma_connected_grows(sel, sel2, x, l);
                lemma_connected_grows(sel, sel2, r, y);
                lemma_connected_transitive(sel2, x, l, r);
                lemma_connected_transitive(sel2, x, r, y);
            } else {
                assert(roots[x as int] == roots[r as int]);
                assert(roots[y as int] == roots[l as int]);
                assert(connected(sel, x, r));
                assert(connected(sel, l, y));
                lemma_connected_grows(sel, sel2, x, r);
                lemma_connected_grows(sel, sel2, l, y);
                lemma_connected_transitive(sel2, x, r, l);
                lemma_connected_transitive(sel2, x, l, y);
            }
        }
    }
}

} // verus!
