//! Walks and connectivity over a set of undirected edges.

use vstd::prelude::*;

verus! {

/// `a` and `b` are joined by an edge of `es`, in either spelling.
pub open spec fn linked(es: Set<(usize, usize)>, a: usize, b: usize) -> bool {
    es.contains((a, b)) || es.contains((b, a))
}

/// `path` steps along edges of `es` from its first node to its last.
pub open spec fn is_walk(es: Set<(usize, usize)>, path: Seq<usize>) -> bool {
    &&& path.len() > 0
    &&& forall|i: int| 0 <= i < path.len() - 1 ==> #[trigger] linked(es, path[i], path[i + 1])
}

/// Some walk along `es` leads from `a` to `b`.
pub open spec fn connected(es: Set<(usize, usize)>, a: usize, b: usize) -> bool {
    exists|path: Seq<usize>| #[trigger] is_walk(es, path) && path[0] == a && path.last() == b
}

pub proof fn lemma_connected_refl(es: Set<(usize, usize)>, a: usize)
    ensures
        connected(es, a, a),
{
    let path = seq![a];
    assert(is_walk(es, path));
}

pub proof fn lemma_connected_link(es: Set<(usize, usize)>, a: usize, b: usize)
    requires
        linked(es, a, b),
    ensures
        connected(es, a, b),
{
    let path = seq![a, b];
    assert(path[0] == a && path[1] == b);
    assert(is_walk(es, path));
}

pub proof fn lemma_connected_symmetric(es: Set<(usize, usize)>, a: usize, b: usize)
    requires
        connected(es, a, b),
    ensures
        connected(es, b, a),
{
    let path = choose|path: Seq<usize>| is_walk(es, path) && path[0] == a && path.last() == b;
    let n = path.len();
    let back = Seq::new(n, |i: int| path[n - 1 - i]);
    assert forall|i: int| 0 <= i < back.len() - 1 implies #[trigger] linked(es, back[i], back[i + 1]) by {
        let j = n - 2 - i;
        assert(linked(es, path[j], path[j + 1]));
    }
    assert(is_walk(es, back));
}

pub proof fn lemma_connected_transitive(es: Set<(usize, usize)>, a: usize, b: usize, c: usize)
    requires
        connected(es, a, b),
        connected(es, b, c),
    ensures
        connected(es, a, c),
{
    let p = choose|path: Seq<usize>| is_walk(es, path) && path[0] == a && path.last() == b;
    let q = choose|path: Seq<usize>| is_walk(es, path) && path[0] == b && path.last() == c;
    let joined = p + q.subrange(1, q.len() as int);
    assert forall|i: int| 0 <= i < joined.len() - 1 implies #[trigger] linked(
        es,
        joined[i],
        joined[i + 1],
    ) by {
        if i < p.len() - 1 {
            assert(linked(es, p[i], p[i + 1]));
        } else if i == p.len() - 1 {
            assert(joined[i] == b);
            assert(joined[i + 1] == q[1]);
            let j: int = 0;
            assert(linked(es, q[j], q[j + 1]));
        } else {
            let k = i - p.len() + 1;
            assert(joined[i] == q[k]);
            assert(joined[i + 1] == q[k + 1]);
            assert(linked(es, q[k], q[k + 1]));
        }
    }
    if q.len() == 1 {
        assert(joined =~= p);
    }
    assert(is_walk(es, joined));
    assert(joined.last() == c);
}

pub proof fn lemma_connected_grows(es: Set<(usize, usize)>, more: Set<(usize, usize)>, a: usize, b: usize)
    requires
        connected(es, a, b),
        es.subset_of(more),
    ensures
        connected(more, a, b),
{
    let p = choose|path: Seq<usize>| is_walk(es, path) && path[0] == a && path.last() == b;
    assert forall|i: int| 0 <= i < p.len() - 1 implies #[trigger] linked(more, p[i], p[i + 1]) by {
        assert(linked(es, p[i], p[i + 1]));
    }
    assert(is_walk(more, p));
}

/// With no edges, every node is on its own.
pub proof fn lemma_connected_empty(a: usize, b: usize)
    requires
        connected(Set::empty(), a, b),
    ensures
        a == b,
{
    let p = choose|path: Seq<usize>| is_walk(Set::empty(), path) && path[0] == a && path.last() == b;
    if p.len() > 1 {
        let j: int = 0;
        assert(linked(Set::empty(), p[j], p[j + 1]));
    }
}

/// A labelling that agrees across every edge agrees along every walk.
pub proof fn lemma_connected_same_label(
    es: Set<(usize, usize)>,
    label: Seq<usize>,
    a: usize,
    b: usize,
)
    requires
        forall|e: (usize, usize)| #[trigger] es.contains(e) ==> e.0 < label.len() && e.1 < label.len()
            && label[e.0 as int] == label[e.1 as int],
        a < label.len(),
        connected(es, a, b),
    ensures
        b < label.len(),
        label[a as int] == label[b as int],
{
    let p = choose|path: Seq<usize>| is_walk(es, path) && path[0] == a && path.last() == b;
    lemma_walk_same_label(es, label, p, (p.len() - 1) as nat);
}

proof fn lemma_walk_same_label(es: Set<(usize, usize)>, label: Seq<usize>, p: Seq<usize>, k: nat)
    requires
        forall|e: (usize, usize)| #[trigger] es.contains(e) ==> e.0 < label.len() && e.1 < label.len()
            && label[e.0 as int] == label[e.1 as int],
        is_walk(es, p),
        p[0] < label.len(),
        k < p.len(),
    ensures
        p[k as int] < label.len(),
        label[p[k as int] as int] == label[p[0] as int],
    decreases k,
{
    if k > 0 {
        lemma_walk_same_label(es, label, p, (k - 1) as nat);
        let j: int = k - 1;
        assert(linked(es, p[j], p[j + 1]));
        if es.contains((p[k - 1], p[k as int])) {
        } else {
            assert(es.contains((p[k as int], p[k - 1])));
        }
    }
}

} // verus!
