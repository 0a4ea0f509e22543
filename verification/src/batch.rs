//! The integer bookkeeping of welding many placed copies of small meshes
//! into one mesh per material: where each copy's indices point, and which
//! batch each material, or each patch of ground, draws into.

use vstd::prelude::*;

verus! {

/// `source` with every index moved past the `base` vertices already welded.
pub open spec fn shifted(base: u32, source: Seq<u32>) -> Seq<u32> {
    Seq::new(source.len(), |i: int| (base + source[i]) as u32)
}

/// The indices of a plain triangle list of `count` vertices placed after
/// `base` vertices: `base`, `base + 1`, and so on.
pub open spec fn sequential(base: u32, count: u32) -> Seq<u32> {
    Seq::new(count as nat, |i: int| (base + i) as u32)
}

/// Append the indices of one copy of an indexed mesh, each pointing past the
/// `base` vertices the batch held before the copy.
pub fn append_shifted(indices: &mut Vec<u32>, base: u32, source: &[u32])
    requires
        forall|i: int| 0 <= i < source.len() ==> base + #[trigger] source@[i] <= u32::MAX,
    ensures
        final(indices)@ == old(indices)@ + shifted(base, source@),
{
    let ghost start = indices@;
    let mut i: usize = 0;
    while i < source.len()
        invariant
            i <= source.len(),
            forall|k: int| 0 <= k < source.len() ==> base + #[trigger] source@[k] <= u32::MAX,
            indices@ == start + shifted(base, source@).take(i as int),
        decreases source.len() - i,
    {
        let index = source[i];
        indices.push(base + index);
        proof {
            assert(shifted(base, source@).take(i + 1) =~= shifted(base, source@).take(i as int).push(
                (base + index) as u32,
            ));
        }
        i += 1;
    }
    proof {
        assert(shifted(base, source@).take(i as int) =~= shifted(base, source@));
    }
}

/// Append the indices of one copy of a mesh without indices, read as a plain
/// triangle list of `count` vertices placed after `base` vertices.
pub fn append_sequential(indices: &mut Vec<u32>, base: u32, count: u32)
    requires
        base + count <= u32::MAX + 1,
    ensures
        final(indices)@ == old(indices)@ + sequential(base, count),
{
    let ghost start = indices@;
    let mut i: u32 = 0;
    while i < count
        invariant
            i <= count,
            base + count <= u32::MAX + 1,
            indices@ == start + sequential(base, count).take(i as int),
        decreases count - i,
    {
        indices.push(base + i);
        proof {
            assert(sequential(base, count).take(i + 1) =~= sequential(base, count).take(i as int).push(
                (base + i) as u32,
            ));
        }
        i += 1;
    }
    proof {
        assert(sequential(base, count).take(i as int) =~= sequential(base, count));
    }
}

/// Every index of a welded copy points at one of that copy's own vertices,
/// never at a vertex of a copy welded before it.
pub proof fn lemma_copies_index_their_own_vertices(base: u32, source: Seq<u32>, vertices: u32)
    requires
        forall|i: int| 0 <= i < source.len() ==> #[trigger] source[i] < vertices,
        base + vertices <= u32::MAX + 1,
    ensures
        forall|i: int|
            0 <= i < source.len() ==> base <= #[trigger] shifted(base, source)[i] < base + vertices,
        forall|i: int|
            0 <= i < vertices ==> base <= #[trigger] sequential(base, vertices)[i] < base + vertices,
{
}

/// The keys of a set of batches in the order they were first used: a
/// material, or a patch of ground. A key's position here is the batch its
/// copies are welded into.
pub struct BatchSlots {
    known: Vec<u64>,
}

impl BatchSlots {
    /// The keys seen so far, first use first.
    pub closed spec fn keys(&self) -> Seq<u64> {
        self.known@
    }

    /// Each key has one batch.
    pub open spec fn wf(&self) -> bool {
        self.keys().no_duplicates()
    }

    /// No key seen yet.
    pub fn new() -> (slots: Self)
        ensures
            slots.wf(),
            slots.keys() == Seq::<u64>::empty(),
    {
        BatchSlots { known: Vec::new() }
    }

    /// How many batches there are.
    pub fn len(&self) -> (count: usize)
        ensures
            count == self.keys().len(),
    {
        self.known.len()
    }

    /// The batch `key` goes into: its own if it has been used before, else a
    /// new one after all the others.
    pub fn slot(&mut self, key: u64) -> (index: usize)
        requires
            old(self).wf(),
        ensures
            final(self).wf(),
            old(self).keys().contains(key) ==> final(self).keys() == old(self).keys(),
            !old(self).keys().contains(key) ==> final(self).keys() == old(self).keys().push(key),
            index < final(self).keys().len(),
            final(self).keys()[index as int] == key,
    {
        let mut i: usize = 0;
        while i < self.known.len()
            invariant
                i <= self.known.len(),
                self.known@ == old(self).known@,
                old(self).wf(),
                forall|k: int| 0 <= k < i ==> #[trigger] self.known@[k] != key,
            decreases self.known.len() - i,
        {
            if self.known[i] == key {
                return i;
            }
            i += 1;
        }
        let index = self.known.len();
        self.known.push(key);
        proof {
            let before = old(self).known@;
            assert(!before.contains(key));
            assert forall|a: int, b: int| 0 <= a < self.known@.len() && 0 <= b < self.known@.len() && a != b implies
                self.known@[a] != self.known@[b] by {
                if a < before.len() && b < before.len() {
                    assert(before[a] != before[b]);
                } else if a == before.len() {
                    assert(before.contains(before[b]));
                } else {
                    assert(before.contains(before[a]));
                }
            }
        }
        index
    }
}

} // verus!
