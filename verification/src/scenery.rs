//! The forest's props: what each kind measures, how kinds are drawn at
//! random, and how far the chain of blasts through the woods can reach.
//! Lengths are in centimetres.

use vstd::prelude::*;
use crate::rng::{SimpleRng, index_of};

verus! {

#[derive(Clone, Copy, Debug, PartialEq, Eq, Structural)]
pub enum PropKind {
    Pine,
    Birch,
    Bush,
    Rock,
    Stump,
    Fern,
}

impl PropKind {
    pub open spec fn spec_height_cm(self) -> u32 {
        match self {
            PropKind::Pine => 210,
            PropKind::Birch => 180,
            PropKind::Bush => 62,
            PropKind::Rock => 55,
            PropKind::Fern => 50,
            PropKind::Stump => 36,
        }
    }

    pub open spec fn spec_hit_radius_cm(self) -> u32 {
        match self {
            PropKind::Pine => 32,
            PropKind::Birch => 28,
            PropKind::Bush | PropKind::Rock => 40,
            PropKind::Stump | PropKind::Fern => 20,
        }
    }

    /// How far the prop keeps from a rail centre line at scale one, so carts
    /// and their riders pass without clipping it.
    pub fn track_clearance_cm(self) -> (clearance: u32)
        ensures
            clearance == match self {
                PropKind::Pine | PropKind::Birch => 115u32,
                PropKind::Bush | PropKind::Rock => 95u32,
                PropKind::Stump | PropKind::Fern => 85u32,
            },
    {
        match self {
            PropKind::Pine | PropKind::Birch => 115,
            PropKind::Bush | PropKind::Rock => 95,
            PropKind::Stump | PropKind::Fern => 85,
        }
    }

    /// Ground radius two props keep between them, at scale one.
    pub fn footprint_cm(self) -> (footprint: u32)
        ensures
            footprint == match self {
                PropKind::Pine => 70u32,
                PropKind::Birch => 60u32,
                PropKind::Bush => 45u32,
                PropKind::Rock => 40u32,
                PropKind::Stump | PropKind::Fern => 30u32,
            },
    {
        match self {
            PropKind::Pine => 70,
            PropKind::Birch => 60,
            PropKind::Bush => 45,
            PropKind::Rock => 40,
            PropKind::Stump | PropKind::Fern => 30,
        }
    }

    /// Ground radius a missile has to come within to strike the prop.
    pub fn hit_radius_cm(self) -> (radius: u32)
        ensures
            radius == self.spec_hit_radius_cm(),
            radius == match self {
                PropKind::Pine => 32u32,
                PropKind::Birch => 28u32,
                PropKind::Bush | PropKind::Rock => 40u32,
                PropKind::Stump | PropKind::Fern => 20u32,
            },
    {
        match self {
            PropKind::Pine => 32,
            PropKind::Birch => 28,
            PropKind::Bush | PropKind::Rock => 40,
            PropKind::Stump | PropKind::Fern => 20,
        }
    }

    /// Top of the prop above the ground. Missiles fly over anything lower.
    pub fn height_cm(self) -> (height: u32)
        ensures
            height == self.spec_height_cm(),
            height == match self {
                PropKind::Pine => 210u32,
                PropKind::Birch => 180u32,
                PropKind::Bush => 62u32,
                PropKind::Rock => 55u32,
                PropKind::Fern => 50u32,
                PropKind::Stump => 36u32,
            },
    {
        match self {
            PropKind::Pine => 210,
            PropKind::Birch => 180,
            PropKind::Bush => 62,
            PropKind::Rock => 55,
            PropKind::Fern => 50,
            PropKind::Stump => 36,
        }
    }

    /// Whether the prop is low enough to leave the view of the arena open
    /// when it stands between the camera and the near wall.
    pub fn is_low(self) -> (low: bool)
        ensures
            low == (self.spec_height_cm() < 100),
    {
        self.height_cm() < 100
    }
}

/// The total of the weights in `kinds`.
pub open spec fn weight_sum(kinds: Seq<(PropKind, u64)>) -> nat
    decreases kinds.len(),
{
    if kinds.len() == 0 {
        0
    } else {
        weight_sum(kinds.drop_last()) + kinds.last().1 as nat
    }
}

/// The kind a draw of `pick` lands on, counting from entry `i`: the first
/// whose weight is not yet used up, or the last kind if all are.
pub open spec fn kind_at(kinds: Seq<(PropKind, u64)>, pick: int, i: int) -> PropKind
    decreases kinds.len() - i,
{
    if i >= kinds.len() - 1 || i < 0 {
        kinds.last().0
    } else if pick < kinds[i].1 {
        kinds[i].0
    } else {
        kind_at(kinds, pick - kinds[i].1, i + 1)
    }
}

/// A kind drawn with the given weights.
pub fn weighted_kind(rng: &mut SimpleRng, kinds: &[(PropKind, u64)]) -> (kind: PropKind)
    requires
        0 < weight_sum(kinds@) <= usize::MAX,
    ensures
        kind == kind_at(kinds@, index_of(old(rng).state(), weight_sum(kinds@) as usize) as int, 0),
        final(rng).state() == crate::rng::xorshift(old(rng).state()),
{
    let mut total: u64 = 0;
    let mut i: usize = 0;
    while i < kinds.len()
        invariant
            i <= kinds.len(),
            weight_sum(kinds@) <= usize::MAX,
            total == weight_sum(kinds@.take(i as int)),
        decreases kinds.len() - i,
    {
        proof {
            assert(kinds@.take(i + 1).drop_last() =~= kinds@.take(i as int));
            lemma_weight_sum_prefix(kinds@, i + 1);
        }
        total = total + kinds[i].1;
        i += 1;
    }
    assert(kinds@.take(kinds.len() as int) =~= kinds@);
    assert(kinds.len() > 0);
    let ghost start = old(rng).state();
    let mut pick = rng.index(total as usize) as u64;
    let ghost first = pick as int;
    assert(first == index_of(start, weight_sum(kinds@) as usize));
    let mut k: usize = 0;
    while k + 1 < kinds.len()
        invariant
            kinds.len() > 0,
            k < kinds.len(),
            rng.state() == crate::rng::xorshift(start),
            start == old(rng).state(),
            first == index_of(start, weight_sum(kinds@) as usize),
            kind_at(kinds@, first, 0) == kind_at(kinds@, pick as int, k as int),
        decreases kinds.len() - k,
    {
        if pick < kinds[k].1 {
            return kinds[k].0;
        }
        pick -= kinds[k].1;
        k += 1;
    }
    kinds[kinds.len() - 1].0
}

proof fn lemma_weight_sum_prefix(kinds: Seq<(PropKind, u64)>, i: int)
    requires
        0 <= i <= kinds.len(),
    ensures
        weight_sum(kinds.take(i)) <= weight_sum(kinds),
    decreases kinds.len() - i,
{
    if i < kinds.len() {
        lemma_weight_sum_prefix(kinds, i + 1);
        assert(kinds.take(i + 1).drop_last() =~= kinds.take(i));
    } else {
        assert(kinds.take(i) =~= kinds);
    }
}

/// How many links a chain of blasts has: a missile's own blast, the props it
/// wrecks, and the props those wreck, which only flash.
pub const CHAIN_LINKS: usize = 3;

/// How far beyond the walls any blast can reach.
pub const BLAST_REACH_CM: u32 = 550;

pub open spec fn spec_chain_blast_radius_cm(chain: int) -> u32 {
    if chain == 0 {
        200
    } else if chain == 1 {
        130
    } else {
        0
    }
}

/// Ground radius a blast `chain` links down the chain wrecks scenery in. The
/// last link only flashes, which keeps a blast from clearing the forest.
pub fn chain_blast_radius_cm(chain: usize) -> (radius: u32)
    requires
        chain < CHAIN_LINKS,
    ensures
        radius == spec_chain_blast_radius_cm(chain as int),
        radius == if chain == 0 {
            200u32
        } else if chain == 1 {
            130u32
        } else {
            0u32
        },
{
    if chain == 0 {
        200
    } else if chain == 1 {
        130
    } else {
        0
    }
}

/// Whether a prop wrecked by a blast `chain` links down goes up in a blast
/// of its own.
pub fn chain_continues(chain: usize) -> (continues: bool)
    ensures
        continues == (chain + 1 < CHAIN_LINKS),
{
    chain < CHAIN_LINKS - 1
}

/// The chain always ends: its blasts shrink link by link down to one that
/// wrecks nothing.
pub proof fn lemma_chain_always_ends()
    ensures
        spec_chain_blast_radius_cm(CHAIN_LINKS - 1) == 0,
        forall|i: int| 0 < i < CHAIN_LINKS ==> #[trigger] spec_chain_blast_radius_cm(i) < spec_chain_blast_radius_cm(i - 1),
{
}

/// The widest reach of a wrecked prop's own blast beyond its edge: the
/// widest prop's hit radius, scaled up by the largest prop scale of 2.2.
pub open spec fn widest_prop_cm() -> int {
    PropKind::Bush.spec_hit_radius_cm() * 22 / 10
}

/// No blast reaches the backdrop: every link of the chain that wrecks
/// anything carries the blast its radius plus one prop further out, and the
/// whole chain stays within the reach the backdrop keeps clear of.
pub proof fn lemma_no_blast_reaches_backdrop()
    ensures
        forall|kind: PropKind| #[trigger] kind.spec_hit_radius_cm() <= PropKind::Bush.spec_hit_radius_cm(),
        (spec_chain_blast_radius_cm(0) + widest_prop_cm()) + (spec_chain_blast_radius_cm(1) + widest_prop_cm()) < BLAST_REACH_CM,
{
}

/// The blast, among the first `n` to go off, that wrecks prop `p`: the
/// first of them that wrecks anything and reaches it.
pub open spec fn wrecker(chains: Seq<usize>, within: Seq<Seq<bool>>, p: int, n: int) -> Option<usize>
    decreases n,
{
    if n <= 0 {
        None
    } else {
        match wrecker(chains, within, p, n - 1) {
            Some(b) => Some(b),
            None => if spec_chain_blast_radius_cm(chains[n - 1] as int) > 0 && within[n - 1][p] {
                Some((n - 1) as usize)
            } else {
                None
            },
        }
    }
}

proof fn lemma_wrecker_reaches(chains: Seq<usize>, within: Seq<Seq<bool>>, p: int, n: int)
    requires
        n <= usize::MAX,
    ensures
        wrecker(chains, within, p, n) is Some ==> {
            let b = wrecker(chains, within, p, n)->0 as int;
            0 <= b < n && within[b][p] && spec_chain_blast_radius_cm(chains[b] as int) > 0
        },
    decreases n,
{
    if n > 0 {
        lemma_wrecker_reaches(chains, within, p, n - 1);
    }
}

/// Which blast of this frame wrecks each prop. Blast `b` is `chains[b]`
/// links down its chain and reaches prop `p` when `within[b][p]`. Blasts go
/// off in order, and two that reach the same prop wreck it only once: the
/// first one does.
pub fn wrecking_blasts(chains: &Vec<usize>, within: &Vec<Vec<bool>>, props: usize) -> (wrecked_by: Vec<Option<usize>>)
    requires
        within.len() == chains.len(),
        forall|b: int| 0 <= b < chains.len() ==> #[trigger] chains@[b] < CHAIN_LINKS,
        forall|b: int| 0 <= b < within.len() ==> #[trigger] within@[b].len() == props,
    ensures
        wrecked_by.len() == props,
        forall|p: int|
            0 <= p < props ==> #[trigger] wrecked_by@[p] == wrecker(
                chains@,
                within@.map_values(|row: Vec<bool>| row@),
                p,
                chains.len() as int,
            ),
        forall|p: int|
            0 <= p < props && #[trigger] wrecked_by@[p] is Some ==> {
                let b = wrecked_by@[p]->0 as int;
                &&& 0 <= b < chains.len()
                &&& within@[b]@[p]
                &&& spec_chain_blast_radius_cm(chains@[b] as int) > 0
            },
{
    let ghost rows = within@.map_values(|row: Vec<bool>| row@);
    proof {
        assert forall|p: int| 0 <= p < props && #[trigger] wrecker(chains@, rows, p, chains.len() as int) is Some implies {
            let b = wrecker(chains@, rows, p, chains.len() as int)->0 as int;
            0 <= b < chains.len() && rows[b][p] && spec_chain_blast_radius_cm(chains@[b] as int) > 0
        } by {
            lemma_wrecker_reaches(chains@, rows, p, chains.len() as int);
        }
    }
    let mut wrecked_by: Vec<Option<usize>> = Vec::new();
    let mut p: usize = 0;
    while p < props
        invariant
            p <= props,
            wrecked_by@.len() == p,
            forall|q: int| 0 <= q < p ==> #[trigger] wrecked_by@[q] == None::<usize>,
        decreases props - p,
    {
        wrecked_by.push(None);
        p += 1;
    }
    let mut b: usize = 0;
    while b < chains.len()
        invariant
            b <= chains.len(),
            within.len() == chains.len(),
            rows == within@.map_values(|row: Vec<bool>| row@),
            forall|c: int| 0 <= c < chains.len() ==> #[trigger] chains@[c] < CHAIN_LINKS,
            forall|c: int| 0 <= c < within.len() ==> #[trigger] within@[c].len() == props,
            wrecked_by@.len() == props,
            forall|q: int| 0 <= q < props ==> #[trigger] wrecked_by@[q] == wrecker(chains@, rows, q, b as int),
        decreases chains.len() - b,
    {
        let radius = chain_blast_radius_cm(chains[b]);
        let row = &within[b];
        assert(row@ == rows[b as int]);
        assert(within@[b as int].len() == props);
        let mut p: usize = 0;
        while p < props
            invariant
                b < chains.len(),
                p <= props,
                radius == spec_chain_blast_radius_cm(chains@[b as int] as int),
                row@ == rows[b as int],
                row@.len() == props,
                wrecked_by@.len() == props,
                forall|q: int| 0 <= q < p ==> #[trigger] wrecked_by@[q] == wrecker(chains@, rows, q, b + 1),
                forall|q: int| p <= q < props ==> #[trigger] wrecked_by@[q] == wrecker(chains@, rows, q, b as int),
            decreases props - p,
        {
            if radius > 0 && row[p] && wrecked_by[p].is_none() {
                wrecked_by.set(p, Some(b));
            }
            p += 1;
        }
        b += 1;
    }
    wrecked_by
}

/// What a blast `chain` links down its chain throws: a missile's own blast
/// is full size, with fourteen sparks and a scorch on the ground; the links
/// after it are smaller, with seven sparks and no scorch.
#[derive(Clone, Copy, Debug, PartialEq, Eq, Structural)]
pub struct BlastShape {
    pub full_size: bool,
    pub sparks: usize,
    pub scorch: bool,
}

pub fn blast_shape(chain: usize) -> (shape: BlastShape)
    ensures
        shape == if chain == 0 {
            BlastShape { full_size: true, sparks: 14, scorch: true }
        } else {
            BlastShape { full_size: false, sparks: 7, scorch: false }
        },
{
    if chain == 0 {
        BlastShape { full_size: true, sparks: 14, scorch: true }
    } else {
        BlastShape { full_size: false, sparks: 7, scorch: false }
    }
}

/// Spend one light from the frame's budget of blast lights. True when there
/// was one left to light.
pub fn take_flash(budget: &mut usize) -> (lit: bool)
    ensures
        lit == (*old(budget) > 0),
        *final(budget) == if lit { (*old(budget) - 1) as usize } else { *old(budget) },
{
    if *budget > 0 {
        *budget -= 1;
        true
    } else {
        false
    }
}

/// Blast lights that may still be lit when `burning` already are.
pub fn flashes_allowed(burning: usize) -> (allowed: usize)
    ensures
        allowed == if burning >= 3 {
            0
        } else {
            3 - burning
        },
{
    let max_flashes: usize = 3;
    max_flashes.saturating_sub(burning)
}

} // verus!
