//! A small xorshift generator. Everything random about a map, its forest and
//! its explosions is drawn from it, so a seed reproduces a whole arena.

use vstd::prelude::*;

verus! {

/// The state used in place of a zero seed, which xorshift would never leave.
pub const ZERO_SEED_STATE: u64 = 0x9e37_79b9_7f4a_7c15;

/// The odd constant each output is multiplied by.
pub const MULTIPLIER: u64 = 0x2545_f491_4f6c_dd1d;

/// The state a generator starts from for `seed`.
pub open spec fn seed_state(seed: u64) -> u64 {
    if seed == 0 {
        ZERO_SEED_STATE
    } else {
        seed
    }
}

/// One step of the generator: three xorshifts, then a wrapping multiply.
pub open spec fn xorshift(state: u64) -> u64 {
    let a = state ^ (state >> 12u64);
    let b = a ^ (a << 25u64);
    let c = b ^ (b >> 27u64);
    vstd::wrapping::u64_specs::wrapping_mul(c, MULTIPLIER)
}

/// What `index` returns for a generator in `state`.
pub open spec fn index_of(state: u64, length: usize) -> usize {
    (xorshift(state) as usize) % length
}

/// What `chance` returns for a generator in `state`.
pub open spec fn chance_of(state: u64, percent: u64) -> bool {
    xorshift(state) % 100 < percent
}

/// `s` with the items at `a` and `b` exchanged.
pub open spec fn swapped<T>(s: Seq<T>, a: int, b: int) -> Seq<T> {
    s.update(a, s[b]).update(b, s[a])
}

/// The Fisher-Yates pass over the positions `top` down to one: each position
/// swaps with one drawn from itself and the positions below it.
pub open spec fn shuffle_below<T>(state: u64, s: Seq<T>, top: nat) -> (u64, Seq<T>)
    decreases top,
{
    if top == 0 {
        (state, s)
    } else {
        let j = index_of(state, (top + 1) as usize);
        shuffle_below(xorshift(state), swapped(s, top as int, j as int), (top - 1) as nat)
    }
}

/// The generator's state and the order of `s` after `shuffle`.
pub open spec fn shuffled<T>(state: u64, s: Seq<T>) -> (u64, Seq<T>) {
    if s.len() == 0 {
        (state, s)
    } else {
        shuffle_below(state, s, (s.len() - 1) as nat)
    }
}

/// A shuffle only reorders: the result is as long as `s` and holds exactly
/// the items `s` holds.
pub proof fn lemma_shuffle_below_permutes<T>(state: u64, s: Seq<T>, top: nat)
    requires
        top < s.len(),
        s.len() <= usize::MAX,
    ensures
        shuffle_below(state, s, top).1.len() == s.len(),
        forall|x: T| #[trigger] shuffle_below(state, s, top).1.contains(x) <==> s.contains(x),
    decreases top,
{
    if top > 0 {
        let j = index_of(state, (top + 1) as usize);
        assert((top + 1) as usize == top + 1);
        assert(j < top + 1);
        let t = swapped(s, top as int, j as int);
        assert forall|x: T| t.contains(x) <==> s.contains(x) by {
            if s.contains(x) {
                let k = choose|k: int| 0 <= k < s.len() && s[k] == x;
                if k == top {
                    assert(t[j as int] == x);
                } else if k == j {
                    assert(t[top as int] == x);
                } else {
                    assert(t[k] == x);
                }
            }
            if t.contains(x) {
                let k = choose|k: int| 0 <= k < t.len() && t[k] == x;
                if k == top {
                    assert(s[j as int] == x);
                } else if k == j {
                    assert(s[top as int] == x);
                } else {
                    assert(s[k] == x);
                }
            }
        }
        lemma_shuffle_below_permutes(xorshift(state), t, (top - 1) as nat);
    }
}

proof fn lemma_shuffle_below_keeps_above<T>(state: u64, s: Seq<T>, top: nat)
    requires
        top < s.len(),
        s.len() <= usize::MAX,
    ensures
        shuffle_below(state, s, top).1.len() == s.len(),
        forall|k: int| top < k < s.len() ==> #[trigger] shuffle_below(state, s, top).1[k] == s[k],
    decreases top,
{
    if top > 0 {
        let j = index_of(state, (top + 1) as usize);
        assert((top + 1) as usize == top + 1);
        assert(j < top + 1);
        let t = swapped(s, top as int, j as int);
        lemma_shuffle_below_keeps_above(xorshift(state), t, (top - 1) as nat);
        assert forall|k: int| top < k < s.len() implies #[trigger] shuffle_below(state, s, top).1[k] == s[k] by {
            assert(shuffle_below(xorshift(state), t, (top - 1) as nat).1[k] == t[k]);
        }
    }
}

/// Each step of the shuffle draws from every position up to and including
/// its own, so an item can stay where it is: the item the shuffle leaves
/// last is the one at the position the first draw picks among all
/// `s.len()` positions, the last one included. For two items, a first draw
/// of `1` leaves them in their order.
pub proof fn lemma_shuffle_draws_the_last_from_every_position<T>(state: u64, s: Seq<T>)
    requires
        0 < s.len() <= usize::MAX,
    ensures
        shuffled(state, s).1.len() == s.len(),
        shuffled(state, s).1[s.len() - 1] == s[index_of(state, s.len() as usize) as int],
        s.len() == 2 && index_of(state, 2) == 1 ==> shuffled(state, s).1 == s,
{
    let top = (s.len() - 1) as nat;
    lemma_shuffle_below_permutes(state, s, top);
    if top == 0 {
        assert(index_of(state, 1) == 0);
    } else {
        let j = index_of(state, (top + 1) as usize);
        assert((top + 1) as usize == s.len());
        assert(j < top + 1);
        let t = swapped(s, top as int, j as int);
        lemma_shuffle_below_keeps_above(xorshift(state), t, (top - 1) as nat);
        assert(shuffle_below(xorshift(state), t, (top - 1) as nat).1[top as int] == t[top as int]);
        if s.len() == 2 && index_of(state, 2) == 1 {
            assert(t =~= s);
            assert(shuffle_below(xorshift(state), t, 0) == (xorshift(state), t));
        }
    }
}

/// `shuffle` keeps the length and the items of what it shuffles.
pub proof fn lemma_shuffle_permutes<T>(state: u64, s: Seq<T>)
    requires
        s.len() <= usize::MAX,
    ensures
        shuffled(state, s).1.len() == s.len(),
        forall|x: T| #[trigger] shuffled(state, s).1.contains(x) <==> s.contains(x),
{
    if s.len() > 0 {
        lemma_shuffle_below_permutes(state, s, (s.len() - 1) as nat);
    }
}

/// `<[T]>::swap` exchanges the two items, and panics unless both indices
/// are in bounds.
pub assume_specification<Elem>[ <[Elem]>::swap ](slice: &mut [Elem], a: usize, b: usize)
    requires
        a < old(slice)@.len(),
        b < old(slice)@.len(),
    ensures
        final(slice)@ == swapped(old(slice)@, a as int, b as int),
;

/// Deterministic randomness for map generation and effects.
pub struct SimpleRng(u64);

impl SimpleRng {
    /// The generator's current state.
    pub closed spec fn state(&self) -> u64 {
        self.0
    }

    pub fn new(seed: u64) -> (rng: Self)
        ensures
            rng.state() == seed_state(seed),
    {
        Self(if seed == 0 {
            ZERO_SEED_STATE
        } else {
            seed
        })
    }

    pub fn next(&mut self) -> (value: u64)
        ensures
            value == xorshift(old(self).state()),
            final(self).state() == value,
    {
        self.0 ^= self.0 >> 12;
        self.0 ^= self.0 << 25;
        self.0 ^= self.0 >> 27;
        self.0 = self.0.wrapping_mul(MULTIPLIER);
        self.0
    }

    /// An index below `length`.
    pub fn index(&mut self, length: usize) -> (index: usize)
        requires
            length > 0,
        ensures
            index == index_of(old(self).state(), length),
            index < length,
            final(self).state() == xorshift(old(self).state()),
    {
        (self.next() as usize) % length
    }

    /// True `percent` times in a hundred.
    pub fn chance(&mut self, percent: u64) -> (hit: bool)
        ensures
            hit == chance_of(old(self).state(), percent),
            final(self).state() == xorshift(old(self).state()),
    {
        self.next() % 100 < percent
    }

    /// Put `values` in a random order (Fisher-Yates, from the back).
    pub fn shuffle<T>(&mut self, values: &mut [T])
        ensures
            (final(self).state(), final(values)@) == shuffled(old(self).state(), old(values)@),
    {
        let ghost start = (self.0, values@);
        let length = values.len();
        let mut index = length;
        while index > 1
            invariant
                values@.len() == length,
                index <= length,
                length == 0 ==> index == 0,
                length > 0 ==> index >= 1,
                shuffled(start.0, start.1) == (if index == 0 {
                    (self.0, values@)
                } else {
                    shuffle_below(self.0, values@, (index - 1) as nat)
                }),
            decreases index,
        {
            index -= 1;
            let j = self.index(index + 1);
            values.swap(index, j);
        }
    }
}

} // verus!

verus! {

/// `x` rotated left by `n` bits, as `u64::rotate_left` does.
pub open spec fn rotated_left(x: u64, n: u32) -> u64 {
    if n == 0 {
        x
    } else {
        (x << n) | (x >> (64 - n) as u32)
    }
}

/// `x` rotated left by `n` bits; whole turns of 64 bits change nothing.
pub fn rotate_left(x: u64, n: u32) -> (r: u64)
    ensures
        r == rotated_left(x, n % 64),
{
    let k = n % 64;
    if k == 0 {
        x
    } else {
        (x << k) | (x >> (64 - k))
    }
}

} // verus!
