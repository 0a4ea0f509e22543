//! Edge detection for held directions. Sticks are analog and keys may still
//! be held from the screen before, so a press is the moment a direction is
//! newly taken up, not the fact that it is held.

use vstd::prelude::*;
use crate::roster::InputSource;

verus! {

/// The step a change from `previous` to `intent` reports: `1` on newly
/// pointing up (or right), `-1` on newly pointing down (or left), else `0`.
pub open spec fn crossing(previous: int, intent: int) -> int {
    if previous <= 0 && intent > 0 {
        1
    } else if previous >= 0 && intent < 0 {
        -1
    } else {
        0
    }
}

/// Holding a direction never reads as a second press.
pub proof fn lemma_held_direction_fires_once(intent: int)
    ensures
        crossing(intent, intent) == 0,
{
}

/// Each device appears at most once.
pub open spec fn keys_distinct<K, V>(known: Seq<(K, V)>) -> bool {
    forall|i: int, j: int| 0 <= i < j < known.len() ==> #[trigger] known[i].0 != #[trigger] known[j].0
}

/// What recording `intent` for `source` reports, and the record after it:
/// a device seen before reports the crossing from its last intent, a new
/// one reports nothing and is appended.
pub open spec fn latched(previous: Seq<(InputSource, i8)>, source: InputSource, intent: i8) -> (int, Seq<(InputSource, i8)>) {
    if exists|k: int| 0 <= k < previous.len() && #[trigger] previous[k].0 == source {
        let k = choose|k: int| 0 <= k < previous.len() && #[trigger] previous[k].0 == source;
        (crossing(previous[k].1 as int, intent as int), previous.update(k, (source, intent)))
    } else {
        (0, previous.push((source, intent)))
    }
}

/// Last frame's vertical intent per device in the lobby.
pub struct LobbyLatch {
    previous: Vec<(InputSource, i8)>,
}

impl LobbyLatch {
    /// Each device's last intent, in the order the devices were first seen.
    pub closed spec fn records(&self) -> Seq<(InputSource, i8)> {
        self.previous@
    }

    /// How many devices the latch remembers.
    pub fn len(&self) -> (count: usize)
        ensures
            count == self.records().len(),
    {
        self.previous.len()
    }

    pub fn new() -> (latch: Self)
        ensures
            latch.records() == Seq::<(InputSource, i8)>::empty(),
    {
        LobbyLatch { previous: Vec::new() }
    }

    /// Forget every device, as when the lobby opens again.
    pub fn clear(&mut self)
        ensures
            final(self).records() == Seq::<(InputSource, i8)>::empty(),
    {
        self.previous.clear();
    }

    /// Record `intent` and report whether it just crossed into up or down. A
    /// device seen for the first time adopts its intent without a press.
    pub fn edge(&mut self, source: InputSource, intent: i8) -> (crossed: i8)
        requires
            keys_distinct(old(self).records()),
        ensures
            keys_distinct(final(self).records()),
            match (exists|i: int| 0 <= i < old(self).records().len() && #[trigger] old(self).records()[i].0 == source) {
                true => exists|k: int|
                    0 <= k < old(self).records().len() && #[trigger] old(self).records()[k].0 == source
                    && crossed == crossing(old(self).records()[k].1 as int, intent as int)
                    && final(self).records() == old(self).records().update(k, (source, intent)),
                false => crossed == 0 && final(self).records() == old(self).records().push((source, intent)),
            },
            (crossed as int, final(self).records()) == latched(old(self).records(), source, intent),
    {
        let mut i: usize = 0;
        while i < self.previous.len()
            invariant
                i <= self.previous.len(),
                self.records() == old(self).records(),
                keys_distinct(self.records()),
                forall|j: int| 0 <= j < i ==> #[trigger] self.records()[j].0 != source,
            decreases self.previous.len() - i,
        {
            if self.previous[i].0 == source {
                let previous = self.previous[i].1;
                let crossed: i8 = if previous <= 0 && intent > 0 {
                    1
                } else if previous >= 0 && intent < 0 {
                    -1
                } else {
                    0
                };
                self.previous.set(i, (source, intent));
                proof {
                    let start = old(self).records();
                    let k = choose|k: int| 0 <= k < start.len() && #[trigger] start[k].0 == source;
                    assert(start[i as int].0 == source);
                    assert(k == i);
                }
                return crossed;
            }
            i += 1;
        }
        self.previous.push((source, intent));
        0
    }

    /// Drop the devices that are no longer present.
    pub fn forget_absent(&mut self, present: &[InputSource])
        requires
            keys_distinct(old(self).records()),
        ensures
            keys_distinct(final(self).records()),
            final(self).records() == old(self).records().filter(|entry: (InputSource, i8)| present@.contains(entry.0)),
    {
        let mut kept: Vec<(InputSource, i8)> = Vec::new();
        let mut i: usize = 0;
        while i < self.previous.len()
            invariant
                i <= self.previous.len(),
                self.records() == old(self).records(),
                keys_distinct(self.records()),
                kept@ == self.records().take(i as int).filter(|entry: (InputSource, i8)| present@.contains(entry.0)),
                forall|a: int| 0 <= a < kept.len() ==> exists|b: int| 0 <= b < i && #[trigger] self.records()[b] == #[trigger] kept@[a],
                keys_distinct(kept@),
            decreases self.previous.len() - i,
        {
            let entry = self.previous[i];
            proof {
                reveal_with_fuel(Seq::filter, 1);
                assert(self.records().take(i + 1).drop_last() =~= self.records().take(i as int));
            }
            let listed = source_listed(present, entry.0);
            if listed {
                kept.push(entry);
            }
            proof {
                let t = self.records().take(i + 1);
                assert(t.last() == entry);
                assert(present@.contains(entry.0) == listed);
                assert(t.filter(|entry: (InputSource, i8)| present@.contains(entry.0)) == if present@.contains(t.last().0) {
                    t.drop_last().filter(|entry: (InputSource, i8)| present@.contains(entry.0)).push(t.last())
                } else {
                    t.drop_last().filter(|entry: (InputSource, i8)| present@.contains(entry.0))
                });
            }
            i += 1;
        }
        proof {
            assert(self.records().take(i as int) =~= self.records());
        }
        self.previous = kept;
    }
}

impl Default for LobbyLatch {
    fn default() -> (latch: Self)
        ensures
            latch.records() == Seq::<(InputSource, i8)>::empty(),
    {
        LobbyLatch::new()
    }
}

/// `source` occurs in `present`.
pub fn source_listed(present: &[InputSource], source: InputSource) -> (found: bool)
    ensures
        found == present@.contains(source),
{
    let mut i: usize = 0;
    while i < present.len()
        invariant
            i <= present.len(),
            forall|j: int| 0 <= j < i ==> present@[j] != source,
        decreases present.len() - i,
    {
        if present[i] == source {
            return true;
        }
        i += 1;
    }
    false
}

/// A keyboard's join intent from whether its up and down keys are held.
pub fn key_intent(up: bool, down: bool) -> (intent: i8)
    ensures
        intent == if up && !down {
            1i8
        } else if down && !up {
            -1i8
        } else {
            0i8
        },
{
    match (up, down) {
        (true, false) => 1,
        (false, true) => -1,
        _ => 0,
    }
}

/// One axis of a stick's step: `1` on newly pointing forwards, `-1` on newly
/// pointing backwards.
pub fn axis_edge(previous: i32, intent: i32) -> (step: i32)
    ensures
        step == crossing(previous as int, intent as int),
{
    if previous <= 0 && intent > 0 {
        1
    } else if previous >= 0 && intent < 0 {
        -1
    } else {
        0
    }
}

impl Default for StickLatch {
    fn default() -> (latch: Self)
        ensures
            latch.records() == Seq::<(u64, (i32, i32))>::empty(),
    {
        StickLatch::new()
    }
}

/// What recording `intent` for `pad` reports, axis by axis, and the record
/// after it.
pub open spec fn stick_latched(previous: Seq<(u64, (i32, i32))>, pad: u64, intent: (i32, i32)) -> ((int, int), Seq<(u64, (i32, i32))>) {
    if exists|k: int| 0 <= k < previous.len() && #[trigger] previous[k].0 == pad {
        let k = choose|k: int| 0 <= k < previous.len() && #[trigger] previous[k].0 == pad;
        (
            (crossing(previous[k].1.0 as int, intent.0 as int), crossing(previous[k].1.1 as int, intent.1 as int)),
            previous.update(k, (pad, intent)),
        )
    } else {
        ((0, 0), previous.push((pad, intent)))
    }
}

/// Last frame's direction per gamepad, known by its entity's number.
pub struct StickLatch {
    previous: Vec<(u64, (i32, i32))>,
}

impl StickLatch {
    /// Each pad's last direction, in the order the pads were first seen.
    pub closed spec fn records(&self) -> Seq<(u64, (i32, i32))> {
        self.previous@
    }

    /// How many pads the latch remembers.
    pub fn len(&self) -> (count: usize)
        ensures
            count == self.records().len(),
    {
        self.previous.len()
    }

    pub fn new() -> (latch: Self)
        ensures
            latch.records() == Seq::<(u64, (i32, i32))>::empty(),
    {
        StickLatch { previous: Vec::new() }
    }

    /// Record `intent` for `pad` and report the axes that just crossed into
    /// it. A pad seen for the first time adopts its direction without a step.
    pub fn edge(&mut self, pad: u64, intent: (i32, i32)) -> (crossed: (i32, i32))
        requires
            keys_distinct(old(self).records()),
        ensures
            keys_distinct(final(self).records()),
            match (exists|i: int| 0 <= i < old(self).records().len() && #[trigger] old(self).records()[i].0 == pad) {
                true => exists|k: int|
                    0 <= k < old(self).records().len() && #[trigger] old(self).records()[k].0 == pad
                    && crossed.0 == crossing(old(self).records()[k].1.0 as int, intent.0 as int)
                    && crossed.1 == crossing(old(self).records()[k].1.1 as int, intent.1 as int)
                    && final(self).records() == old(self).records().update(k, (pad, intent)),
                false => crossed == (0i32, 0i32) && final(self).records() == old(self).records().push((pad, intent)),
            },
            ((crossed.0 as int, crossed.1 as int), final(self).records()) == stick_latched(old(self).records(), pad, intent),
    {
        let mut i: usize = 0;
        while i < self.previous.len()
            invariant
                i <= self.previous.len(),
                self.records() == old(self).records(),
                keys_distinct(self.records()),
                forall|j: int| 0 <= j < i ==> #[trigger] self.records()[j].0 != pad,
            decreases self.previous.len() - i,
        {
            if self.previous[i].0 == pad {
                let previous = self.previous[i].1;
                let crossed = (axis_edge(previous.0, intent.0), axis_edge(previous.1, intent.1));
                self.previous.set(i, (pad, intent));
                proof {
                    let start = old(self).records();
                    let k = choose|k: int| 0 <= k < start.len() && #[trigger] start[k].0 == pad;
                    assert(start[i as int].0 == pad);
                    assert(k == i);
                }
                return crossed;
            }
            i += 1;
        }
        self.previous.push((pad, intent));
        (0, 0)
    }

    /// Drop the pads that are no longer connected.
    pub fn forget_absent(&mut self, present: &[u64])
        requires
            keys_distinct(old(self).records()),
        ensures
            keys_distinct(final(self).records()),
            final(self).records() == old(self).records().filter(|entry: (u64, (i32, i32))| present@.contains(entry.0)),
    {
        let mut kept: Vec<(u64, (i32, i32))> = Vec::new();
        let mut i: usize = 0;
        while i < self.previous.len()
            invariant
                i <= self.previous.len(),
                self.records() == old(self).records(),
                keys_distinct(self.records()),
                kept@ == self.records().take(i as int).filter(|entry: (u64, (i32, i32))| present@.contains(entry.0)),
                forall|a: int| 0 <= a < kept.len() ==> exists|b: int| 0 <= b < i && #[trigger] self.records()[b] == #[trigger] kept@[a],
                keys_distinct(kept@),
            decreases self.previous.len() - i,
        {
            let entry = self.previous[i];
            proof {
                reveal_with_fuel(Seq::filter, 1);
                assert(self.records().take(i + 1).drop_last() =~= self.records().take(i as int));
            }
            let listed = crate::roster::slice_contains(present, entry.0);
            if listed {
                kept.push(entry);
            }
            proof {
                let t = self.records().take(i + 1);
                assert(t.last() == entry);
                assert(present@.contains(entry.0) == listed);
                assert(t.filter(|entry: (u64, (i32, i32))| present@.contains(entry.0)) == if present@.contains(t.last().0) {
                    t.drop_last().filter(|entry: (u64, (i32, i32))| present@.contains(entry.0)).push(t.last())
                } else {
                    t.drop_last().filter(|entry: (u64, (i32, i32))| present@.contains(entry.0))
                });
            }
            i += 1;
        }
        proof {
            assert(self.records().take(i as int) =~= self.records());
        }
        self.previous = kept;
    }
}

} // verus!
