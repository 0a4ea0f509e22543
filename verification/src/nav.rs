//! One device-agnostic reading of what the menus were asked to do this
//! frame, and how the highlight moves through a screen's buttons.

use vstd::prelude::*;
use crate::latch::{StickLatch, keys_distinct, stick_latched};

verus! {

/// The game's screens.
#[derive(Clone, Copy, Debug, PartialEq, Eq, Structural)]
pub enum AppState {
    MainMenu,
    Lobby,
    Playing,
}

/// Which way a screen lays its buttons out, and so which pair of directions
/// steps through them.
#[derive(Clone, Copy, Debug, PartialEq, Eq, Structural)]
pub enum NavAxis {
    Vertical,
    Horizontal,
}

/// One frame of menu intent, merged across the keyboard and every pad. Every
/// field is an edge, so holding a direction or a button acts only once.
#[derive(Clone, Copy, Debug, PartialEq, Eq, Structural)]
pub struct MenuInput {
    pub up: bool,
    pub down: bool,
    pub left: bool,
    pub right: bool,
    /// Enter, Space, or the pad's south face button.
    pub accept: bool,
    /// Escape or the pad's east face button.
    pub cancel: bool,
    /// The pad's Start button, which has no keyboard counterpart.
    pub start: bool,
}

impl Default for MenuInput {
    fn default() -> (input: Self)
        ensures
            !input.up && !input.down && !input.left && !input.right && !input.accept && !input.cancel
                && !input.start,
    {
        MenuInput {
            up: false,
            down: false,
            left: false,
            right: false,
            accept: false,
            cancel: false,
            start: false,
        }
    }
}

/// `1` for true, `0` for false.
pub open spec fn flag(b: bool) -> int {
    if b {
        1
    } else {
        0
    }
}

impl MenuInput {
    /// `-1` to step towards the first button, `1` towards the last, `0` to stay.
    pub fn step(&self, axis: NavAxis) -> (step: i32)
        ensures
            step == match axis {
                NavAxis::Vertical => flag(self.down) - flag(self.up),
                NavAxis::Horizontal => flag(self.right) - flag(self.left),
            },
    {
        let (backwards, forwards) = match axis {
            NavAxis::Vertical => (self.up, self.down),
            NavAxis::Horizontal => (self.left, self.right),
        };
        let forwards: i32 = if forwards {
            1
        } else {
            0
        };
        let backwards: i32 = if backwards {
            1
        } else {
            0
        };
        forwards - backwards
    }

    /// Start confirms the highlighted button like the south face button does.
    pub fn accepted(&self) -> (accepted: bool)
        ensures
            accepted == (self.accept || self.start),
    {
        self.accept || self.start
    }

    /// Merge one pad into the frame: its stick or d-pad step, and its south,
    /// east, and Start buttons.
    pub fn add_pad(&mut self, stepped: (i32, i32), south: bool, east: bool, start: bool)
        ensures
            final(self).up == (old(self).up || stepped.1 > 0),
            final(self).down == (old(self).down || stepped.1 < 0),
            final(self).left == (old(self).left || stepped.0 < 0),
            final(self).right == (old(self).right || stepped.0 > 0),
            final(self).accept == (old(self).accept || south),
            final(self).cancel == (old(self).cancel || east),
            final(self).start == (old(self).start || start),
    {
        self.up = self.up || stepped.1 > 0;
        self.down = self.down || stepped.1 < 0;
        self.left = self.left || stepped.0 < 0;
        self.right = self.right || stepped.0 > 0;
        self.accept = self.accept || south;
        self.cancel = self.cancel || east;
        self.start = self.start || start;
    }
}

/// `input` with one pad's step and buttons merged in.
pub open spec fn with_pad(input: MenuInput, stepped: (int, int), south: bool, east: bool, start: bool) -> MenuInput {
    MenuInput {
        up: input.up || stepped.1 > 0,
        down: input.down || stepped.1 < 0,
        left: input.left || stepped.0 < 0,
        right: input.right || stepped.0 > 0,
        accept: input.accept || south,
        cancel: input.cancel || east,
        start: input.start || start,
    }
}

/// One gamepad this frame: its number, its direction quantised to one step
/// per axis (`x` rightwards, `y` upwards), and whether its south, east, and
/// Start buttons were just pressed.
#[derive(Clone, Copy, Debug, PartialEq, Eq, Structural)]
pub struct PadReading {
    pub pad: u64,
    pub x: i32,
    pub y: i32,
    pub south: bool,
    pub east: bool,
    pub start: bool,
}

/// The numbers of the pads read this frame.
pub open spec fn pad_ids(pads: Seq<PadReading>) -> Seq<u64> {
    pads.map_values(|reading: PadReading| reading.pad)
}

/// The menu input and the stick latch after each of `pads` in turn adds the
/// axes its stick newly crossed into and its buttons.
pub open spec fn pads_pass(input: MenuInput, previous: Seq<(u64, (i32, i32))>, pads: Seq<PadReading>) -> (MenuInput, Seq<(u64, (i32, i32))>)
    decreases pads.len(),
{
    if pads.len() == 0 {
        (input, previous)
    } else {
        let before = pads_pass(input, previous, pads.drop_last());
        let reading = pads.last();
        let step = stick_latched(before.1, reading.pad, (reading.x, reading.y));
        (with_pad(before.0, step.0, reading.south, reading.east, reading.start), step.1)
    }
}

/// Merge every connected gamepad into this frame's menu input: the latch
/// forgets pads no longer read, then each pad adds the directions its stick
/// newly points in and the buttons it just pressed.
pub fn gather_pads(input: &mut MenuInput, latch: &mut StickLatch, pads: &[PadReading])
    requires
        keys_distinct(old(latch).records()),
    ensures
        keys_distinct(final(latch).records()),
        (*final(input), final(latch).records()) == pads_pass(
            *old(input),
            old(latch).records().filter(|entry: (u64, (i32, i32))| pad_ids(pads@).contains(entry.0)),
            pads@,
        ),
{
    let mut connected: Vec<u64> = Vec::new();
    let mut i: usize = 0;
    while i < pads.len()
        invariant
            i <= pads.len(),
            connected@.len() == i,
            forall|k: int| 0 <= k < i ==> #[trigger] connected@[k] == pads@[k].pad,
        decreases pads.len() - i,
    {
        connected.push(pads[i].pad);
        i += 1;
    }
    assert(connected@ =~= pad_ids(pads@));
    latch.forget_absent(connected.as_slice());

    let ghost start_input = *input;
    let ghost previous = latch.records();
    assert(pads@.take(0) =~= Seq::<PadReading>::empty());
    let mut i: usize = 0;
    while i < pads.len()
        invariant
            i <= pads.len(),
            keys_distinct(latch.records()),
            (*input, latch.records()) == pads_pass(start_input, previous, pads@.take(i as int)),
        decreases pads.len() - i,
    {
        let reading = pads[i];
        proof {
            assert(pads@.take(i + 1).drop_last() =~= pads@.take(i as int));
            assert(pads@.take(i + 1).last() == pads@[i as int]);
        }
        let stepped = latch.edge(reading.pad, (reading.x, reading.y));
        input.add_pad(stepped, reading.south, reading.east, reading.start);
        i += 1;
    }
    assert(pads@.take(pads.len() as int) =~= pads@);
}

/// Where the highlight goes among a screen's buttons, given in their order:
/// `step` along from the focused one, wrapping at either end, or the first
/// button when the focus is on none of them. `None` on a screen without
/// buttons.
pub fn next_focus(ordered: &[u64], focused: Option<u64>, step: i32) -> (next: Option<u64>)
    ensures
        ordered.len() == 0 ==> next is None,
        ordered.len() > 0 ==> next == Some(ordered@[focus_index(ordered@, focused, step as int)]),
{
    if ordered.len() == 0 {
        return None;
    }
    let known = match focused {
        Some(button) => find_button(ordered, button),
        None => None,
    };
    let index = focus_after_step(known, step, ordered.len());
    Some(ordered[index])
}

/// The first place among the first `n` of `ordered` that holds `button`.
pub open spec fn position_in(ordered: Seq<u64>, button: u64, n: int) -> Option<int>
    decreases n,
{
    if n <= 0 {
        None
    } else {
        match position_in(ordered, button, n - 1) {
            Some(i) => Some(i),
            None => if ordered[n - 1] == button {
                Some(n - 1)
            } else {
                None
            },
        }
    }
}

proof fn lemma_position_stable(ordered: Seq<u64>, button: u64, n: int, more: int)
    requires
        0 < n <= more,
        position_in(ordered, button, n) is Some,
    ensures
        position_in(ordered, button, more) == position_in(ordered, button, n),
    decreases more - n,
{
    if more > n {
        lemma_position_stable(ordered, button, n, more - 1);
    }
}

/// Where `button` first stands in `ordered`.
fn find_button(ordered: &[u64], button: u64) -> (index: Option<usize>)
    ensures
        match index {
            Some(i) => i < ordered.len() && position_in(ordered@, button, ordered.len() as int) == Some(i as int),
            None => position_in(ordered@, button, ordered.len() as int) is None,
        },
{
    let mut i: usize = 0;
    while i < ordered.len()
        invariant
            i <= ordered.len(),
            position_in(ordered@, button, i as int) is None,
        decreases ordered.len() - i,
    {
        if ordered[i] == button {
            proof {
                lemma_position_stable(ordered@, button, i + 1, ordered.len() as int);
            }
            return Some(i);
        }
        i += 1;
    }
    None
}

/// The index `next_focus` lands on among `ordered`.
pub open spec fn focus_index(ordered: Seq<u64>, focused: Option<u64>, step: int) -> int {
    let known = match focused {
        Some(button) => position_in(ordered, button, ordered.len() as int),
        None => None,
    };
    match known {
        Some(i) => (i + step) % (ordered.len() as int),
        None => 0,
    }
}

/// The lobby keeps up and down for claiming seats, so its buttons sit in a
/// row and are stepped through sideways instead.
pub fn nav_axis(state: AppState) -> (axis: NavAxis)
    ensures
        axis == if state == AppState::Lobby {
            NavAxis::Horizontal
        } else {
            NavAxis::Vertical
        },
{
    match state {
        AppState::Lobby => NavAxis::Horizontal,
        _ => NavAxis::Vertical,
    }
}

/// Where the highlight lands among `count` buttons: `step` along from the
/// one it was on, wrapping at either end, or the first button on a screen
/// that just opened.
pub fn focus_after_step(known: Option<usize>, step: i32, count: usize) -> (index: usize)
    requires
        count > 0,
        known matches Some(i) ==> i < count,
    ensures
        index < count,
        index == match known {
            Some(i) => ((i + step) % (count as int)) as usize,
            None => 0,
        },
{
    match known {
        Some(i) => {
            let forwards: usize = if step >= 0 {
                (step as usize) % count
            } else {
                let back = ((-(step as i64)) as usize) % count;
                (count - back) % count
            };
            let index = if forwards >= count - i {
                forwards - (count - i)
            } else {
                i + forwards
            };
            proof {
                let c = count as int;
                let s = step as int;
                let f = forwards as int;
                assert(index == (i + f) % c) by {
                    if f >= c - i {
                        vstd::arithmetic::div_mod::lemma_mod_add_multiples_vanish(i + f - c, c);
                        vstd::arithmetic::div_mod::lemma_small_mod((i + f - c) as nat, c as nat);
                    } else {
                        vstd::arithmetic::div_mod::lemma_small_mod((i + f) as nat, c as nat);
                    }
                }
                vstd::arithmetic::div_mod::lemma_small_mod(i as nat, c as nat);
                if step >= 0 {
                    vstd::arithmetic::div_mod::lemma_add_mod_noop_right(i as int, s, c);
                } else {
                    let back = (-s) % c;
                    vstd::arithmetic::div_mod::lemma_add_mod_noop_right(i as int, c - back, c);
                    vstd::arithmetic::div_mod::lemma_mod_add_multiples_vanish(i - back, c);
                    vstd::arithmetic::div_mod::lemma_sub_mod_noop_right(i as int, -s, c);
                    assert(i + (c - back) == c + (i - back));
                    assert(i - (-s) == i + s);
                }
            }
            index
        },
        None => 0,
    }
}

/// Escape and the pad's east button open and close the pause dialog; Start
/// only opens it, and not once the clock has run out, where it restarts
/// the round instead.
pub fn pause_requested(paused: bool, finished: bool, input: &MenuInput) -> (requested: bool)
    ensures
        requested == if paused || finished {
            input.cancel
        } else {
            input.cancel || input.start
        },
{
    if paused || finished {
        input.cancel
    } else {
        input.cancel || input.start
    }
}

} // verus!
