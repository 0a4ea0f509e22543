//! Seat roster: which device, if any, drives each of the four carts.

use vstd::prelude::*;

verus! {

/// A device that can claim a seat. Each gamepad is its own source, known by
/// the number its entity has for as long as it stays plugged in.
#[derive(Clone, Copy, Debug, PartialEq, Eq, Structural)]
pub enum InputSource {
    Wasd,
    Arrows,
    Pad(u64),
}

/// Which source holds each seat. An empty seat is played by a bot. No source
/// ever holds two seats.
pub struct Roster {
    seats: [Option<InputSource>; 4],
}

/// The first seat below `limit` that `source` holds, if any.
pub open spec fn first_seat_of(seats: Seq<Option<InputSource>>, source: InputSource, limit: int) -> Option<usize>
    decreases limit,
{
    if limit <= 0 {
        None
    } else {
        match first_seat_of(seats, source, limit - 1) {
            Some(i) => Some(i),
            None => if seats[limit - 1] == Some(source) {
                Some((limit - 1) as usize)
            } else {
                None
            },
        }
    }
}

/// How many of the seats below `limit` are taken.
pub open spec fn taken_below(seats: Seq<Option<InputSource>>, limit: int) -> nat
    decreases limit,
{
    if limit <= 0 {
        0
    } else {
        taken_below(seats, limit - 1) + if seats[limit - 1] is Some {
            1nat
        } else {
            0nat
        }
    }
}

/// `1` for a taken seat, `0` for an empty one.
pub open spec fn seat_flag(seat: Option<InputSource>) -> int {
    if seat is Some {
        1
    } else {
        0
    }
}

/// Every one of the four seats counts: the number of taken seats is the sum
/// of the four seats' flags, it is positive exactly when some seat is taken,
/// and it is four exactly when all are.
pub proof fn lemma_every_seat_counts(seats: Seq<Option<InputSource>>)
    requires
        seats.len() == 4,
    ensures
        taken_below(seats, 4) == seat_flag(seats[0]) + seat_flag(seats[1]) + seat_flag(seats[2]) + seat_flag(seats[3]),
        taken_below(seats, 4) > 0 <==> exists|i: int| 0 <= i < 4 && #[trigger] seats[i] is Some,
        taken_below(seats, 4) == 4 <==> forall|i: int| 0 <= i < 4 ==> #[trigger] seats[i] is Some,
{
    reveal_with_fuel(taken_below, 5);
    if exists|i: int| 0 <= i < 4 && #[trigger] seats[i] is Some {
        let i = choose|i: int| 0 <= i < 4 && #[trigger] seats[i] is Some;
        assert(i == 0 || i == 1 || i == 2 || i == 3);
    }
    if taken_below(seats, 4) == 4 {
        assert forall|i: int| 0 <= i < 4 implies #[trigger] seats[i] is Some by {
            assert(i == 0 || i == 1 || i == 2 || i == 3);
        }
    }
}

proof fn lemma_first_seat_stable(seats: Seq<Option<InputSource>>, source: InputSource, limit: int, more: int)
    requires
        0 < limit <= more,
        first_seat_of(seats, source, limit) is Some,
    ensures
        first_seat_of(seats, source, more) == first_seat_of(seats, source, limit),
    decreases more - limit,
{
    if more > limit {
        lemma_first_seat_stable(seats, source, limit, more - 1);
    }
}

/// The lowest empty seat below `limit`, if any.
pub open spec fn first_free(seats: Seq<Option<InputSource>>, limit: int) -> Option<usize>
    decreases limit,
{
    if limit <= 0 {
        None
    } else {
        match first_free(seats, limit - 1) {
            Some(i) => Some(i),
            None => if seats[limit - 1] is None {
                Some((limit - 1) as usize)
            } else {
                None
            },
        }
    }
}

proof fn lemma_first_free_stable(seats: Seq<Option<InputSource>>, limit: int, more: int)
    requires
        0 < limit <= more,
        first_free(seats, limit) is Some,
    ensures
        first_free(seats, more) == first_free(seats, limit),
    decreases more - limit,
{
    if more > limit {
        lemma_first_free_stable(seats, limit, more - 1);
    }
}

/// The seats after `source` asks to join: the lowest empty seat becomes its,
/// unless it already holds one or none is empty.
pub open spec fn joined(seats: Seq<Option<InputSource>>, source: InputSource) -> Seq<Option<InputSource>> {
    if seats.contains(Some(source)) {
        seats
    } else {
        match first_free(seats, 4) {
            Some(k) => seats.update(k as int, Some(source)),
            None => seats,
        }
    }
}

/// The seats after `source` leaves: whatever it held is empty.
pub open spec fn vacated(seats: Seq<Option<InputSource>>, source: InputSource) -> Seq<Option<InputSource>> {
    seats.map_values(|seat: Option<InputSource>| if seat == Some(source) { None } else { seat })
}

/// The seats once every gamepad missing from `connected` has lost its seat.
pub open spec fn still_connected(seats: Seq<Option<InputSource>>, connected: Seq<u64>) -> Seq<Option<InputSource>> {
    seats.map_values(
        |seat: Option<InputSource>|
            match seat {
                Some(InputSource::Pad(pad)) => if connected.contains(pad) {
                    seat
                } else {
                    None
                },
                other => other,
            },
    )
}

impl Roster {
    /// Seat by seat, who holds it.
    pub closed spec fn seats(&self) -> Seq<Option<InputSource>> {
        self.seats@
    }

    /// There are four seats, and no source holds two of them.
    pub open spec fn wf(&self) -> bool {
        &&& self.seats().len() == 4
        &&& forall|i: int, j: int|
            0 <= i < j < 4 && #[trigger] self.seats()[i] is Some ==> self.seats()[i] != #[trigger] self.seats()[j]
    }

    /// A roster with every seat empty.
    pub fn new() -> (roster: Self)
        ensures
            roster.wf(),
            roster.seats() == seq![None::<InputSource>, None, None, None],
    {
        let roster = Roster { seats: [None, None, None, None] };
        assert(roster.seats@ =~= seq![None::<InputSource>, None, None, None]);
        roster
    }

    pub fn seat(&self, id: usize) -> (holder: Option<InputSource>)
        ensures
            holder == if id < 4 {
                self.seats()[id as int]
            } else {
                None
            },
    {
        if id < 4 {
            self.seats[id]
        } else {
            None
        }
    }

    /// The seat `source` holds, if any.
    pub fn seat_of(&self, source: InputSource) -> (seat: Option<usize>)
        ensures
            seat == first_seat_of(self.seats(), source, 4),
            match seat {
                Some(i) => i < 4 && self.seats()[i as int] == Some(source),
                None => forall|i: int| 0 <= i < 4 ==> #[trigger] self.seats()[i] != Some(source),
            },
    {
        let mut i: usize = 0;
        while i < 4
            invariant
                i <= 4,
                self.seats@.len() == 4,
                first_seat_of(self.seats@, source, i as int) is None,
                forall|j: int| 0 <= j < i ==> #[trigger] self.seats@[j] != Some(source),
            decreases 4 - i,
        {
            if self.seats[i] == Some(source) {
                proof {
                    lemma_first_seat_stable(self.seats@, source, i as int + 1, 4);
                }
                return Some(i);
            }
            i += 1;
        }
        None
    }

    /// Claim the lowest free seat. A source that already holds one, and a full
    /// roster, both refuse.
    pub fn join(&mut self, source: InputSource) -> (seat: Option<usize>)
        requires
            old(self).wf(),
        ensures
            final(self).wf(),
            (exists|i: int| 0 <= i < 4 && #[trigger] old(self).seats()[i] == Some(source)) ==> seat is None
                && final(self).seats() == old(self).seats(),
            (forall|i: int| 0 <= i < 4 ==> #[trigger] old(self).seats()[i] != Some(source)) ==> match seat {
                Some(k) => {
                    &&& k < 4
                    &&& old(self).seats()[k as int] is None
                    &&& forall|j: int| 0 <= j < k ==> #[trigger] old(self).seats()[j] is Some
                    &&& final(self).seats() == old(self).seats().update(k as int, Some(source))
                },
                None => {
                    &&& forall|j: int| 0 <= j < 4 ==> #[trigger] old(self).seats()[j] is Some
                    &&& final(self).seats() == old(self).seats()
                },
            },
            final(self).seats() == joined(old(self).seats(), source),
    {
        if self.seat_of(source).is_some() {
            proof {
                let k = choose|i: int| 0 <= i < 4 && #[trigger] self.seats@[i] == Some(source);
                assert(self.seats@[k] == Some(source));
                assert(self.seats@.contains(Some(source)));
            }
            return None;
        }
        let ghost start = self.seats@;
        let mut index: usize = 0;
        while index < 4
            invariant
                index <= 4,
                self.seats@ == start,
                start == old(self).seats@,
                self.wf(),
                start.len() == 4,
                forall|j: int| 0 <= j < 4 ==> #[trigger] start[j] != Some(source),
                forall|j: int| 0 <= j < index ==> #[trigger] self.seats@[j] is Some,
                first_free(start, index as int) is None,
                !start.contains(Some(source)),
            decreases 4 - index,
        {
            if self.seats[index].is_none() {
                let ghost before = self.seats@;
                self.seats[index] = Some(source);
                assert(self.seats@ == before.update(index as int, Some(source)));
                proof {
                    assert(first_free(start, index + 1) == Some(index));
                    lemma_first_free_stable(start, index + 1, 4);
                }
                return Some(index);
            }
            index += 1;
        }
        None
    }

    /// Give up the seat `source` holds. True when it held one.
    pub fn leave(&mut self, source: InputSource) -> (left: bool)
        requires
            old(self).wf(),
        ensures
            final(self).wf(),
            left == exists|i: int| 0 <= i < 4 && #[trigger] old(self).seats()[i] == Some(source),
            final(self).seats() == vacated(old(self).seats(), source),
    {
        match self.seat_of(source) {
            Some(index) => {
                let ghost before = self.seats@;
                self.seats[index] = None;
                assert(self.seats@ =~= vacated(before, source));
                true
            },
            None => {
                assert(self.seats@ =~= vacated(self.seats@, source));
                false
            },
        }
    }

    /// How many seats people hold.
    pub fn humans(&self) -> (count: usize)
        ensures
            count == taken_below(self.seats(), 4),
            count == seat_flag(self.seats()[0]) + seat_flag(self.seats()[1]) + seat_flag(self.seats()[2])
                + seat_flag(self.seats()[3]),
            count > 0 <==> exists|i: int| 0 <= i < 4 && #[trigger] self.seats()[i] is Some,
            count == 4 <==> forall|i: int| 0 <= i < 4 ==> #[trigger] self.seats()[i] is Some,
    {
        let mut count: usize = 0;
        let mut i: usize = 0;
        while i < 4
            invariant
                i <= 4,
                count <= i,
                self.seats@.len() == 4,
                count == taken_below(self.seats@, i as int),
            decreases 4 - i,
        {
            if self.seats[i].is_some() {
                count += 1;
            }
            i += 1;
        }
        proof {
            lemma_every_seat_counts(self.seats@);
        }
        count
    }

    /// Free the seats of gamepads that are no longer connected. Keyboard seats
    /// are never touched.
    pub fn retain_connected(&mut self, connected: &[u64])
        requires
            old(self).wf(),
        ensures
            final(self).wf(),
            forall|i: int|
                0 <= i < 4 ==> #[trigger] final(self).seats()[i] == match old(self).seats()[i] {
                    Some(InputSource::Pad(pad)) => if connected@.contains(pad) {
                        old(self).seats()[i]
                    } else {
                        None
                    },
                    other => other,
                },
            final(self).seats() == still_connected(old(self).seats(), connected@),
    {
        let ghost before = self.seats@;
        let mut i: usize = 0;
        while i < 4
            invariant
                i <= 4,
                self.seats@.len() == 4,
                before.len() == 4,
                forall|a: int, b: int|
                    0 <= a < b < 4 && #[trigger] self.seats@[a] is Some ==> self.seats@[a] != #[trigger] self.seats@[b],
                forall|j: int| i <= j < 4 ==> #[trigger] self.seats@[j] == before[j],
                forall|j: int|
                    0 <= j < i ==> #[trigger] self.seats@[j] == match before[j] {
                        Some(InputSource::Pad(pad)) => if connected@.contains(pad) {
                            before[j]
                        } else {
                            None
                        },
                        other => other,
                    },
            decreases 4 - i,
        {
            if let Some(InputSource::Pad(pad)) = self.seats[i] {
                if !slice_contains(connected, pad) {
                    self.seats[i] = None;
                }
            }
            i += 1;
        }
        assert(self.seats@ =~= still_connected(before, connected@));
    }
}

/// Which keys a keyboard seat steers and fires with.
#[derive(Clone, Copy, Debug, PartialEq, Eq, Structural)]
pub enum KeyScheme {
    /// W A S D and Space.
    Wasd,
    /// The arrow keys and Right Ctrl.
    Arrows,
    /// Either set: the only keyboard seat taken answers to both.
    Both,
}

/// Who drives a cart.
#[derive(Clone, Copy, Debug, PartialEq, Eq, Structural)]
pub enum Controls {
    Bot,
    Keys(KeyScheme),
    Pad(u64),
}

impl Roster {
    /// How seat `id` is driven: by a bot when empty, by its gamepad, or by
    /// its keyboard keys, which take in the other keyboard scheme's keys too
    /// while nobody holds that scheme's seat.
    pub fn controls(&self, id: usize) -> (controls: Controls)
        ensures
            controls == match (if id < 4 { self.seats()[id as int] } else { None }) {
                None => Controls::Bot,
                Some(InputSource::Pad(pad)) => Controls::Pad(pad),
                Some(InputSource::Wasd) => Controls::Keys(
                    if self.seats().contains(Some(InputSource::Arrows)) {
                        KeyScheme::Wasd
                    } else {
                        KeyScheme::Both
                    },
                ),
                Some(InputSource::Arrows) => Controls::Keys(
                    if self.seats().contains(Some(InputSource::Wasd)) {
                        KeyScheme::Arrows
                    } else {
                        KeyScheme::Both
                    },
                ),
            },
    {
        match self.seat(id) {
            None => Controls::Bot,
            Some(InputSource::Pad(pad)) => Controls::Pad(pad),
            Some(InputSource::Wasd) => Controls::Keys(
                if self.seat_of(InputSource::Arrows).is_some() {
                    KeyScheme::Wasd
                } else {
                    KeyScheme::Both
                },
            ),
            Some(InputSource::Arrows) => Controls::Keys(
                if self.seat_of(InputSource::Wasd).is_some() {
                    KeyScheme::Arrows
                } else {
                    KeyScheme::Both
                },
            ),
        }
    }
}

impl Default for Roster {
    fn default() -> (roster: Self)
        ensures
            roster.wf(),
            roster.seats() == seq![None::<InputSource>, None, None, None],
    {
        Roster::new()
    }
}

/// `value` occurs in `items`.
pub fn slice_contains(items: &[u64], value: u64) -> (found: bool)
    ensures
        found == items@.contains(value),
{
    let mut i: usize = 0;
    while i < items.len()
        invariant
            i <= items.len(),
            forall|j: int| 0 <= j < i ==> items@[j] != value,
        decreases items.len() - i,
    {
        if items[i] == value {
            return true;
        }
        i += 1;
    }
    false
}

} // verus!
