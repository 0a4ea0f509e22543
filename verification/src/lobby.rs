//! The lobby's seat rules: pressing up claims a seat, pressing down gives
//! it back, and an unplugged gamepad loses its seat and is forgotten.

use vstd::prelude::*;
use crate::latch::{LobbyLatch, keys_distinct, latched};
use crate::roster::{InputSource, Roster, joined, still_connected, vacated};

verus! {

/// The devices that report an intent this frame.
pub open spec fn devices(sources: Seq<(InputSource, i8)>) -> Seq<InputSource> {
    sources.map_values(|entry: (InputSource, i8)| entry.0)
}

/// The seats and the latch after each of `sources` reports its intent in
/// turn: a press up joins, a press down leaves, anything else changes no seat.
pub open spec fn lobby_pass(
    seats: Seq<Option<InputSource>>,
    previous: Seq<(InputSource, i8)>,
    sources: Seq<(InputSource, i8)>,
) -> (Seq<Option<InputSource>>, Seq<(InputSource, i8)>)
    decreases sources.len(),
{
    if sources.len() == 0 {
        (seats, previous)
    } else {
        let before = lobby_pass(seats, previous, sources.drop_last());
        let source = sources.last().0;
        let step = latched(before.1, source, sources.last().1);
        let after = if step.0 == 1 {
            joined(before.0, source)
        } else if step.0 == -1 {
            vacated(before.0, source)
        } else {
            before.0
        };
        (after, step.1)
    }
}

/// One frame of lobby input. Gamepads missing from `connected` lose their
/// seats, devices missing from `sources` are forgotten by the latch, and
/// then each source in turn joins on a fresh press up and leaves on a fresh
/// press down.
pub fn lobby_update(roster: &mut Roster, latch: &mut LobbyLatch, connected: &[u64], sources: &[(InputSource, i8)])
    requires
        old(roster).wf(),
        keys_distinct(old(latch).records()),
    ensures
        final(roster).wf(),
        keys_distinct(final(latch).records()),
        (final(roster).seats(), final(latch).records()) == lobby_pass(
            still_connected(old(roster).seats(), connected@),
            old(latch).records().filter(|entry: (InputSource, i8)| devices(sources@).contains(entry.0)),
            sources@,
        ),
{
    roster.retain_connected(connected);

    let mut present: Vec<InputSource> = Vec::new();
    let mut i: usize = 0;
    while i < sources.len()
        invariant
            i <= sources.len(),
            present@.len() == i,
            forall|k: int| 0 <= k < i ==> #[trigger] present@[k] == sources@[k].0,
        decreases sources.len() - i,
    {
        present.push(sources[i].0);
        i += 1;
    }
    assert(present@ =~= devices(sources@));
    latch.forget_absent(present.as_slice());

    let ghost seats = roster.seats();
    let ghost previous = latch.records();
    assert(sources@.take(0) =~= Seq::<(InputSource, i8)>::empty());
    let mut i: usize = 0;
    while i < sources.len()
        invariant
            i <= sources.len(),
            roster.wf(),
            keys_distinct(latch.records()),
            (roster.seats(), latch.records()) == lobby_pass(seats, previous, sources@.take(i as int)),
        decreases sources.len() - i,
    {
        let (source, intent) = sources[i];
        proof {
            assert(sources@.take(i + 1).drop_last() =~= sources@.take(i as int));
            assert(sources@.take(i + 1).last() == sources@[i as int]);
        }
        let crossed = latch.edge(source, intent);
        if crossed == 1 {
            roster.join(source);
        } else if crossed == -1 {
            roster.leave(source);
        }
        i += 1;
    }
    assert(sources@.take(sources.len() as int) =~= sources@);
}

} // verus!
