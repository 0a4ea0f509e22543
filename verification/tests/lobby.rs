use ryggattack::latch::{LobbyLatch, key_intent};
use ryggattack::lobby::lobby_update;
use ryggattack::roster::{InputSource, Roster};

#[test]
fn a_held_direction_only_fires_once() {
    let mut latch = LobbyLatch::default();
    // First sighting adopts the current intent rather than reading as a press.
    assert_eq!(latch.edge(InputSource::Wasd, 1), 0);
    assert_eq!(latch.edge(InputSource::Wasd, 1), 0);
    assert_eq!(latch.edge(InputSource::Wasd, 0), 0);
    assert_eq!(latch.edge(InputSource::Wasd, 1), 1);
}

#[test]
fn down_reports_a_leave_edge() {
    let mut latch = LobbyLatch::default();
    latch.edge(InputSource::Arrows, 0);
    assert_eq!(latch.edge(InputSource::Arrows, -1), -1);
    assert_eq!(latch.edge(InputSource::Arrows, -1), 0);
}

#[test]
fn unplugged_devices_are_forgotten() {
    let mut latch = LobbyLatch::default();
    latch.edge(InputSource::Wasd, 0);
    latch.edge(InputSource::Arrows, 0);
    latch.forget_absent(&[InputSource::Wasd]);
    assert_eq!(latch.len(), 1);
}

#[test]
fn up_and_down_keys_give_an_intent() {
    assert_eq!(key_intent(true, false), 1);
    assert_eq!(key_intent(false, true), -1);
    assert_eq!(key_intent(true, true), 0);
    assert_eq!(key_intent(false, false), 0);
}

#[test]
fn clearing_the_latch_forgets_every_device() {
    let mut latch = LobbyLatch::new();
    latch.edge(InputSource::Wasd, 1);
    latch.clear();
    assert!(latch.len() == 0);
    // Seen afresh, a held direction does not count as a press.
    assert_eq!(latch.edge(InputSource::Wasd, 1), 0);
}

#[test]
fn pressing_up_in_the_lobby_takes_a_seat_and_down_gives_it_back() {
    let mut roster = Roster::new();
    let mut latch = LobbyLatch::new();
    let idle = [(InputSource::Wasd, 0), (InputSource::Arrows, 0)];
    lobby_update(&mut roster, &mut latch, &[], &idle);
    assert_eq!(roster.humans(), 0);

    lobby_update(&mut roster, &mut latch, &[], &[(InputSource::Wasd, 0), (InputSource::Arrows, 1)]);
    assert_eq!(roster.seat(0), Some(InputSource::Arrows));

    // Still held: no second seat, no change.
    lobby_update(&mut roster, &mut latch, &[], &[(InputSource::Wasd, 1), (InputSource::Arrows, 1)]);
    assert_eq!(roster.seat(0), Some(InputSource::Arrows));
    assert_eq!(roster.seat(1), Some(InputSource::Wasd));

    lobby_update(&mut roster, &mut latch, &[], &[(InputSource::Wasd, 1), (InputSource::Arrows, -1)]);
    assert_eq!(roster.seat(0), None);
    assert_eq!(roster.seat(1), Some(InputSource::Wasd));
    assert_eq!(roster.humans(), 1);
}

#[test]
fn an_unplugged_pad_loses_its_seat_in_the_lobby() {
    let mut roster = Roster::new();
    let mut latch = LobbyLatch::new();
    lobby_update(&mut roster, &mut latch, &[5], &[(InputSource::Wasd, 0), (InputSource::Pad(5), 0)]);
    lobby_update(&mut roster, &mut latch, &[5], &[(InputSource::Wasd, 0), (InputSource::Pad(5), 1)]);
    assert_eq!(roster.seat(0), Some(InputSource::Pad(5)));
    lobby_update(&mut roster, &mut latch, &[], &[(InputSource::Wasd, 0)]);
    assert_eq!(roster.seat(0), None);
    assert_eq!(latch.len(), 1);
}
