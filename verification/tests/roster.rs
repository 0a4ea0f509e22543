use ryggattack::roster::{Controls, InputSource, KeyScheme, Roster};

fn pad(index: u64) -> InputSource {
    InputSource::Pad(index)
}

#[test]
fn joining_fills_seats_in_order() {
    let mut roster = Roster::default();
    assert_eq!(roster.join(InputSource::Wasd), Some(0));
    assert_eq!(roster.join(InputSource::Arrows), Some(1));
    assert_eq!(roster.join(pad(7)), Some(2));
    assert_eq!(roster.humans(), 3);
}

#[test]
fn a_source_cannot_hold_two_seats() {
    let mut roster = Roster::default();
    assert_eq!(roster.join(InputSource::Wasd), Some(0));
    assert_eq!(roster.join(InputSource::Wasd), None);
    assert_eq!(roster.humans(), 1);
}

#[test]
fn leaving_frees_the_seat_for_the_next_joiner() {
    let mut roster = Roster::default();
    roster.join(InputSource::Wasd);
    roster.join(InputSource::Arrows);
    roster.join(pad(7));
    assert!(roster.leave(InputSource::Arrows));
    assert_eq!(roster.join(pad(9)), Some(1));
}

#[test]
fn a_fifth_source_cannot_join() {
    let mut roster = Roster::default();
    roster.join(InputSource::Wasd);
    roster.join(InputSource::Arrows);
    roster.join(pad(7));
    roster.join(pad(8));
    assert_eq!(roster.join(pad(9)), None);
}

#[test]
fn empty_seats_are_bots() {
    let mut roster = Roster::default();
    roster.join(InputSource::Wasd);
    assert_eq!(roster.seat(0), Some(InputSource::Wasd));
    assert_eq!(roster.seat(1), None);
    assert_eq!(roster.seat(3), None);
}

#[test]
fn disconnected_pads_lose_their_seat_but_keyboards_keep_theirs() {
    let mut roster = Roster::default();
    roster.join(InputSource::Wasd);
    roster.join(pad(7));
    roster.join(pad(8));

    let still_here: u64 = 7;
    roster.retain_connected(&[still_here]);

    assert_eq!(roster.seat(0), Some(InputSource::Wasd));
    assert_eq!(roster.seat(1), Some(pad(7)));
    assert_eq!(roster.seat(2), None);
}

#[test]
fn leaving_without_a_seat_changes_nothing() {
    let mut roster = Roster::new();
    roster.join(InputSource::Wasd);
    assert!(!roster.leave(InputSource::Arrows));
    assert_eq!(roster.seat_of(InputSource::Wasd), Some(0));
    assert_eq!(roster.seat_of(InputSource::Arrows), None);
    assert_eq!(roster.humans(), 1);
}

#[test]
fn a_seat_past_the_fourth_is_a_bot() {
    let mut roster = Roster::new();
    roster.join(InputSource::Wasd);
    assert_eq!(roster.seat(4), None);
    assert_eq!(roster.seat(usize::MAX), None);
}

#[test]
fn a_pad_that_left_and_returned_takes_the_lowest_free_seat() {
    let mut roster = Roster::new();
    roster.join(pad(1));
    roster.join(pad(2));
    roster.join(pad(3));
    roster.retain_connected(&[2, 3]);
    assert_eq!(roster.seat(0), None);
    assert_eq!(roster.join(pad(1)), Some(0));
}

#[test]
fn a_lone_keyboard_player_steers_with_both_key_sets() {
    let mut roster = Roster::new();
    roster.join(InputSource::Arrows);
    roster.join(pad(4));
    assert_eq!(roster.controls(0), Controls::Keys(KeyScheme::Both));
    assert_eq!(roster.controls(1), Controls::Pad(4));
    assert_eq!(roster.controls(2), Controls::Bot);
    assert_eq!(roster.controls(7), Controls::Bot);

    // Claiming the other keyboard seat splits the keys.
    roster.join(InputSource::Wasd);
    assert_eq!(roster.controls(0), Controls::Keys(KeyScheme::Arrows));
    assert_eq!(roster.controls(2), Controls::Keys(KeyScheme::Wasd));
}
