use ryggattack::latch::{StickLatch, axis_edge};
use ryggattack::nav::{
    AppState, MenuInput, NavAxis, PadReading, focus_after_step, gather_pads, nav_axis, next_focus, pause_requested,
};

fn pad(index: u64) -> u64 {
    index
}

#[test]
fn each_axis_steps_towards_the_last_button() {
    let down = MenuInput {
        down: true,
        ..Default::default()
    };
    assert_eq!(down.step(NavAxis::Vertical), 1);
    assert_eq!(down.step(NavAxis::Horizontal), 0);

    let left = MenuInput {
        left: true,
        ..Default::default()
    };
    assert_eq!(left.step(NavAxis::Horizontal), -1);
    assert_eq!(left.step(NavAxis::Vertical), 0);
}

#[test]
fn opposite_directions_cancel_out() {
    let both = MenuInput {
        up: true,
        down: true,
        ..Default::default()
    };
    assert_eq!(both.step(NavAxis::Vertical), 0);
}

#[test]
fn start_confirms_like_the_south_button() {
    assert!(
        MenuInput {
            start: true,
            ..Default::default()
        }
        .accepted()
    );
    assert!(!MenuInput::default().accepted());
}

#[test]
fn a_held_stick_steps_once() {
    let mut latch = StickLatch::default();
    // First sighting adopts the current direction rather than stepping.
    assert_eq!(latch.edge(pad(1), (0, -1)), (0, 0));
    assert_eq!(latch.edge(pad(1), (0, -1)), (0, 0));
    assert_eq!(latch.edge(pad(1), (0, 0)), (0, 0));
    assert_eq!(latch.edge(pad(1), (0, -1)), (0, -1));
}

#[test]
fn the_two_axes_latch_independently() {
    let mut latch = StickLatch::default();
    latch.edge(pad(1), (0, 0));
    assert_eq!(latch.edge(pad(1), (1, 0)), (1, 0));
    assert_eq!(latch.edge(pad(1), (1, 1)), (0, 1));
}

#[test]
fn unplugged_pads_are_forgotten() {
    let mut latch = StickLatch::default();
    latch.edge(pad(1), (0, 0));
    latch.edge(pad(2), (0, 0));
    latch.forget_absent(&[pad(2)]);
    assert_eq!(latch.len(), 1);
}

#[test]
fn a_stick_swung_straight_across_steps_at_once() {
    assert_eq!(axis_edge(-1, 1), 1);
    assert_eq!(axis_edge(1, -1), -1);
    assert_eq!(axis_edge(1, 1), 0);
    assert_eq!(axis_edge(0, 0), 0);
}

#[test]
fn a_pad_adds_its_buttons_and_step_to_the_frame() {
    let mut input = MenuInput::default();
    input.add_pad((1, -1), false, true, false);
    assert!(input.right && input.down && input.cancel);
    assert!(!input.left && !input.up && !input.accept && !input.start);
}

#[test]
fn the_lobby_steps_sideways_and_the_menus_up_and_down() {
    assert_eq!(nav_axis(AppState::Lobby), NavAxis::Horizontal);
    assert_eq!(nav_axis(AppState::MainMenu), NavAxis::Vertical);
    assert_eq!(nav_axis(AppState::Playing), NavAxis::Vertical);
}

#[test]
fn the_highlight_wraps_at_both_ends() {
    assert_eq!(focus_after_step(Some(2), 1, 3), 0);
    assert_eq!(focus_after_step(Some(0), -1, 3), 2);
    assert_eq!(focus_after_step(Some(1), 0, 3), 1);
    // A screen opened afresh highlights its first button.
    assert_eq!(focus_after_step(None, 1, 3), 0);
}

#[test]
fn start_pauses_only_a_running_round() {
    let cancel = MenuInput {
        cancel: true,
        ..Default::default()
    };
    let start = MenuInput {
        start: true,
        ..Default::default()
    };
    assert!(pause_requested(false, false, &start));
    assert!(!pause_requested(false, true, &start));
    assert!(!pause_requested(true, false, &start));
    assert!(pause_requested(false, true, &cancel));
    assert!(pause_requested(true, false, &cancel));
}

fn reading(pad: u64, x: i32, y: i32) -> PadReading {
    PadReading { pad, x, y, south: false, east: false, start: false }
}

#[test]
fn pads_add_their_fresh_steps_and_buttons_to_the_keyboard() {
    let mut latch = StickLatch::new();
    let mut input = MenuInput { accept: true, ..Default::default() };
    // First sighting: held sticks do not step, but buttons count.
    gather_pads(&mut input, &mut latch, &[reading(1, 0, 1), PadReading { start: true, ..reading(2, 0, 0) }]);
    assert_eq!(input, MenuInput { accept: true, start: true, ..Default::default() });

    let mut input = MenuInput::default();
    gather_pads(&mut input, &mut latch, &[reading(1, 0, 1), reading(2, -1, -1)]);
    assert_eq!(input, MenuInput { left: true, down: true, ..Default::default() });

    // Pad 1 is unplugged and forgotten; seen again, it starts afresh.
    let mut input = MenuInput::default();
    gather_pads(&mut input, &mut latch, &[reading(2, -1, -1)]);
    assert_eq!(latch.len(), 1);
    gather_pads(&mut input, &mut latch, &[reading(2, -1, -1), reading(1, 1, 0)]);
    assert_eq!(input, MenuInput::default());
}

#[test]
fn the_highlight_moves_by_button_order() {
    let ordered = [30, 10, 20];
    assert_eq!(next_focus(&ordered, Some(10), 1), Some(20));
    assert_eq!(next_focus(&ordered, Some(20), 1), Some(30));
    assert_eq!(next_focus(&ordered, Some(30), -1), Some(20));
    assert_eq!(next_focus(&ordered, Some(10), 0), Some(10));
    // Focus on a button of another screen, or none: settle on the first.
    assert_eq!(next_focus(&ordered, Some(99), 1), Some(30));
    assert_eq!(next_focus(&ordered, None, -1), Some(30));
    assert_eq!(next_focus(&[], Some(1), 1), None);
}
