use ryggattack::game::{
    MenuAction, MenuOutcome, SettingsOrigin, axis, bot_target, menu_outcome, resolve_contacts,
    restart_requested, round_winner, tally_hits,
};
use ryggattack::nav::AppState;
use ryggattack::settings::SettingRow;

#[test]
fn a_missile_strikes_the_first_cart_it_touches_but_never_its_own() {
    let owners = vec![0, 1, 2];
    let targets = vec![0, 1, 2, 3];
    let touching = vec![
        vec![true, false, true, true],
        vec![false, true, false, false],
        vec![false, false, false, false],
    ];
    assert_eq!(resolve_contacts(&owners, &targets, &touching), vec![Some(2), None, None]);
}

#[test]
fn rear_hits_score_for_the_shooter() {
    let ids = vec![0, 1, 2, 3];
    let mut scores = vec![0, 5, 0, 1];
    tally_hits(&ids, &mut scores, &vec![(1, 0), (3, 2), (1, 2)]);
    assert_eq!(scores, vec![0, 7, 0, 2]);
    tally_hits(&ids, &mut scores, &vec![]);
    assert_eq!(scores, vec![0, 7, 0, 2]);
}

#[test]
fn the_highest_score_wins_and_a_tie_goes_to_the_higher_number() {
    assert_eq!(round_winner(&vec![(0, 3), (1, 5), (2, 5), (3, 1)]), 3);
    assert_eq!(round_winner(&vec![(2, 5), (1, 5), (3, 1), (0, 3)]), 3);
    assert_eq!(round_winner(&vec![(0, 0), (1, 0), (2, 0), (3, 0)]), 4);
    assert_eq!(round_winner(&vec![(0, 9), (1, 0)]), 1);
    assert_eq!(round_winner(&vec![]), 1);
}

#[test]
fn a_bot_hunts_the_next_cart_round() {
    assert_eq!(bot_target(0, 4), 1);
    assert_eq!(bot_target(3, 4), 0);
    assert_eq!(bot_target(0, 1), 0);
}

#[test]
fn only_a_finished_round_restarts() {
    assert!(restart_requested(true, true, false));
    assert!(restart_requested(true, false, true));
    assert!(!restart_requested(true, false, false));
    assert!(!restart_requested(false, true, true));
}

#[test]
fn two_keys_make_one_steering_axis() {
    assert_eq!(axis(false, true), 1);
    assert_eq!(axis(true, false), -1);
    assert_eq!(axis(true, true), 0);
    assert_eq!(axis(false, false), 0);
}

#[test]
fn a_round_starts_only_with_someone_seated() {
    assert_eq!(menu_outcome(MenuAction::Launch, 0, false), MenuOutcome::Stay);
    assert_eq!(menu_outcome(MenuAction::Launch, 2, false), MenuOutcome::Enter(AppState::Playing));
    assert_eq!(menu_outcome(MenuAction::Start, 0, false), MenuOutcome::Enter(AppState::Lobby));
    assert_eq!(menu_outcome(MenuAction::Back, 0, false), MenuOutcome::Enter(AppState::MainMenu));
}

#[test]
fn settings_return_to_where_they_were_opened() {
    assert_eq!(menu_outcome(MenuAction::OpenSettings, 0, true), MenuOutcome::OpenSettings(SettingsOrigin::Pause));
    assert_eq!(menu_outcome(MenuAction::OpenSettings, 0, false), MenuOutcome::OpenSettings(SettingsOrigin::MainMenu));
    assert_eq!(menu_outcome(MenuAction::Setting(SettingRow::Shadows), 1, true), MenuOutcome::Adjust(SettingRow::Shadows));
    assert_eq!(menu_outcome(MenuAction::Resume, 1, true), MenuOutcome::Resume);
    assert_eq!(menu_outcome(MenuAction::ReturnToMenu, 1, true), MenuOutcome::Enter(AppState::MainMenu));
    assert_eq!(menu_outcome(MenuAction::Exit, 1, false), MenuOutcome::Exit);
    assert_eq!(menu_outcome(MenuAction::CloseSettings, 1, false), MenuOutcome::CloseSettings);
}
