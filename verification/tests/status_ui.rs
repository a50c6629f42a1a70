use jam::stats::Role;
use jam::status_ui::{
    marks, meter_columns, on_key, settle_selection, truncate, UiAction, METER_WIDTH,
};

const ACTIVE: [bool; 4] = [true, false, true, false];

#[test]
fn everyone_can_quit() {
    for role in [Role::Host, Role::Client] {
        assert_eq!(on_key(role, 'q', false, 0, &ACTIVE), UiAction::Quit);
        assert_eq!(on_key(role, 'c', true, 0, &ACTIVE), UiAction::Quit);
        assert_eq!(on_key(role, 'c', false, 0, &ACTIVE), UiAction::Ignore);
        assert_eq!(on_key(role, 'x', false, 0, &ACTIVE), UiAction::Ignore);
    }
}

#[test]
fn host_keys_act_on_the_selected_player() {
    let key = |k| on_key(Role::Host, k, false, 3, &ACTIVE);
    assert_eq!(key('+'), UiAction::Gain { player: 3, up: true });
    assert_eq!(key('='), UiAction::Gain { player: 3, up: true });
    assert_eq!(key('-'), UiAction::Gain { player: 3, up: false });
    assert_eq!(key('m'), UiAction::ToggleMute { player: 3 });
    assert_eq!(key('s'), UiAction::ToggleSolo { player: 3 });
    assert_eq!(key('['), UiAction::Ignore);
}

#[test]
fn only_players_who_are_there_can_be_selected() {
    let key = |k| on_key(Role::Host, k, false, 0, &ACTIVE);
    assert_eq!(key('0'), UiAction::Select { player: 0 });
    assert_eq!(key('1'), UiAction::Select { player: 1 });
    assert_eq!(key('2'), UiAction::Ignore);
    assert_eq!(key('3'), UiAction::Select { player: 3 });
    assert_eq!(key('4'), UiAction::Ignore);
    assert_eq!(key('5'), UiAction::Ignore);
    assert_eq!(settle_selection(3, &ACTIVE), 3);
    assert_eq!(settle_selection(2, &ACTIVE), 0);
    assert_eq!(settle_selection(0, &[false; 4]), 0);
    assert_eq!(settle_selection(5, &[true; 4]), 0);
}

#[test]
fn client_keys_act_on_its_own_levels() {
    let key = |k| on_key(Role::Client, k, false, 0, &ACTIVE);
    assert_eq!(key('+'), UiAction::Master { up: true });
    assert_eq!(key('='), UiAction::Master { up: true });
    assert_eq!(key('-'), UiAction::Master { up: false });
    assert_eq!(key(']'), UiAction::Monitor { up: true });
    assert_eq!(key('['), UiAction::Monitor { up: false });
    assert_eq!(key('m'), UiAction::Ignore);
    assert_eq!(key('1'), UiAction::Ignore);
}

#[test]
fn long_names_are_cut() {
    assert_eq!(truncate("alice", 5), "alice");
    assert_eq!(truncate("alice", 4), "ali…");
    assert_eq!(truncate("älïcé", 3), "äl…");
    assert_eq!(truncate("ab", 1), "…");
    assert_eq!(truncate("", 0), "");
}

#[test]
fn mutes_and_solos_are_marked() {
    let muted = [false, true];
    let soloed = [false, false, true];
    assert_eq!(marks(1, &muted, &[false; 3]), ('M', '·'));
    assert_eq!(marks(0, &muted, &soloed), ('·', 's'));
    assert_eq!(marks(2, &muted, &soloed), ('·', 'S'));
    assert_eq!(marks(9, &muted, &[]), ('·', '·'));
}

#[test]
fn meters_show_average_and_peak() {
    let text: String = meter_columns(3, 5).into_iter().collect();
    assert_eq!(text, format!("███▒▒{}", "·".repeat(15)));
    assert_eq!(meter_columns(0, 0), vec!['·'; METER_WIDTH]);
    assert_eq!(meter_columns(99, 0), vec!['█'; METER_WIDTH]);
}
