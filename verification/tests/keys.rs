use front::keys::{
    bindings, footer_hints, help_rows, resolve, settings_key_action, Action, Category, KeyCode,
    KeyEvent, KeyModifiers, SettingsKeyAction,
};

const NONE: KeyModifiers =
    KeyModifiers { shift: false, alt: false, control: false, other: false };
const SHIFT: KeyModifiers =
    KeyModifiers { shift: true, alt: false, control: false, other: false };
const ALT: KeyModifiers =
    KeyModifiers { shift: false, alt: true, control: false, other: false };
const CONTROL: KeyModifiers =
    KeyModifiers { shift: false, alt: false, control: true, other: false };

fn press(code: KeyCode, modifiers: KeyModifiers) -> KeyEvent {
    KeyEvent { code, modifiers }
}

#[test]
fn footer_hint_ranks_are_unique() {
    let mut ranks: Vec<u8> =
        bindings().iter().filter_map(|b| b.footer.as_ref().map(|f| f.rank)).collect();
    ranks.sort_unstable();
    let mut deduped = ranks.clone();
    deduped.dedup();
    assert_eq!(ranks, deduped, "duplicate footer hint rank");
}

#[test]
fn slash_opens_the_search_prompt() {
    assert_eq!(resolve(press(KeyCode::Char('/'), NONE)), Some(Action::OpenSearch));
}

#[test]
fn space_plays_and_enter_toggles_a_layer() {
    assert_eq!(resolve(press(KeyCode::Char(' '), NONE)), Some(Action::TogglePlayback));
    assert_eq!(resolve(press(KeyCode::Enter, NONE)), Some(Action::ToggleLayer));
    assert_eq!(resolve(press(KeyCode::Char('p'), NONE)), None);
}

#[test]
fn shift_distinguishes_arrow_chords_but_not_characters() {
    assert_eq!(resolve(press(KeyCode::Up, NONE)), Some(Action::PanUp));
    assert_eq!(resolve(press(KeyCode::Up, ALT)), Some(Action::SelectPrevious));
    assert_eq!(resolve(press(KeyCode::Down, ALT)), Some(Action::SelectNext));
    assert_eq!(
        resolve(press(KeyCode::Up, SHIFT)),
        None,
        "shift+arrow no longer selects layers"
    );
    assert_eq!(resolve(press(KeyCode::Char('+'), SHIFT)), Some(Action::ZoomIn));
}

#[test]
fn terminal_state_bits_do_not_block_a_match() {
    assert_eq!(resolve(press(KeyCode::Char('0'), NONE)), Some(Action::JumpToLive));
}

#[test]
fn every_chord_resolves_to_exactly_one_action() {
    let all = bindings();
    for b in &all {
        for c in &b.chords {
            let hits = all.iter().filter(|o| o.chords.iter().any(|x| x == c)).count();
            assert_eq!(hits, 1, "chord {c:?} is bound more than once");
        }
    }
}

#[test]
fn every_category_has_help_rows() {
    for cat in Category::ORDER {
        assert!(help_rows(cat).first().is_some(), "{} has no help rows", cat.title());
    }
}

#[test]
fn documentation_rows_carry_no_chords() {
    for b in &bindings() {
        if b.action.is_none() {
            assert!(b.chords.is_empty(), "{} is unreachable", b.name);
        }
    }
}

#[test]
fn ctrl_c_quits_the_settings_modal() {
    assert_eq!(
        settings_key_action(press(KeyCode::Char('c'), CONTROL)),
        Some(SettingsKeyAction::Quit)
    );
}

#[test]
fn ctrl_r_and_ctrl_v_are_unbound_in_settings() {
    assert_eq!(settings_key_action(press(KeyCode::Char('r'), CONTROL)), None);
    assert_eq!(settings_key_action(press(KeyCode::Char('v'), CONTROL)), None);
}

#[test]
fn arrows_move_focus_and_left_right_toggle_bool() {
    assert_eq!(
        settings_key_action(press(KeyCode::Up, NONE)),
        Some(SettingsKeyAction::FocusPrev)
    );
    assert_eq!(
        settings_key_action(press(KeyCode::Down, NONE)),
        Some(SettingsKeyAction::FocusNext)
    );
    assert_eq!(
        settings_key_action(press(KeyCode::Left, NONE)),
        Some(SettingsKeyAction::ToggleBool)
    );
    assert_eq!(
        settings_key_action(press(KeyCode::Right, NONE)),
        Some(SettingsKeyAction::ToggleBool)
    );
}

#[test]
fn enter_confirms_and_esc_backs_out() {
    assert_eq!(
        settings_key_action(press(KeyCode::Enter, NONE)),
        Some(SettingsKeyAction::Confirm)
    );
    assert_eq!(settings_key_action(press(KeyCode::Esc, NONE)), Some(SettingsKeyAction::Back));
}

#[test]
fn printable_chars_push_and_backspace_deletes() {
    assert_eq!(
        settings_key_action(press(KeyCode::Char('a'), NONE)),
        Some(SettingsKeyAction::PushChar('a'))
    );
    assert_eq!(
        settings_key_action(press(KeyCode::Char(' '), NONE)),
        Some(SettingsKeyAction::PushChar(' '))
    );
    assert_eq!(
        settings_key_action(press(KeyCode::Backspace, NONE)),
        Some(SettingsKeyAction::Backspace)
    );
}

#[test]
fn unhandled_keys_resolve_to_none() {
    assert_eq!(settings_key_action(press(KeyCode::F(1), NONE)), None);
}

#[test]
fn hints_come_in_the_order_of_their_ranks() {
    let hints = footer_hints();
    assert!(!hints.is_empty());
    for pair in hints.windows(2) {
        assert!(pair[0].rank < pair[1].rank);
    }
}
