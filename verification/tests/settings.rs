use front::config::{Config, ConfigEditValue};
use front::settings::{
    mask_secret, FieldKind, FieldValue, SettingsModel, EUMETNET_KEY_URL,
};

fn model_with(api_key: &str, ip_fallback: bool) -> SettingsModel {
    let mut config = Config::default();
    config.eumetnet.api_key = api_key.to_string();
    config.location.ip_fallback = ip_fallback;
    SettingsModel::from_config(&config)
}

fn secret(s: &str) -> FieldValue {
    FieldValue::Secret(s.to_string())
}

#[test]
fn mask_normal_secret_shows_last_four() {
    assert_eq!(mask_secret("abcd1234"), "set ••••1234");
}

#[test]
fn mask_empty_secret_is_unset() {
    assert_eq!(mask_secret(""), "unset");
}

#[test]
fn mask_short_secret_never_leaks_full_value() {
    assert_eq!(mask_secret("abc"), "set ••••");
    assert_eq!(mask_secret("abcd"), "set ••••");
    assert!(!mask_secret("abc").contains("abc"));
}

#[test]
fn mask_five_char_secret_shows_last_four_not_first() {
    assert_eq!(mask_secret("abcde"), "set ••••bcde");
}

#[test]
fn display_masks_when_not_revealed_and_shows_raw_when_revealed() {
    let model = model_with("supersecretkey", true);
    assert_eq!(model.fields[0].display(false), "set ••••tkey");
    assert_eq!(model.fields[0].display(true), "supersecretkey");
}

#[test]
fn bool_display_is_on_off_regardless_of_reveal() {
    let model = model_with("key", true);
    assert_eq!(model.fields[1].display(false), "on");
    assert_eq!(model.fields[1].display(true), "on");
}

#[test]
fn secret_field_carries_a_help_url_bool_does_not() {
    let model = model_with("key", true);
    assert_eq!(model.fields[0].help_url, Some(EUMETNET_KEY_URL));
    assert_eq!(model.fields[1].help_url, None);
}

#[test]
fn focus_next_and_prev_wrap_around() {
    let mut model = model_with("key", true);
    assert_eq!(model.focus, 0);
    model.focus_next();
    assert_eq!(model.focus, 1);
    model.focus_next();
    assert_eq!(model.focus, 0, "focus_next must wrap past the last field");
    model.focus_prev();
    assert_eq!(model.focus, 1, "focus_prev must wrap before the first field");
}

#[test]
fn push_char_and_backspace_mutate_staged_not_current() {
    let mut model = model_with("abc", true);
    model.push_char('d');
    assert!(model.fields[0].staged == secret("abcd"));
    assert!(model.fields[0].current == secret("abc"));
    model.backspace();
    model.backspace();
    assert!(model.fields[0].staged == secret("ab"));
    assert!(model.fields[0].current == secret("abc"));
}

#[test]
fn backspace_on_empty_secret_does_not_panic() {
    let mut model = model_with("", true);
    model.backspace();
    assert!(model.fields[0].staged == FieldValue::Secret(String::new()));
}

#[test]
fn toggle_bool_flips_staged_not_current() {
    let mut model = model_with("key", true);
    model.focus_next();
    model.toggle_bool();
    assert!(model.fields[1].staged == FieldValue::Bool(false));
    assert!(model.fields[1].current == FieldValue::Bool(true));
}

#[test]
fn push_char_on_bool_field_is_noop() {
    let mut model = model_with("key", true);
    model.focus_next();
    model.push_char('x');
    assert!(model.fields[1].staged == FieldValue::Bool(true));
}

#[test]
fn focused_pending_edit_is_none_when_unchanged() {
    let model = model_with("key", true);
    assert!(model.focused_pending_edit().is_none());
}

#[test]
fn focused_pending_edit_reflects_the_staged_secret_without_committing() {
    let mut model = model_with("old", true);
    model.push_char('!');
    let edit = model.focused_pending_edit().expect("dirty field yields edit");
    assert_eq!(edit.key, "eumetnet.api_key");
    match edit.value {
        ConfigEditValue::Str(s) => assert_eq!(s, "old!"),
        _ => panic!("expected Str value"),
    }
    assert!(model.fields[0].current == secret("old"));
}

#[test]
fn focused_pending_edit_for_bool_yields_bool_value() {
    let mut model = model_with("key", true);
    model.focus_next();
    model.toggle_bool();
    let edit = model.focused_pending_edit().expect("dirty bool yields edit");
    assert_eq!(edit.key, "location.ip_fallback");
    match edit.value {
        ConfigEditValue::Bool(b) => assert!(!b),
        _ => panic!("expected Bool value"),
    }
}

#[test]
fn commit_focused_moves_staged_into_current() {
    let mut model = model_with("old", true);
    model.push_char('!');
    assert!(model.focused().is_dirty());
    model.commit_focused();
    assert!(!model.focused().is_dirty());
    assert!(model.fields[0].current == secret("old!"));
}

#[test]
fn revert_focused_drops_the_staged_edit() {
    let mut model = model_with("old", true);
    model.push_char('!');
    assert!(model.focused().is_dirty());
    model.revert_focused();
    assert!(!model.focused().is_dirty());
    assert!(model.fields[0].staged == secret("old"));
}

#[test]
fn debug_of_secret_field_value_masks_the_raw_value() {
    let fv = secret("supersecretkey");
    let out = fv.debug_text();
    assert!(!out.contains("supersecretkey"), "raw secret leaked: {out}");
    assert!(out.contains("tkey"), "masked tail missing: {out}");
}

#[test]
fn debug_of_settings_model_does_not_leak_the_raw_secret() {
    let model = model_with("supersecretkey", true);
    for f in &model.fields {
        for v in [&f.current, &f.staged] {
            let out = v.debug_text();
            assert!(!out.contains("supersecretkey"), "raw secret leaked: {out}");
        }
    }
}

#[test]
fn fields_have_their_kinds() {
    let model = model_with("", true);
    assert_eq!(model.fields[0].kind, FieldKind::Secret);
    assert_eq!(model.fields[1].kind, FieldKind::Bool);
    assert!(model.fields[0].is_secret_empty());
    assert!(!model.fields[1].is_secret_empty());
}
