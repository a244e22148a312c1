use handiva::hotkeys::{
    parse_hotkey, validate_hotkey, HotKeyEvent, HotKeys, KeyCode, KeyRegistration, ModifierSet,
};

fn mods(control: bool, shift: bool, alt: bool, super_key: bool) -> ModifierSet {
    ModifierSet { control, shift, alt, super_key }
}

#[test]
fn parses_plain_function_key() {
    assert_eq!(parse_hotkey("F7"), Some((None, KeyCode::F7)));
    assert_eq!(parse_hotkey("f12"), Some((None, KeyCode::F12)));
}

#[test]
fn parses_modifiers_in_any_case() {
    let m = mods(true, true, false, false);
    assert_eq!(parse_hotkey("Ctrl+Shift+F6"), Some((Some(m), KeyCode::F6)));
    assert_eq!(parse_hotkey(" control + SHIFT + f6 "), Some((Some(m), KeyCode::F6)));
    assert_eq!(parse_hotkey("shift+ctrl+F6"), Some((Some(m), KeyCode::F6)));
}

#[test]
fn parses_the_documented_examples() {
    assert_eq!(parse_hotkey("F6"), Some((None, KeyCode::F6)));
    assert_eq!(parse_hotkey("Ctrl+S"), Some((Some(mods(true, false, false, false)), KeyCode::KeyS)));
    assert_eq!(parse_hotkey("Shift+F1"), Some((Some(mods(false, true, false, false)), KeyCode::F1)));
    assert_eq!(parse_hotkey("Alt+A"), Some((Some(mods(false, false, true, false)), KeyCode::KeyA)));
}

#[test]
fn accepts_the_documented_key_ranges() {
    for i in 1..=12 {
        assert!(validate_hotkey(&format!("F{}", i)));
        assert!(validate_hotkey(&format!("Ctrl+F{}", i)));
    }
    for c in 'A'..='Z' {
        assert!(validate_hotkey(&c.to_string()));
        assert!(validate_hotkey(&format!("Alt+{}", c)));
    }
    for d in 0..=9 {
        assert!(validate_hotkey(&d.to_string()));
        assert!(validate_hotkey(&format!("Shift+{}", d)));
    }
}

#[test]
fn parses_named_keys_and_aliases() {
    assert_eq!(parse_hotkey("Space"), Some((None, KeyCode::Space)));
    assert_eq!(parse_hotkey("esc"), Some((None, KeyCode::Escape)));
    assert_eq!(parse_hotkey("Escape"), Some((None, KeyCode::Escape)));
    assert_eq!(parse_hotkey("PageDown"), Some((None, KeyCode::PageDown)));
    assert_eq!(parse_hotkey("Win+Meta+Super+x"), Some((Some(mods(false, false, false, true)), KeyCode::KeyX)));
    assert_eq!(parse_hotkey("7"), Some((None, KeyCode::Digit7)));
}

#[test]
fn ignores_unknown_modifiers() {
    assert_eq!(parse_hotkey("Hyper+F6"), Some((None, KeyCode::F6)));
    assert_eq!(parse_hotkey("+F6"), Some((None, KeyCode::F6)));
}

#[test]
fn rejects_unknown_keys() {
    assert!(!validate_hotkey(""));
    assert!(!validate_hotkey("Ctrl+"));
    assert!(!validate_hotkey("F13"));
    assert!(!validate_hotkey("Ctrl"));
    assert!(!validate_hotkey("F6+Ctrl"));
    assert!(!validate_hotkey("ab"));
}

#[test]
fn validates_default_keys() {
    assert!(validate_hotkey("F6"));
    assert!(validate_hotkey("F7"));
}

#[test]
fn plan_registers_valid_keys_in_order() {
    let plan = HotKeys::registration_plan("F6", "Ctrl+F7");
    assert_eq!(
        plan,
        vec![
            KeyRegistration { modifiers: None, code: KeyCode::F6, event: HotKeyEvent::SetPosition },
            KeyRegistration {
                modifiers: Some(mods(true, false, false, false)),
                code: KeyCode::F7,
                event: HotKeyEvent::ToggleClicker,
            },
        ]
    );
    let plan = HotKeys::registration_plan("bad", "F7");
    assert_eq!(plan.len(), 1);
    assert_eq!(plan[0].event, HotKeyEvent::ToggleClicker);
    assert!(HotKeys::registration_plan("", "").is_empty());
}

#[test]
fn recorded_hotkey_is_found_again() {
    let mut t = HotKeys::empty();
    assert_eq!(t.get_event(5), None);
    t.record(5, HotKeyEvent::SetPosition);
    t.record(9, HotKeyEvent::ToggleClicker);
    assert_eq!(t.get_event(5), Some(&HotKeyEvent::SetPosition));
    assert_eq!(t.get_event(9), Some(&HotKeyEvent::ToggleClicker));
    assert_eq!(t.get_event(6), None);
    assert_eq!(t.registered_id(HotKeyEvent::SetPosition), Some(5));
    t.clear();
    assert_eq!(t.get_event(5), None);
    assert_eq!(t.registered_id(HotKeyEvent::ToggleClicker), None);
}

#[test]
fn unregistration_uses_the_new_strings() {
    let mut t = HotKeys::empty();
    t.record(1, HotKeyEvent::SetPosition);
    t.record(2, HotKeyEvent::ToggleClicker);
    let mut plan = t.unregistration_plan("F8", "Alt+F9");
    plan.sort_by_key(|p| format!("{:?}", p));
    let mut expected = vec![(None, KeyCode::F8), (Some(mods(false, false, true, false)), KeyCode::F9)];
    expected.sort_by_key(|p| format!("{:?}", p));
    assert_eq!(plan, expected);
    assert_eq!(t.unregistration_plan("bad", "F9"), vec![(None, KeyCode::F9)]);
    assert!(HotKeys::empty().unregistration_plan("F1", "F2").is_empty());
}

#[test]
fn words_before_the_last_plus_do_not_decide_validity() {
    for s in ["F6", "x", "Ctrl+", "nope"] {
        for p in ["", "Ctrl", "junk", "a+b"] {
            assert_eq!(validate_hotkey(&format!("{p}+{s}")), validate_hotkey(s));
        }
    }
}

#[test]
fn ascii_case_is_ignored() {
    for s in ["CTRL+SHIFT+F6", "ctrl+shift+f6", "Alt+a", "ALT+A", "PageDown", "pagedown", "Bogus+X", "F13"] {
        assert_eq!(parse_hotkey(s), parse_hotkey(&s.to_ascii_lowercase()));
        assert_eq!(parse_hotkey(s), parse_hotkey(&s.to_ascii_uppercase()));
    }
}

#[test]
fn table_from_registrations_keeps_accepted_ones() {
    let plan = HotKeys::registration_plan("F6", "Ctrl+F7");
    let t = HotKeys::from_registrations(&plan, &[Some(11), None]);
    assert_eq!(t.get_event(11), Some(&HotKeyEvent::SetPosition));
    assert_eq!(t.registered_id(HotKeyEvent::SetPosition), Some(11));
    assert_eq!(t.registered_id(HotKeyEvent::ToggleClicker), None);
    let t = HotKeys::from_registrations(&plan, &[Some(11), Some(12)]);
    assert_eq!(t.get_event(12), Some(&HotKeyEvent::ToggleClicker));
    assert_eq!(t.registered_id(HotKeyEvent::ToggleClicker), Some(12));
}

#[test]
fn word_order_and_case_do_not_matter() {
    assert_eq!(parse_hotkey("Ctrl+Shift+F6"), parse_hotkey("Shift+Ctrl+F6"));
    assert_eq!(parse_hotkey("Alt+Alt+A"), parse_hotkey("Alt+A"));
    assert_eq!(parse_hotkey("ctrl+s"), parse_hotkey("CTRL+S"));
}
