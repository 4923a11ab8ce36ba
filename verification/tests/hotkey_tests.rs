use launchpad::hotkey::{digit_code, f_key, letter_code, parse_code, parse_hotkey, parse_u32, Hotkey, KeyCode, Modifiers};
use launchpad::text::chars_of;

fn mods(ctrl: bool, alt: bool, shift: bool, super_key: bool) -> Modifiers {
    Modifiers { ctrl, alt, shift, super_key }
}

#[test]
fn default_hotkey_parses() {
    assert_eq!(
        parse_hotkey("Ctrl+Alt+Space"),
        Some(Hotkey { modifiers: mods(true, true, false, false), code: KeyCode::Space })
    );
}

#[test]
fn parts_are_trimmed_and_case_insensitive() {
    assert_eq!(
        parse_hotkey(" ctrl + SHIFT + p "),
        Some(Hotkey { modifiers: mods(true, false, true, false), code: KeyCode::KeyP })
    );
    assert_eq!(parse_hotkey("CONTROL+OPTION+Return"), parse_hotkey("control+option+enter"));
}

#[test]
fn modifier_aliases() {
    for m in ["super", "Win", "META", "cmd", "Command"] {
        let h = parse_hotkey(&format!("{}+1", m)).unwrap();
        assert_eq!(h.modifiers, mods(false, false, false, true));
        assert_eq!(h.code, KeyCode::Digit1);
    }
}

#[test]
fn function_keys() {
    assert_eq!(parse_hotkey("Alt+F5").unwrap().code, KeyCode::F5);
    assert_eq!(parse_hotkey("f24").unwrap().code, KeyCode::F24);
    assert_eq!(parse_hotkey("F05").unwrap().code, KeyCode::F5);
    assert_eq!(parse_hotkey("F25"), None);
    assert_eq!(parse_hotkey("F0"), None);
    assert_eq!(parse_hotkey("f").unwrap().code, KeyCode::KeyF);
    assert_eq!(parse_hotkey("F99999999999"), None);
}

#[test]
fn plus_sign_splits_parts() {
    // "F+5" is the key F followed by the key 5; the last key named wins.
    assert_eq!(parse_hotkey("F+5").unwrap().code, KeyCode::Digit5);
    assert_eq!(parse_hotkey("Ctrl++A").unwrap().code, KeyCode::KeyA);
    assert_eq!(parse_hotkey("Ctrl+A+B").unwrap().code, KeyCode::KeyB);
}

#[test]
fn rejected_shortcuts() {
    assert_eq!(parse_hotkey("Ctrl+Alt"), None);
    assert_eq!(parse_hotkey("Ctrl+Foo"), None);
    assert_eq!(parse_hotkey(""), None);
    assert_eq!(parse_hotkey("   "), None);
    assert_eq!(parse_hotkey("Ctrl+!"), None);
    assert_eq!(parse_hotkey("Ctrl+é"), None);
}

#[test]
fn named_keys() {
    let cases = [
        ("space", KeyCode::Space),
        ("enter", KeyCode::Enter),
        ("return", KeyCode::Enter),
        ("esc", KeyCode::Escape),
        ("escape", KeyCode::Escape),
        ("tab", KeyCode::Tab),
        ("backspace", KeyCode::Backspace),
        ("up", KeyCode::ArrowUp),
        ("down", KeyCode::ArrowDown),
        ("left", KeyCode::ArrowLeft),
        ("right", KeyCode::ArrowRight),
    ];
    for (name, code) in cases {
        assert_eq!(parse_code(&chars_of(name)), Some(code));
    }
    assert_eq!(parse_code(&chars_of("Space")), None);
}

#[test]
fn letter_and_digit_codes() {
    assert_eq!(letter_code('A'), KeyCode::KeyA);
    assert_eq!(letter_code('Z'), KeyCode::KeyZ);
    assert_eq!(letter_code('a'), KeyCode::Space);
    assert_eq!(digit_code('0'), KeyCode::Digit0);
    assert_eq!(digit_code('9'), KeyCode::Digit9);
    assert_eq!(digit_code('x'), KeyCode::Digit0);
    assert_eq!(f_key(1), Some(KeyCode::F1));
    assert_eq!(f_key(24), Some(KeyCode::F24));
    assert_eq!(f_key(0), None);
    assert_eq!(f_key(25), None);
}

#[test]
fn u32_parsing_matches_std() {
    for s in ["0", "12", "+7", "4294967295", "4294967296", "", "+", "-1", "1a", "007", "99999999999"] {
        assert_eq!(parse_u32(&chars_of(s)), s.parse::<u32>().ok(), "{}", s);
    }
}

#[test]
fn part_order_and_spacing_do_not_matter() {
    let a = parse_hotkey("Ctrl+Alt+Space");
    assert!(a.is_some());
    assert_eq!(parse_hotkey(" space+ALT + ctrl"), a);
    assert_eq!(parse_hotkey("alt+ Space +CONTROL"), a);
    assert_eq!(parse_hotkey("Shift+F5"), parse_hotkey("f5 + shift"));
}
