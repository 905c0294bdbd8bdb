use pattern::config::keybinds::{
    chord_key, keysym_to_lower, modifier_named, parse_keybind, parse_u32, resolve_chord, ChordKey, KeyPattern, KeySpec,
    Modifier, NO_SYMBOL,
};
use pattern::input::Mods;

fn mods(ctrl: bool, alt: bool, shift: bool, mod4: bool) -> Mods {
    Mods { alt, ctrl, shift, mod4 }
}

fn name_of(key: &ChordKey) -> Option<&str> {
    match key {
        ChordKey::Name(n) => Some(n.as_str()),
        _ => None,
    }
}

#[test]
fn a_chord_with_modifiers_and_a_key_name() {
    let c = parse_keybind("Super+Shift+q").unwrap();
    assert_eq!(c.mods, mods(false, false, true, true));
    assert_eq!(name_of(&c.key), Some("q"));
}

#[test]
fn parts_are_trimmed_and_modifiers_ignore_case() {
    let c = parse_keybind(" ctrl +  alt+ Return ").unwrap();
    assert_eq!(c.mods, mods(true, true, false, false));
    assert_eq!(name_of(&c.key), Some("Return"));
    let c = parse_keybind("control+mod1+logo+win+mod4+super+a").unwrap();
    assert_eq!(c.mods, mods(true, true, false, true));
}

#[test]
fn keycodes_and_mouse_buttons() {
    let c = parse_keybind("ctrl+code:38").unwrap();
    assert!(matches!(c.key, ChordKey::Keycode(38)));
    let c = parse_keybind("SUPER+Mouse:272").unwrap();
    assert!(matches!(c.key, ChordKey::Mouse(272)));
    assert_eq!(c.mods, mods(false, false, false, true));
    let c = parse_keybind("CODE:+9").unwrap();
    assert_eq!(name_of(&c.key), Some("9"));
    assert!(matches!(chord_key("CODE:+9"), Some(ChordKey::Keycode(9))));
    assert!(parse_keybind("ctrl+code:abc").is_none());
    assert!(parse_keybind("mouse:").is_none());
    assert!(parse_keybind("code:4294967296").is_none());
}

#[test]
fn a_chord_needs_a_key() {
    assert!(parse_keybind("ctrl+shift").is_none());
    assert!(parse_keybind("SUPER").is_none());
    let c = parse_keybind("ctrl+").unwrap();
    assert_eq!(name_of(&c.key), Some(""));
    let c = parse_keybind("").unwrap();
    assert_eq!(name_of(&c.key), Some(""));
}

#[test]
fn the_last_key_part_wins() {
    let c = parse_keybind("a+shift+b").unwrap();
    assert_eq!(c.mods, mods(false, false, true, false));
    assert_eq!(name_of(&c.key), Some("b"));
}

#[test]
fn numbers_parse_like_u32_from_str() {
    assert_eq!(parse_u32("0"), Some(0));
    assert_eq!(parse_u32("+12"), Some(12));
    assert_eq!(parse_u32("4294967295"), Some(u32::MAX));
    assert_eq!(parse_u32("4294967296"), None);
    assert_eq!(parse_u32(""), None);
    assert_eq!(parse_u32("+"), None);
    assert_eq!(parse_u32("-1"), None);
    assert_eq!(parse_u32("12a"), None);
    assert_eq!(parse_u32(" 1"), None);
    for s in ["7", "+007", "99999", "x", "1e3"] {
        assert_eq!(parse_u32(s), s.parse::<u32>().ok());
    }
}

#[test]
fn key_parts_by_prefix() {
    assert!(matches!(chord_key("Code:5"), Some(ChordKey::Keycode(5))));
    assert!(matches!(chord_key("mOuSe:1"), Some(ChordKey::Mouse(1))));
    assert!(matches!(chord_key("codex"), Some(ChordKey::Name(_))));
    assert!(chord_key("code:").is_none());
}

#[test]
fn modifier_names_are_matched_upper_case() {
    assert_eq!(modifier_named("CTRL"), Some(Modifier::Ctrl));
    assert_eq!(modifier_named("CONTROL"), Some(Modifier::Ctrl));
    assert_eq!(modifier_named("MOD1"), Some(Modifier::Alt));
    assert_eq!(modifier_named("SHIFT"), Some(Modifier::Shift));
    assert_eq!(modifier_named("WIN"), Some(Modifier::Super));
    assert_eq!(modifier_named("ctrl"), None);
    assert_eq!(modifier_named("HYPER"), None);
}

#[test]
fn key_names_resolve_through_the_keymap_lookups() {
    let c = parse_keybind("super+Q").unwrap();
    assert_eq!(resolve_chord(&c, 0x51, 0x71), Some(KeyPattern { mods: c.mods, key: KeySpec::Keysym(0x71) }));
    assert_eq!(resolve_chord(&c, 0xff0d, NO_SYMBOL), Some(KeyPattern { mods: c.mods, key: KeySpec::Keysym(0xff0d) }));
    assert_eq!(resolve_chord(&c, NO_SYMBOL, 0x71), None);
    let c = parse_keybind("code:38").unwrap();
    assert_eq!(resolve_chord(&c, NO_SYMBOL, NO_SYMBOL), Some(KeyPattern { mods: Mods::default(), key: KeySpec::Keycode(38) }));
    assert_eq!(keysym_to_lower(0x51, 0x71), 0x71);
    assert_eq!(keysym_to_lower(0x51, NO_SYMBOL), 0x51);
}

#[test]
fn modifier_state_comes_from_the_depressed_mask() {
    let m = Mods::new(0b0100_0101, 2, 0, 3, 6);
    assert_eq!(m, mods(true, false, true, true));
    let m = Mods::new(0, 2, 0, 3, 6);
    assert_eq!(m, Mods::default());
    assert_eq!(Mods::default(), mods(false, false, false, false));
    let m = Mods::new(u32::MAX, 31, 31, 31, 31);
    assert_eq!(m, mods(true, true, true, true));
}

#[test]
fn reordering_and_respelling_modifiers_gives_the_same_chord() {
    let a = parse_keybind("Ctrl+Shift+q").unwrap();
    for b in ["shift + control+q", " q+SHIFT+ctrl ", "ctrl+shift+Shift+q"] {
        let b = parse_keybind(b).unwrap();
        assert_eq!(a.mods, b.mods);
        assert_eq!(name_of(&a.key), name_of(&b.key));
    }
    let c = parse_keybind("mod1+win+Return").unwrap();
    let d = parse_keybind("logo + ALT + Return").unwrap();
    assert_eq!(c.mods, d.mods);
    assert_eq!(name_of(&c.key), Some("Return"));
    assert_eq!(name_of(&d.key), Some("Return"));
}

#[test]
fn modifier_case_does_not_matter() {
    let a = parse_keybind("CTRL+Shift+x").unwrap();
    let b = parse_keybind("ctrl+sHiFt+x").unwrap();
    assert_eq!(a.mods, b.mods);
    assert_eq!(name_of(&a.key), name_of(&b.key));
}
