use ghostty_pane_splitter::keybind::{
    is_modifier_name, parse_ghostty_key, parse_key_combo, physical_key, Key, KeyCombo, Platform,
};

#[test]
fn macos_symbol_keys_use_key_codes() {
    assert_eq!(physical_key(Platform::MacOs, 0x1E, ']'), Key::Other(0x1E));
    assert_eq!(physical_key(Platform::Linux, 0x1E, ']'), Key::Unicode(']'));
    assert_eq!(
        parse_key_combo("super+ctrl+right_bracket", Platform::MacOs).unwrap(),
        KeyCombo {
            modifiers: vec![Key::Meta, Key::Control],
            key: Key::Other(0x1E)
        }
    );
    assert_eq!(parse_ghostty_key("]", Platform::MacOs).unwrap(), Key::Unicode(']'));
    assert_eq!(parse_ghostty_key("grave_accent", Platform::MacOs).unwrap(), Key::Other(0x32));
}

#[test]
fn exact_key_errors() {
    assert_eq!(
        parse_key_combo("", Platform::Linux).unwrap_err(),
        "Empty keybinding".to_string()
    );
    assert_eq!(
        parse_key_combo("super+", Platform::Linux).unwrap_err(),
        "Unknown key: ''".to_string()
    );
    assert_eq!(
        parse_key_combo("+d", Platform::Linux).unwrap_err(),
        "Expected modifier key, got ''. Valid modifiers: super, ctrl, shift, alt".to_string()
    );
    assert_eq!(
        parse_key_combo("d+super+x", Platform::Linux).unwrap_err(),
        "Expected modifier key, got 'd'. Valid modifiers: super, ctrl, shift, alt".to_string()
    );
    assert_eq!(
        parse_key_combo("super+unknown_key", Platform::Linux).unwrap_err(),
        "Unknown key: 'unknown_key'".to_string()
    );
}

#[test]
fn single_character_keys_are_ascii_only() {
    assert_eq!(parse_ghostty_key("+", Platform::Linux).unwrap(), Key::Unicode('+'));
    assert_eq!(
        parse_ghostty_key("é", Platform::Linux).unwrap_err(),
        "Unknown key: 'é'".to_string()
    );
    assert_eq!(
        parse_ghostty_key("SUPER", Platform::Linux).unwrap_err(),
        "Unknown key: 'SUPER'".to_string()
    );
}

#[test]
fn modifiers_keep_their_order() {
    assert_eq!(
        parse_key_combo("shift+alt+super+ctrl+f5", Platform::Linux).unwrap(),
        KeyCombo {
            modifiers: vec![Key::Shift, Key::Alt, Key::Meta, Key::Control],
            key: Key::F5
        }
    );
    assert_eq!(
        parse_key_combo("ctrl+ctrl+a", Platform::Linux).unwrap(),
        KeyCombo {
            modifiers: vec![Key::Control, Key::Control],
            key: Key::Unicode('a')
        }
    );
    assert!(is_modifier_name("control"));
    assert!(!is_modifier_name("meta"));
}
