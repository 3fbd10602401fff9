use ghostty_pane_splitter::keybind::{
    parse_ghostty_key, parse_key_combo, physical_key, Key, KeyCombo, Platform,
};

#[test]
fn parse_key_combo_valid_cases() {
    let cases = [
        // Single modifier + character key
        (
            "super+d",
            KeyCombo {
                modifiers: vec![Key::Meta],
                key: Key::Unicode('d'),
            },
        ),
        (
            "ctrl+c",
            KeyCombo {
                modifiers: vec![Key::Control],
                key: Key::Unicode('c'),
            },
        ),
        (
            "shift+a",
            KeyCombo {
                modifiers: vec![Key::Shift],
                key: Key::Unicode('a'),
            },
        ),
        (
            "alt+x",
            KeyCombo {
                modifiers: vec![Key::Alt],
                key: Key::Unicode('x'),
            },
        ),
        // Multiple modifiers
        (
            "super+shift+d",
            KeyCombo {
                modifiers: vec![Key::Meta, Key::Shift],
                key: Key::Unicode('d'),
            },
        ),
        (
            "super+ctrl+shift+equal",
            KeyCombo {
                modifiers: vec![Key::Meta, Key::Control, Key::Shift],
                key: physical_key(Platform::Linux, 0x18, '='),
            },
        ),
        // No modifiers
        (
            "space",
            KeyCombo {
                modifiers: vec![],
                key: Key::Space,
            },
        ),
        (
            "f1",
            KeyCombo {
                modifiers: vec![],
                key: Key::F1,
            },
        ),
        // Symbol keys
        (
            "super+ctrl+right_bracket",
            KeyCombo {
                modifiers: vec![Key::Meta, Key::Control],
                key: physical_key(Platform::Linux, 0x1E, ']'),
            },
        ),
        (
            "super+ctrl+left_bracket",
            KeyCombo {
                modifiers: vec![Key::Meta, Key::Control],
                key: physical_key(Platform::Linux, 0x21, '['),
            },
        ),
        // Arrow keys
        (
            "ctrl+up",
            KeyCombo {
                modifiers: vec![Key::Control],
                key: Key::UpArrow,
            },
        ),
        // control alias
        (
            "control+d",
            KeyCombo {
                modifiers: vec![Key::Control],
                key: Key::Unicode('d'),
            },
        ),
        // enter alias
        (
            "super+enter",
            KeyCombo {
                modifiers: vec![Key::Meta],
                key: Key::Return,
            },
        ),
    ];
    for (input, expected) in cases {
        assert_eq!(
            parse_key_combo(input, Platform::Linux).unwrap(),
            expected,
            "input: {}",
            input
        );
    }
}

#[test]
fn parse_key_combo_invalid_cases() {
    let cases = [
        ("", "Empty keybinding"),
        ("super+unknown_key", "Unknown key"),
        ("invalid_mod+d", "Expected modifier key"),
    ];
    for (input, expected_substring) in cases {
        let err = parse_key_combo(input, Platform::Linux).unwrap_err();
        assert!(
            err.contains(expected_substring),
            "input: '{}', error: '{}', expected to contain: '{}'",
            input,
            err,
            expected_substring
        );
    }
}

#[test]
fn parse_ghostty_key_valid_cases() {
    let cases = [
        // Modifier keys
        ("super", Key::Meta),
        ("ctrl", Key::Control),
        ("control", Key::Control),
        ("shift", Key::Shift),
        ("alt", Key::Alt),
        // Special keys
        ("space", Key::Space),
        ("tab", Key::Tab),
        ("return", Key::Return),
        ("enter", Key::Return),
        ("escape", Key::Escape),
        ("esc", Key::Escape),
        ("backspace", Key::Backspace),
        ("delete", Key::Delete),
        ("home", Key::Home),
        ("end", Key::End),
        ("page_up", Key::PageUp),
        ("page_down", Key::PageDown),
        // Arrow keys
        ("up", Key::UpArrow),
        ("down", Key::DownArrow),
        ("left", Key::LeftArrow),
        ("right", Key::RightArrow),
        // Function keys
        ("f1", Key::F1),
        ("f12", Key::F12),
        // Symbol keys
        ("left_bracket", physical_key(Platform::Linux, 0x21, '[')),
        ("right_bracket", physical_key(Platform::Linux, 0x1E, ']')),
        ("equal", physical_key(Platform::Linux, 0x18, '=')),
        ("minus", physical_key(Platform::Linux, 0x1B, '-')),
        ("comma", physical_key(Platform::Linux, 0x2B, ',')),
        ("period", physical_key(Platform::Linux, 0x2F, '.')),
        ("slash", physical_key(Platform::Linux, 0x2C, '/')),
        ("backslash", physical_key(Platform::Linux, 0x2A, '\\')),
        ("semicolon", physical_key(Platform::Linux, 0x29, ';')),
        ("apostrophe", physical_key(Platform::Linux, 0x27, '\'')),
        ("grave_accent", physical_key(Platform::Linux, 0x32, '`')),
        // Single character
        ("d", Key::Unicode('d')),
        ("1", Key::Unicode('1')),
    ];
    for (input, expected) in cases {
        assert_eq!(
            parse_ghostty_key(input, Platform::Linux).unwrap(),
            expected,
            "input: {}",
            input
        );
    }
}

#[test]
fn parse_ghostty_key_invalid_cases() {
    let cases = ["unknown_key", "foobar", ""];
    for input in cases {
        assert!(
            parse_ghostty_key(input, Platform::Linux).is_err(),
            "input: '{}' should fail",
            input
        );
    }
}
