use ghostty_pane_splitter::config::{action_name_str, parse_keybindings, NUM_ACTIONS};
use ghostty_pane_splitter::keybind::{Key, KeyCombo, Platform};

const FULL_CONFIG: &str = "\
keybind = super+d=new_split:right
keybind = super+shift+d=new_split:down
keybind = super+ctrl+right_bracket=goto_split:next
keybind = super+ctrl+left_bracket=goto_split:previous
keybind = super+ctrl+shift+equal=equalize_splits
";

#[test]
fn parse_keybindings_all_present() {
    let kb = parse_keybindings(FULL_CONFIG, Platform::Linux).unwrap();
    assert_eq!(
        kb.split_right,
        KeyCombo {
            modifiers: vec![Key::Meta],
            key: Key::Unicode('d')
        }
    );
    assert_eq!(
        kb.split_down,
        KeyCombo {
            modifiers: vec![Key::Meta, Key::Shift],
            key: Key::Unicode('d')
        }
    );
    assert_eq!(
        kb.goto_next,
        KeyCombo {
            modifiers: vec![Key::Meta, Key::Control],
            key: Key::Unicode(']')
        }
    );
    assert_eq!(
        kb.goto_previous,
        KeyCombo {
            modifiers: vec![Key::Meta, Key::Control],
            key: Key::Unicode('[')
        }
    );
    assert_eq!(
        kb.equalize,
        KeyCombo {
            modifiers: vec![Key::Meta, Key::Control, Key::Shift],
            key: Key::Unicode('=')
        }
    );
}

#[test]
fn parse_keybindings_with_comments_and_other_lines() {
    let config = "\
# This is a comment
font-size = 14
keybind = super+d=new_split:right

keybind = super+shift+d=new_split:down
# another comment
keybind = super+ctrl+right_bracket=goto_split:next
keybind = super+ctrl+left_bracket=goto_split:previous
keybind = super+ctrl+shift+equal=equalize_splits
keybind = super+t=new_tab
";
    let kb = parse_keybindings(config, Platform::Linux).unwrap();
    assert_eq!(
        kb.split_right,
        KeyCombo {
            modifiers: vec![Key::Meta],
            key: Key::Unicode('d')
        }
    );
    assert_eq!(
        kb.split_down,
        KeyCombo {
            modifiers: vec![Key::Meta, Key::Shift],
            key: Key::Unicode('d')
        }
    );
}

#[test]
fn parse_keybindings_with_extra_whitespace() {
    let config = "\
  keybind = super+d = new_split:right
keybind =   super+shift+d = new_split:down
keybind = super+ctrl+right_bracket = goto_split:next
keybind = super+ctrl+left_bracket = goto_split:previous
keybind = super+ctrl+shift+equal = equalize_splits
";
    let kb = parse_keybindings(config, Platform::Linux).unwrap();
    assert_eq!(
        kb.split_right,
        KeyCombo {
            modifiers: vec![Key::Meta],
            key: Key::Unicode('d')
        }
    );
    assert_eq!(
        kb.split_down,
        KeyCombo {
            modifiers: vec![Key::Meta, Key::Shift],
            key: Key::Unicode('d')
        }
    );
}

#[test]
fn parse_keybindings_missing_some() {
    let config = "\
keybind = super+d=new_split:right
keybind = super+shift+d=new_split:down
";
    let err = parse_keybindings(config, Platform::Linux).unwrap_err();
    assert!(err.contains("goto_split:next"), "error: {}", err);
    assert!(err.contains("goto_split:previous"), "error: {}", err);
    assert!(err.contains("equalize_splits"), "error: {}", err);
}

#[test]
fn parse_keybindings_empty_config() {
    let err = parse_keybindings("", Platform::Linux).unwrap_err();
    for i in 0..NUM_ACTIONS {
        let action = action_name_str(i);
        assert!(err.contains(action), "error should contain {}", action);
    }
}

#[test]
fn parse_keybindings_last_binding_wins() {
    let config = "\
keybind = super+d=new_split:right
keybind = ctrl+d=new_split:right
keybind = super+shift+d=new_split:down
keybind = super+ctrl+right_bracket=goto_split:next
keybind = super+ctrl+left_bracket=goto_split:previous
keybind = super+ctrl+shift+equal=equalize_splits
";
    let kb = parse_keybindings(config, Platform::Linux).unwrap();
    assert_eq!(
        kb.split_right,
        KeyCombo {
            modifiers: vec![Key::Control],
            key: Key::Unicode('d')
        }
    );
}
