use ghostty_pane_splitter::config::parse_keybindings;
use ghostty_pane_splitter::keybind::{Key, KeyCombo, Platform};

const REST: &str = "keybind = super+shift+d=new_split:down
keybind = super+ctrl+right_bracket=goto_split:next
keybind = super+ctrl+left_bracket=goto_split:previous
keybind = super+ctrl+shift+equal=equalize_splits
";

#[test]
fn missing_message_is_exact() {
    let err = parse_keybindings("keybind = super+d=new_split:right\n", Platform::Linux).unwrap_err();
    assert_eq!(
        err,
        "Missing keybindings for the following actions:
  - new_split:down
  - goto_split:next
  - goto_split:previous
  - equalize_splits

Add them to your Ghostty config. Example:
  keybind = super+d=new_split:right
  keybind = super+shift+d=new_split:down
  keybind = super+ctrl+right_bracket=goto_split:next
  keybind = super+ctrl+left_bracket=goto_split:previous
  keybind = super+ctrl+shift+equal=equalize_splits"
    );
}

#[test]
fn crlf_tabs_and_tight_spacing() {
    let config = format!("keybind=ctrl+d=new_split:right\r\n\t{}", REST.replace('\n', "\r\n"));
    let kb = parse_keybindings(&config, Platform::Linux).unwrap();
    assert_eq!(
        kb.split_right,
        KeyCombo {
            modifiers: vec![Key::Control],
            key: Key::Unicode('d')
        }
    );
}

#[test]
fn lookalike_lines_are_ignored() {
    let config = format!(
        "keybinds = ctrl+d=new_split:right\nkeybind = ctrl+x=new_split:right \u{3000}\n#keybind = alt+d=new_split:right\nkeybind == alt+q=new_split:right\nkeybind = alt+d=new_split:left\n{}",
        REST
    );
    let kb = parse_keybindings(&config, Platform::Linux).unwrap();
    assert_eq!(
        kb.split_right,
        KeyCombo {
            modifiers: vec![Key::Control],
            key: Key::Unicode('x')
        }
    );
}

#[test]
fn bad_trigger_is_reported() {
    let config = format!("keybind = super+foo=new_split:right\n{}", REST);
    assert_eq!(
        parse_keybindings(&config, Platform::Linux).unwrap_err(),
        "Unknown key: 'foo'".to_string()
    );
    let config = format!("keybind = =new_split:right\n{}", REST);
    assert_eq!(
        parse_keybindings(&config, Platform::Linux).unwrap_err(),
        "Empty keybinding".to_string()
    );
}

#[test]
fn later_line_overrides_on_macos_too() {
    let config = format!("{}keybind = super+ctrl+minus=goto_split:next", REST);
    let config = format!("keybind = super+d=new_split:right\n{}", config);
    let kb = parse_keybindings(&config, Platform::MacOs).unwrap();
    assert_eq!(
        kb.goto_next,
        KeyCombo {
            modifiers: vec![Key::Meta, Key::Control],
            key: Key::Other(0x1B)
        }
    );
}
