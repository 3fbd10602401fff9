use ghostty_pane_splitter::cli::{command_for, config_candidates, config_not_found_message, Command};
use ghostty_pane_splitter::keybind::Platform;

#[test]
fn commands() {
    assert_eq!(command_for("--help"), Command::Help);
    assert_eq!(command_for("-h"), Command::Help);
    assert_eq!(command_for("-V"), Command::Version);
    assert_eq!(command_for("--version"), Command::Version);
    assert_eq!(command_for("4"), Command::Split);
    assert_eq!(command_for("-v"), Command::Split);
}

#[test]
fn candidates_follow_platform_and_xdg() {
    assert_eq!(
        config_candidates("/home/u", None, Platform::Linux),
        vec!["/home/u/.config/ghostty/config".to_string()]
    );
    assert_eq!(
        config_candidates("/home/u", Some("/xdg/"), Platform::Linux),
        vec!["/xdg/ghostty/config".to_string()]
    );
    assert_eq!(
        config_candidates("/Users/u", Some(""), Platform::MacOs),
        vec![
            "/Users/u/Library/Application Support/com.mitchellh.ghostty/config".to_string(),
            "ghostty/config".to_string()
        ]
    );
}

#[test]
fn not_found_lists_every_path() {
    let paths = vec!["/a/config".to_string(), "/b/config".to_string()];
    assert_eq!(
        config_not_found_message(&paths),
        "Ghostty config file not found. Searched:\n  - /a/config\n  - /b/config"
    );
}
