# ghostty-pane-splitter

Splits a Ghostty window into panes by sending Ghostty's own keybindings.

- `src/` is the verified library:
  - `layout` parses the layout argument (`4`, `2x3`, `1,3`) into columns of rows;
  - `keybind` reads Ghostty trigger names (`super+shift+d`) into key combinations;
  - `config` finds the five splitting keybindings in a Ghostty config;
  - `split` turns a layout into the ordered steps (keybinding and pause) that build it,
    and a key combination into its press/click/release events;
  - `cli` reads the command and lists where the config file may be;
  - `text` and `number` hold the character-level helpers and decimal parsing.
- `app/` holds the program: arguments, environment, files, and sending key events with enigo.
