//! Keys and key combinations, read from Ghostty's trigger syntax
//! (`super+shift+d`: modifiers joined by `+`, the main key last).

use vstd::prelude::*;

use crate::text::{chars_of, split_on, split_ranges, str_eq, surround};

verus! {

/// The platform the keys are sent on. Ghostty binds symbol keys by their
/// physical key code on macOS and by the character they type elsewhere.
#[derive(Clone, Copy, Debug, PartialEq, Eq, Structural)]
pub enum Platform {
    /// macOS.
    MacOs,
    /// Linux, and every platform other than macOS.
    Linux,
}

/// A key that can be pressed: the keys that Ghostty trigger names denote.
#[derive(Clone, Copy, Debug, PartialEq, Eq, Structural)]
pub enum Key {
    Meta,
    Control,
    Shift,
    Alt,
    Space,
    Tab,
    Return,
    Escape,
    Backspace,
    Delete,
    Home,
    End,
    PageUp,
    PageDown,
    UpArrow,
    DownArrow,
    LeftArrow,
    RightArrow,
    F1,
    F2,
    F3,
    F4,
    F5,
    F6,
    F7,
    F8,
    F9,
    F10,
    F11,
    F12,
    /// The key that types this character.
    Unicode(char),
    /// A key given by its platform key code.
    Other(u32),
}

/// A key combination consisting of modifier keys and a primary key.
#[derive(Debug, PartialEq)]
pub struct KeyCombo {
    /// Modifier keys (e.g. Ctrl, Shift, Meta).
    pub modifiers: Vec<Key>,
    /// The primary key to press.
    pub key: Key,
}

/// A key combination as plain values: the modifiers in order, then the key.
pub type ComboView = (Seq<Key>, Key);

impl View for KeyCombo {
    type V = ComboView;

    open spec fn view(&self) -> ComboView {
        (self.modifiers@, self.key)
    }
}

/// The key for a Ghostty symbol key name: its key code on macOS, its character elsewhere.
pub open spec fn physical_key_spec(platform: Platform, macos_keycode: u32, unicode_char: char) -> Key {
    match platform {
        Platform::MacOs => Key::Other(macos_keycode),
        Platform::Linux => Key::Unicode(unicode_char),
    }
}

/// The modifier that a Ghostty modifier name denotes.
pub open spec fn modifier_key_spec(name: Seq<char>) -> Option<Key> {
    if name == "super"@ {
        Some(Key::Meta)
    } else if name == "ctrl"@ || name == "control"@ {
        Some(Key::Control)
    } else if name == "shift"@ {
        Some(Key::Shift)
    } else if name == "alt"@ {
        Some(Key::Alt)
    } else {
        None
    }
}

/// The key that a Ghostty key name denotes: a modifier, a named special,
/// arrow, function or symbol key, or a single ASCII character (which is the
/// one-byte case of `str::len() == 1`).
pub open spec fn ghostty_key_spec(name: Seq<char>, platform: Platform) -> Option<Key> {
    match modifier_key_spec(name) {
        Some(k) => Some(k),
        None => if name == "space"@ {
            Some(Key::Space)
        } else if name == "tab"@ {
            Some(Key::Tab)
        } else if name == "return"@ || name == "enter"@ {
            Some(Key::Return)
        } else if name == "escape"@ || name == "esc"@ {
            Some(Key::Escape)
        } else if name == "backspace"@ {
            Some(Key::Backspace)
        } else if name == "delete"@ {
            Some(Key::Delete)
        } else if name == "home"@ {
            Some(Key::Home)
        } else if name == "end"@ {
            Some(Key::End)
        } else if name == "page_up"@ {
            Some(Key::PageUp)
        } else if name == "page_down"@ {
            Some(Key::PageDown)
        } else if name == "up"@ {
            Some(Key::UpArrow)
        } else if name == "down"@ {
            Some(Key::DownArrow)
        } else if name == "left"@ {
            Some(Key::LeftArrow)
        } else if name == "right"@ {
            Some(Key::RightArrow)
        } else if name == "f1"@ {
            Some(Key::F1)
        } else if name == "f2"@ {
            Some(Key::F2)
        } else if name == "f3"@ {
            Some(Key::F3)
        } else if name == "f4"@ {
            Some(Key::F4)
        } else if name == "f5"@ {
            Some(Key::F5)
        } else if name == "f6"@ {
            Some(Key::F6)
        } else if name == "f7"@ {
            Some(Key::F7)
        } else if name == "f8"@ {
            Some(Key::F8)
        } else if name == "f9"@ {
            Some(Key::F9)
        } else if name == "f10"@ {
            Some(Key::F10)
        } else if name == "f11"@ {
            Some(Key::F11)
        } else if name == "f12"@ {
            Some(Key::F12)
        } else if name == "left_bracket"@ {
            Some(physical_key_spec(platform, 0x21, '['))
        } else if name == "right_bracket"@ {
            Some(physical_key_spec(platform, 0x1E, ']'))
        } else if name == "equal"@ {
            Some(physical_key_spec(platform, 0x18, '='))
        } else if name == "minus"@ {
            Some(physical_key_spec(platform, 0x1B, '-'))
        } else if name == "comma"@ {
            Some(physical_key_spec(platform, 0x2B, ','))
        } else if name == "period"@ {
            Some(physical_key_spec(platform, 0x2F, '.'))
        } else if name == "slash"@ {
            Some(physical_key_spec(platform, 0x2C, '/'))
        } else if name == "backslash"@ {
            Some(physical_key_spec(platform, 0x2A, '\\'))
        } else if name == "semicolon"@ {
            Some(physical_key_spec(platform, 0x29, ';'))
        } else if name == "apostrophe"@ {
            Some(physical_key_spec(platform, 0x27, '\''))
        } else if name == "grave_accent"@ {
            Some(physical_key_spec(platform, 0x32, '`'))
        } else if name.len() == 1 && (name[0] as u32) < 0x80 {
            Some(Key::Unicode(name[0]))
        } else {
            None
        },
    }
}

/// Error: a name that is no key.
pub open spec fn unknown_key_msg(name: Seq<char>) -> Seq<char> {
    "Unknown key: '"@ + name + "'"@
}

/// Error: a part before the last `+` that is no modifier.
pub open spec fn expected_modifier_msg(part: Seq<char>) -> Seq<char> {
    "Expected modifier key, got '"@ + part + "'. Valid modifiers: super, ctrl, shift, alt"@
}

/// The modifiers named by `parts`, in order; the first part that is no
/// modifier decides the error.
pub open spec fn modifiers_spec(parts: Seq<Seq<char>>) -> Result<Seq<Key>, Seq<char>>
    decreases parts.len(),
{
    if parts.len() == 0 {
        Ok(Seq::empty())
    } else {
        match modifiers_spec(parts.drop_last()) {
            Err(e) => Err(e),
            Ok(mods) => match modifier_key_spec(parts.last()) {
                Some(k) => Ok(mods.push(k)),
                None => Err(expected_modifier_msg(parts.last())),
            },
        }
    }
}

/// The key combination a trigger such as `super+shift+d` denotes: the parts
/// between `+` signs, all but the last being modifiers and the last the key.
pub open spec fn key_combo_spec(trigger: Seq<char>, platform: Platform) -> Result<ComboView, Seq<char>> {
    if trigger.len() == 0 {
        Err("Empty keybinding"@)
    } else {
        let parts = split_on(trigger, '+');
        match modifiers_spec(parts.drop_last()) {
            Err(e) => Err(e),
            Ok(mods) => match ghostty_key_spec(parts.last(), platform) {
                Some(k) => Ok((mods, k)),
                None => Err(unknown_key_msg(parts.last())),
            },
        }
    }
}

/// Once a part fails, the whole list of modifiers fails the same way.
proof fn lemma_modifiers_err(parts: Seq<Seq<char>>, k: int, e: Seq<char>)
    requires
        0 <= k <= parts.len(),
        modifiers_spec(parts.take(k)) == Err::<Seq<Key>, Seq<char>>(e),
    ensures
        modifiers_spec(parts) == Err::<Seq<Key>, Seq<char>>(e),
    decreases parts.len() - k,
{
    if k < parts.len() {
        assert(parts.take(k + 1).drop_last() =~= parts.take(k));
        lemma_modifiers_err(parts, k + 1, e);
    } else {
        assert(parts.take(k) =~= parts);
    }
}

/// Returns the appropriate Key for a Ghostty named symbol key.
/// On macOS, uses the physical keycode (kVK_ANSI_*) to match Ghostty's keybinding system.
/// On other platforms, uses the Unicode character with layout-dependent resolution.
pub fn physical_key(platform: Platform, macos_keycode: u32, unicode_char: char) -> (k: Key)
    ensures
        k == physical_key_spec(platform, macos_keycode, unicode_char),
{
    match platform {
        Platform::MacOs => Key::Other(macos_keycode),
        Platform::Linux => Key::Unicode(unicode_char),
    }
}

/// Whether `name` is one of the modifier names `super`, `ctrl`, `control`, `shift`, `alt`.
pub fn is_modifier_name(name: &str) -> (b: bool)
    ensures
        b == modifier_key_spec(name@) is Some,
{
    str_eq(name, "super") || str_eq(name, "ctrl") || str_eq(name, "control") || str_eq(
        name,
        "shift",
    ) || str_eq(name, "alt")
}

/// Converts a Ghostty key name string into a `Key`.
pub fn parse_ghostty_key(name: &str, platform: Platform) -> (r: Result<Key, String>)
    ensures
        match r {
            Ok(k) => ghostty_key_spec(name@, platform) == Some(k),
            Err(e) => ghostty_key_spec(name@, platform) is None && e@ == unknown_key_msg(name@),
        },
{
    // Modifier keys
    if str_eq(name, "super") {
        Ok(Key::Meta)
    } else if str_eq(name, "ctrl") || str_eq(name, "control") {
        Ok(Key::Control)
    } else if str_eq(name, "shift") {
        Ok(Key::Shift)
    } else if str_eq(name, "alt") {
        Ok(Key::Alt)
    }
    // Special keys
     else if str_eq(name, "space") {
        Ok(Key::Space)
    } else if str_eq(name, "tab") {
        Ok(Key::Tab)
    } else if str_eq(name, "return") || str_eq(name, "enter") {
        Ok(Key::Return)
    } else if str_eq(name, "escape") || str_eq(name, "esc") {
        Ok(Key::Escape)
    } else if str_eq(name, "backspace") {
        Ok(Key::Backspace)
    } else if str_eq(name, "delete") {
        Ok(Key::Delete)
    } else if str_eq(name, "home") {
        Ok(Key::Home)
    } else if str_eq(name, "end") {
        Ok(Key::End)
    } else if str_eq(name, "page_up") {
        Ok(Key::PageUp)
    } else if str_eq(name, "page_down") {
        Ok(Key::PageDown)
    }
    // Arrow keys
     else if str_eq(name, "up") {
        Ok(Key::UpArrow)
    } else if str_eq(name, "down") {
        Ok(Key::DownArrow)
    } else if str_eq(name, "left") {
        Ok(Key::LeftArrow)
    } else if str_eq(name, "right") {
        Ok(Key::RightArrow)
    }
    // Function keys
     else if str_eq(name, "f1") {
        Ok(Key::F1)
    } else if str_eq(name, "f2") {
        Ok(Key::F2)
    } else if str_eq(name, "f3") {
        Ok(Key::F3)
    } else if str_eq(name, "f4") {
        Ok(Key::F4)
    } else if str_eq(name, "f5") {
        Ok(Key::F5)
    } else if str_eq(name, "f6") {
        Ok(Key::F6)
    } else if str_eq(name, "f7") {
        Ok(Key::F7)
    } else if str_eq(name, "f8") {
        Ok(Key::F8)
    } else if str_eq(name, "f9") {
        Ok(Key::F9)
    } else if str_eq(name, "f10") {
        Ok(Key::F10)
    } else if str_eq(name, "f11") {
        Ok(Key::F11)
    } else if str_eq(name, "f12") {
        Ok(Key::F12)
    }
    // Symbol keys (Ghostty naming) - uses physical keycodes (kVK_ANSI_*) on macOS
     else if str_eq(name, "left_bracket") {
        Ok(physical_key(platform, 0x21, '['))
    } else if str_eq(name, "right_bracket") {
        Ok(physical_key(platform, 0x1E, ']'))
    } else if str_eq(name, "equal") {
        Ok(physical_key(platform, 0x18, '='))
    } else if str_eq(name, "minus") {
        Ok(physical_key(platform, 0x1B, '-'))
    } else if str_eq(name, "comma") {
        Ok(physical_key(platform, 0x2B, ','))
    } else if str_eq(name, "period") {
        Ok(physical_key(platform, 0x2F, '.'))
    } else if str_eq(name, "slash") {
        Ok(physical_key(platform, 0x2C, '/'))
    } else if str_eq(name, "backslash") {
        Ok(physical_key(platform, 0x2A, '\\'))
    } else if str_eq(name, "semicolon") {
        Ok(physical_key(platform, 0x29, ';'))
    } else if str_eq(name, "apostrophe") {
        Ok(physical_key(platform, 0x27, '\''))
    } else if str_eq(name, "grave_accent") {
        Ok(physical_key(platform, 0x32, '`'))
    }
    // Single character: treat as Unicode
     else if name.unicode_len() == 1 && (name.get_char(0) as u32) < 0x80 {
        Ok(Key::Unicode(name.get_char(0)))
    } else {
        Err(surround("Unknown key: '", name, "'"))
    }
}

/// Parses a keybinding trigger string (e.g. "super+shift+d") into a `KeyCombo`.
pub fn parse_key_combo(trigger: &str, platform: Platform) -> (r: Result<KeyCombo, String>)
    ensures
        match r {
            Ok(c) => key_combo_spec(trigger@, platform) == Ok::<ComboView, Seq<char>>(c@),
            Err(e) => key_combo_spec(trigger@, platform) == Err::<ComboView, Seq<char>>(e@),
        },
{
    let chars = chars_of(trigger);
    let n = chars.len();
    if n == 0 {
        return Err(String::from_str("Empty keybinding"));
    }
    let parts = split_ranges(&chars, 0, n, '+');
    let ghost pieces = split_on(chars@.subrange(0, n as int), '+');
    assert(chars@.subrange(0, n as int) =~= trigger@);
    proof {
        crate::text::lemma_split_on_nonempty(trigger@, '+');
    }
    let m = parts.len();
    // Last element is the main key, rest are modifiers
    let mut modifiers: Vec<Key> = Vec::new();
    let mut k: usize = 0;
    while k < m - 1
        invariant
            pieces == split_on(trigger@, '+'),
            chars@ == trigger@,
            n == chars@.len(),
            m == parts@.len() == pieces.len(),
            m >= 1,
            forall|j: int|
                0 <= j < parts@.len() ==> 0 <= (#[trigger] parts@[j]).0 <= parts@[j].1 <= n
                    && chars@.subrange(parts@[j].0 as int, parts@[j].1 as int) == pieces[j],
            k <= m - 1,
            modifiers_spec(pieces.drop_last().take(k as int)) == Ok::<Seq<Key>, Seq<char>>(
                modifiers@,
            ),
        decreases m - 1 - k,
    {
        let (a, b) = parts[k];
        let part = trigger.substring_char(a, b);
        let ghost mods = pieces.drop_last();
        proof {
            assert(mods.take(k + 1).drop_last() =~= mods.take(k as int));
            assert(mods.take(k + 1).last() == pieces[k as int]);
        }
        if !is_modifier_name(part) {
            let e = surround(
                "Expected modifier key, got '",
                part,
                "'. Valid modifiers: super, ctrl, shift, alt",
            );
            proof {
                lemma_modifiers_err(mods, k + 1, e@);
            }
            return Err(e);
        }
        let key = match parse_ghostty_key(part, platform) {
            Ok(key) => key,
            Err(e) => {
                return Err(e);
            },
        };
        modifiers.push(key);
        k = k + 1;
    }
    assert(pieces.drop_last().take(k as int) =~= pieces.drop_last());
    let (a, b) = parts[m - 1];
    let last = trigger.substring_char(a, b);
    assert(pieces.last() == last@);
    let key = match parse_ghostty_key(last, platform) {
        Ok(key) => key,
        Err(e) => {
            return Err(e);
        },
    };
    Ok(KeyCombo { modifiers, key })
}

/// The macOS virtual key code (`kVK_ANSI_*`, US layout) of the key that
/// types a symbol character.
pub open spec fn kvk_ansi_code(c: char) -> Option<u32> {
    if c == '[' {
        Some(0x21)
    } else if c == ']' {
        Some(0x1E)
    } else if c == '=' {
        Some(0x18)
    } else if c == '-' {
        Some(0x1B)
    } else if c == ',' {
        Some(0x2B)
    } else if c == '.' {
        Some(0x2F)
    } else if c == '/' {
        Some(0x2C)
    } else if c == '\\' {
        Some(0x2A)
    } else if c == ';' {
        Some(0x29)
    } else if c == '\'' {
        Some(0x27)
    } else if c == '`' {
        Some(0x32)
    } else {
        None
    }
}

/// Symbol key names denote the same physical key on both platforms: a name
/// (other than a single character) that stands for the key typing `c`
/// elsewhere stands on macOS for the `kVK_ANSI` key of `c`, and every other
/// name denotes the same key on both platforms.
pub proof fn symbol_key_platform_law(name: Seq<char>)
    requires
        name.len() != 1,
    ensures
        ghostty_key_spec(name, Platform::Linux) matches Some(Key::Unicode(c)) ==> (
        kvk_ansi_code(c) is Some && ghostty_key_spec(name, Platform::MacOs) == Some(
            Key::Other(kvk_ansi_code(c).unwrap()),
        )),
        !(ghostty_key_spec(name, Platform::Linux) matches Some(Key::Unicode(_))) ==> ghostty_key_spec(
            name,
            Platform::MacOs,
        ) == ghostty_key_spec(name, Platform::Linux),
{
}

/// On macOS, different names never give the same key code: each symbol key
/// name has a key of its own.
pub proof fn macos_key_code_law(n1: Seq<char>, n2: Seq<char>, code: u32)
    requires
        ghostty_key_spec(n1, Platform::MacOs) == Some(Key::Other(code)),
        ghostty_key_spec(n2, Platform::MacOs) == Some(Key::Other(code)),
    ensures
        n1 == n2,
{
}

/// Names that Ghostty documents as two spellings of one key.
pub open spec fn key_name_aliases(n1: Seq<char>, n2: Seq<char>) -> bool {
    ||| (n1 == "ctrl"@ && n2 == "control"@) || (n1 == "control"@ && n2 == "ctrl"@)
    ||| (n1 == "return"@ && n2 == "enter"@) || (n1 == "enter"@ && n2 == "return"@)
    ||| (n1 == "escape"@ && n2 == "esc"@) || (n1 == "esc"@ && n2 == "escape"@)
}

/// Key names are read unambiguously: two names that denote the same key
/// (other than a key typing a character) are the same name or documented
/// aliases of each other.
pub proof fn key_name_law(n1: Seq<char>, n2: Seq<char>, platform: Platform, k: Key)
    requires
        ghostty_key_spec(n1, platform) == Some(k),
        ghostty_key_spec(n2, platform) == Some(k),
        !(k is Unicode),
    ensures
        n1 == n2 || key_name_aliases(n1, n2),
{
}

/// The modifiers and key of a successful trigger, piece by piece.
proof fn lemma_modifiers_values(parts: Seq<Seq<char>>, mods: Seq<Key>)
    requires
        modifiers_spec(parts) == Ok::<Seq<Key>, Seq<char>>(mods),
    ensures
        mods.len() == parts.len(),
        forall|i: int| 0 <= i < parts.len() ==> Some(mods[i]) == #[trigger] modifier_key_spec(parts[i]),
    decreases parts.len(),
{
    if parts.len() > 0 {
        if let Ok(m) = modifiers_spec(parts.drop_last()) {
            lemma_modifiers_values(parts.drop_last(), m);
            assert forall|i: int| 0 <= i < parts.len() implies Some(mods[i])
                == #[trigger] modifier_key_spec(parts[i]) by {
                if i < parts.len() - 1 {
                    assert(parts.drop_last()[i] == parts[i]);
                }
            }
        }
    }
}

/// A trigger `m_1+...+m_k+key` reads as the modifiers `m_1, ..., m_k` in the
/// order written, followed by the key of the last part; every part before the
/// last must be a modifier.
pub proof fn key_combo_law(trigger: Seq<char>, platform: Platform)
    ensures
        key_combo_spec(trigger, platform) matches Ok((mods, key)) ==> {
            let parts = split_on(trigger, '+');
            &&& mods.len() == parts.len() - 1
            &&& forall|i: int|
                0 <= i < mods.len() ==> Some(mods[i]) == #[trigger] modifier_key_spec(parts[i])
            &&& Some(key) == ghostty_key_spec(parts[parts.len() - 1], platform)
        },
{
    if let Ok((mods, key)) = key_combo_spec(trigger, platform) {
        let parts = split_on(trigger, '+');
        crate::text::lemma_split_on_nonempty(trigger, '+');
        lemma_modifiers_values(parts.drop_last(), mods);
        assert forall|i: int| 0 <= i < mods.len() implies Some(mods[i])
            == #[trigger] modifier_key_spec(parts[i]) by {
            assert(parts.drop_last()[i] == parts[i]);
        }
    }
}

} // verus!
