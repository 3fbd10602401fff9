//! Reading the splitting keybindings out of a Ghostty config file.
//!
//! A line `keybind = TRIGGER=ACTION` binds `TRIGGER` to `ACTION`; white space
//! around each part is ignored, and so are empty lines, `#` comments and every
//! other line. When an action is bound more than once, the last binding wins.

use vstd::prelude::*;

use crate::keybind::{key_combo_spec, parse_key_combo, ComboView, KeyCombo, Platform};
use crate::text::{
    find_char_in, lemma_split_on_append, split_on, split_once, split_ranges, trim, trim_range,
};

verus! {

/// Parsed keybindings required for pane splitting operations.
#[derive(Debug, PartialEq)]
pub struct Keybindings {
    /// Key combo for splitting a pane to the right.
    pub split_right: KeyCombo,
    /// Key combo for splitting a pane downward.
    pub split_down: KeyCombo,
    /// Key combo for navigating to the next pane.
    pub goto_next: KeyCombo,
    /// Key combo for navigating to the previous pane.
    pub goto_previous: KeyCombo,
    /// Key combo for equalizing pane sizes.
    pub equalize: KeyCombo,
}

impl View for Keybindings {
    type V = Seq<ComboView>;

    /// The combos in the order of `action_name`.
    open spec fn view(&self) -> Seq<ComboView> {
        seq![self.split_right@, self.split_down@, self.goto_next@, self.goto_previous@, self.equalize@]
    }
}

/// The number of Ghostty actions the splitter needs.
pub const NUM_ACTIONS: usize = 5;

/// The Ghostty actions the splitter needs, in the order it reports them.
pub open spec fn action_name(i: int) -> Seq<char> {
    if i == 0 {
        "new_split:right"@
    } else if i == 1 {
        "new_split:down"@
    } else if i == 2 {
        "goto_split:next"@
    } else if i == 3 {
        "goto_split:previous"@
    } else {
        "equalize_splits"@
    }
}

/// The position of `action` among the required actions, if it is one.
pub open spec fn action_index(action: Seq<char>) -> Option<int> {
    if action == action_name(0) {
        Some(0)
    } else if action == action_name(1) {
        Some(1)
    } else if action == action_name(2) {
        Some(2)
    } else if action == action_name(3) {
        Some(3)
    } else if action == action_name(4) {
        Some(4)
    } else {
        None
    }
}

/// The required action a config line binds, with its trigger, if it binds one.
pub open spec fn line_binding(line: Seq<char>) -> Option<(int, Seq<char>)> {
    let t = trim(line);
    if t.len() == 0 || t[0] == '#' || !"keybind"@.is_prefix_of(t) {
        None
    } else {
        let rest = trim(t.skip("keybind"@.len() as int));
        if rest.len() == 0 || rest[0] != '=' {
            None
        } else {
            match split_once(trim(rest.skip(1)), '=') {
                None => None,
                Some((trigger, action)) => match action_index(trim(action)) {
                    Some(i) => Some((i, trim(trigger))),
                    None => None,
                },
            }
        }
    }
}

/// No required action bound yet.
pub open spec fn no_bindings() -> Seq<Option<Seq<char>>> {
    Seq::new(NUM_ACTIONS as nat, |_i: int| None)
}

/// The trigger bound to each required action after reading `lines` in order.
pub open spec fn bindings_after(lines: Seq<Seq<char>>) -> Seq<Option<Seq<char>>>
    decreases lines.len(),
{
    if lines.len() == 0 {
        no_bindings()
    } else {
        let b = bindings_after(lines.drop_last());
        match line_binding(lines.last()) {
            Some((i, trigger)) => b.update(i, Some(trigger)),
            None => b,
        }
    }
}

/// The trigger bound to each required action in a config.
pub open spec fn config_bindings(content: Seq<char>) -> Seq<Option<Seq<char>>> {
    bindings_after(split_on(content, '\n'))
}

/// The names of the first `k` required actions that `b` leaves unbound, in order.
pub open spec fn missing_actions(b: Seq<Option<Seq<char>>>, k: nat) -> Seq<Seq<char>>
    decreases k,
{
    if k == 0 {
        Seq::empty()
    } else {
        let m = missing_actions(b, (k - 1) as nat);
        if b[k - 1] is None {
            m.push(action_name(k - 1))
        } else {
            m
        }
    }
}

/// One line `  - NAME` per name, joined by newlines.
pub open spec fn missing_list(names: Seq<Seq<char>>) -> Seq<char>
    decreases names.len(),
{
    if names.len() == 0 {
        Seq::empty()
    } else if names.len() == 1 {
        "  - "@ + names[0]
    } else {
        missing_list(names.drop_last()) + seq!['\n'] + "  - "@ + names.last()
    }
}

/// The example bindings shown when some are missing.
pub open spec fn missing_example() -> Seq<char> {
    "\n\nAdd them to your Ghostty config. Example:\n  keybind = super+d=new_split:right\n  keybind = super+shift+d=new_split:down\n  keybind = super+ctrl+right_bracket=goto_split:next\n  keybind = super+ctrl+left_bracket=goto_split:previous\n  keybind = super+ctrl+shift+equal=equalize_splits"@
}

/// Error: some required actions are unbound.
pub open spec fn missing_msg(names: Seq<Seq<char>>) -> Seq<char> {
    "Missing keybindings for the following actions:\n"@ + missing_list(names) + missing_example()
}

/// The combos of the first `k` bound triggers in order; the first trigger
/// that fails decides the error.
pub open spec fn combos_of(b: Seq<Option<Seq<char>>>, k: nat, platform: Platform) -> Result<
    Seq<ComboView>,
    Seq<char>,
>
    decreases k,
{
    if k == 0 {
        Ok(Seq::empty())
    } else {
        match combos_of(b, (k - 1) as nat, platform) {
            Err(e) => Err(e),
            Ok(cs) => match key_combo_spec(b[k - 1].unwrap(), platform) {
                Ok(c) => Ok(cs.push(c)),
                Err(e) => Err(e),
            },
        }
    }
}

/// The keybindings a config yields, or the error it is answered with.
pub open spec fn keybindings_spec(content: Seq<char>, platform: Platform) -> Result<
    Seq<ComboView>,
    Seq<char>,
> {
    let b = config_bindings(content);
    let missing = missing_actions(b, NUM_ACTIONS as nat);
    if missing.len() > 0 {
        Err(missing_msg(missing))
    } else {
        combos_of(b, NUM_ACTIONS as nat, platform)
    }
}

/// The executable name of a required action.
pub fn action_name_str(i: usize) -> (s: &'static str)
    requires
        i < NUM_ACTIONS,
    ensures
        s@ == action_name(i as int),
{
    if i == 0 {
        "new_split:right"
    } else if i == 1 {
        "new_split:down"
    } else if i == 2 {
        "goto_split:next"
    } else if i == 3 {
        "goto_split:previous"
    } else {
        "equalize_splits"
    }
}

/// Whether the range `lo..hi` of `chars` spells `lit`.
fn range_eq_str(chars: &Vec<char>, lo: usize, hi: usize, lit: &str) -> (r: bool)
    requires
        lo <= hi <= chars@.len(),
    ensures
        r == (chars@.subrange(lo as int, hi as int) == lit@),
{
    let n = lit.unicode_len();
    if hi - lo != n {
        return false;
    }
    let mut j: usize = 0;
    while j < n
        invariant
            lo <= hi <= chars@.len(),
            hi - lo == n == lit@.len(),
            j <= n,
            forall|i: int| 0 <= i < j ==> chars@[lo + i] == lit@[i],
        decreases n - j,
    {
        if chars[lo + j] != lit.get_char(j) {
            assert(chars@.subrange(lo as int, hi as int)[j as int] != lit@[j as int]);
            return false;
        }
        j = j + 1;
    }
    assert(chars@.subrange(lo as int, hi as int) =~= lit@);
    true
}

/// The required action that the range `lo..hi` of `chars` names, if any.
fn action_index_in(chars: &Vec<char>, lo: usize, hi: usize) -> (r: Option<usize>)
    requires
        lo <= hi <= chars@.len(),
    ensures
        match r {
            Some(i) => i < NUM_ACTIONS && action_index(chars@.subrange(lo as int, hi as int))
                == Some(i as int),
            None => action_index(chars@.subrange(lo as int, hi as int)) is None,
        },
{
    let mut i: usize = 0;
    while i < NUM_ACTIONS
        invariant
            lo <= hi <= chars@.len(),
            i <= NUM_ACTIONS,
            forall|j: int| 0 <= j < i ==> chars@.subrange(lo as int, hi as int) != action_name(j),
        decreases NUM_ACTIONS - i,
    {
        if range_eq_str(chars, lo, hi, action_name_str(i)) {
            return Some(i);
        }
        i = i + 1;
    }
    None
}

/// The action index and trigger range that the line `lo..hi` of `chars` binds.
fn line_binding_in(chars: &Vec<char>, lo: usize, hi: usize) -> (r: Option<(usize, usize, usize)>)
    requires
        lo <= hi <= chars@.len(),
    ensures
        match r {
            Some((i, a, b)) => lo <= a <= b <= hi && i < NUM_ACTIONS && line_binding(
                chars@.subrange(lo as int, hi as int),
            ) == Some((i as int, chars@.subrange(a as int, b as int))),
            None => line_binding(chars@.subrange(lo as int, hi as int)) is None,
        },
{
    let ghost line = chars@.subrange(lo as int, hi as int);
    let (a, b) = trim_range(chars, lo, hi);
    let ghost t = chars@.subrange(a as int, b as int);
    if a == b || chars[a] == '#' {
        return None;
    }
    let kw = "keybind";
    let kl = kw.unicode_len();
    if b - a < kl || !range_eq_str(chars, a, a + kl, kw) {
        proof {
            if "keybind"@.is_prefix_of(t) {
                assert(t.take(kl as int) =~= chars@.subrange(a as int, a + kl));
            }
        }
        return None;
    }
    assert("keybind"@.is_prefix_of(t)) by {
        assert(t.take(kl as int) =~= chars@.subrange(a as int, a + kl));
    }
    assert(t.skip(kl as int) =~= chars@.subrange(a + kl, b as int));
    let (c, d) = trim_range(chars, a + kl, b);
    let ghost rest = chars@.subrange(c as int, d as int);
    if c == d || chars[c] != '=' {
        return None;
    }
    assert(rest.skip(1) =~= chars@.subrange(c + 1, d as int));
    let (e, f) = trim_range(chars, c + 1, d);
    let ghost r2 = chars@.subrange(e as int, f as int);
    let pos = match find_char_in(chars, e, f, '=') {
        Some(p) => p,
        None => {
            return None;
        },
    };
    assert(r2.take(pos - e) =~= chars@.subrange(e as int, pos as int));
    assert(r2.skip(pos - e + 1) =~= chars@.subrange(pos + 1, f as int));
    let (g, h) = trim_range(chars, e, pos);
    let (p, q) = trim_range(chars, pos + 1, f);
    match action_index_in(chars, p, q) {
        Some(i) => Some((i, g, h)),
        None => None,
    }
}

/// The trigger ranges bound so far, as plain text.
pub open spec fn ranges_text(chars: Seq<char>, b: Seq<Option<(usize, usize)>>) -> Seq<
    Option<Seq<char>>,
> {
    b.map_values(
        |o: Option<(usize, usize)>|
            match o {
                Some(r) => Some(chars.subrange(r.0 as int, r.1 as int)),
                None => None,
            },
    )
}

/// Once a trigger fails, reading more triggers keeps that error.
proof fn lemma_combos_of_err(
    b: Seq<Option<Seq<char>>>,
    k: nat,
    n: nat,
    platform: Platform,
    e: Seq<char>,
)
    requires
        k <= n,
        combos_of(b, k, platform) == Err::<Seq<ComboView>, Seq<char>>(e),
    ensures
        combos_of(b, n, platform) == Err::<Seq<ComboView>, Seq<char>>(e),
    decreases n - k,
{
    if k < n {
        lemma_combos_of_err(b, k, (n - 1) as nat, platform, e);
    }
}

/// Parses Ghostty config content and extracts the required keybindings.
pub fn parse_keybindings(content: &str, platform: Platform) -> (r: Result<Keybindings, String>)
    ensures
        match r {
            Ok(kb) => keybindings_spec(content@, platform) == Ok::<Seq<ComboView>, Seq<char>>(
                kb@,
            ),
            Err(e) => keybindings_spec(content@, platform) == Err::<Seq<ComboView>, Seq<char>>(
                e@,
            ),
        },
{
    let chars = crate::text::chars_of(content);
    let n = chars.len();
    let lines = split_ranges(&chars, 0, n, '\n');
    let ghost pieces = split_on(chars@.subrange(0, n as int), '\n');
    assert(chars@.subrange(0, n as int) =~= content@);
    let mut bindings: Vec<Option<(usize, usize)>> = Vec::new();
    let mut i: usize = 0;
    while i < NUM_ACTIONS
        invariant
            i <= NUM_ACTIONS,
            bindings@.len() == i,
            forall|j: int| 0 <= j < i ==> bindings@[j] is None,
        decreases NUM_ACTIONS - i,
    {
        bindings.push(None);
        i = i + 1;
    }
    assert(ranges_text(chars@, bindings@) =~= no_bindings());
    let mut k: usize = 0;
    while k < lines.len()
        invariant
            pieces == split_on(content@, '\n'),
            chars@ == content@,
            n == chars@.len(),
            lines@.len() == pieces.len(),
            forall|j: int|
                0 <= j < lines@.len() ==> 0 <= (#[trigger] lines@[j]).0 <= lines@[j].1 <= n
                    && chars@.subrange(lines@[j].0 as int, lines@[j].1 as int) == pieces[j],
            k <= lines@.len(),
            bindings@.len() == NUM_ACTIONS,
            forall|j: int|
                0 <= j < NUM_ACTIONS ==> (#[trigger] bindings@[j] matches Some(r) ==> r.0 <= r.1
                    <= n),
            ranges_text(chars@, bindings@) == bindings_after(pieces.take(k as int)),
        decreases lines@.len() - k,
    {
        let (a, b) = lines[k];
        proof {
            assert(pieces.take(k + 1).drop_last() =~= pieces.take(k as int));
            assert(pieces.take(k + 1).last() == pieces[k as int]);
        }
        match line_binding_in(&chars, a, b) {
            Some((act, g, h)) => {
                bindings.set(act, Some((g, h)));
                assert(ranges_text(chars@, bindings@) =~= bindings_after(
                    pieces.take(k as int),
                ).update(act as int, Some(chars@.subrange(g as int, h as int))));
            },
            None => {},
        }
        k = k + 1;
    }
    assert(pieces.take(k as int) =~= pieces);
    let ghost bound = config_bindings(content@);
    assert(bound == ranges_text(chars@, bindings@));
    // The missing actions, listed one per line
    let mut list = String::new();
    let mut any_missing = false;
    let ghost mut missing: Seq<Seq<char>> = Seq::empty();
    let mut j: usize = 0;
    while j < NUM_ACTIONS
        invariant
            j <= NUM_ACTIONS,
            bindings@.len() == NUM_ACTIONS,
            bound == ranges_text(chars@, bindings@),
            missing == missing_actions(bound, j as nat),
            any_missing == (missing.len() > 0),
            list@ == missing_list(missing),
        decreases NUM_ACTIONS - j,
    {
        if bindings[j].is_none() {
            assert(bound[j as int] is None);
            if any_missing {
                list.append("\n");
            }
            list.append("  - ");
            list.append(action_name_str(j));
            proof {
                let old_missing = missing;
                missing = missing.push(action_name(j as int));
                assert(missing.drop_last() =~= old_missing);
                reveal_strlit("\n");
                if old_missing.len() > 0 {
                    assert("\n"@ =~= seq!['\n']);
                } else {
                    assert(Seq::<char>::empty() + "  - "@ + action_name(j as int) =~= "  - "@
                        + action_name(j as int));
                }
            }
            any_missing = true;
        } else {
            assert(bound[j as int] is Some);
        }
        j = j + 1;
    }
    if any_missing {
        let mut msg = String::from_str("Missing keybindings for the following actions:\n");
        msg.append(list.as_str());
        msg.append(
            "\n\nAdd them to your Ghostty config. Example:\n  keybind = super+d=new_split:right\n  keybind = super+shift+d=new_split:down\n  keybind = super+ctrl+right_bracket=goto_split:next\n  keybind = super+ctrl+left_bracket=goto_split:previous\n  keybind = super+ctrl+shift+equal=equalize_splits",
        );
        return Err(msg);
    }
    assert(forall|x: int| 0 <= x < NUM_ACTIONS ==> #[trigger] bound[x] is Some) by {
        assert forall|x: int| 0 <= x < NUM_ACTIONS implies #[trigger] bound[x] is Some by {
            lemma_missing_actions_complete(bound, NUM_ACTIONS as nat, x);
        }
    }
    assert forall|x: int| 0 <= x < NUM_ACTIONS implies (#[trigger] bindings@[x]) is Some && bound[x]
        == Some(content@.subrange(bindings@[x].unwrap().0 as int, bindings@[x].unwrap().1 as int)) by {
        assert(bound[x] == ranges_text(chars@, bindings@)[x]);
    }
    assert(combos_of(bound, 0, platform) == Ok::<Seq<ComboView>, Seq<char>>(Seq::empty()));
    let t0 = bound_trigger(content, &bindings, 0);
    assert(t0@ == bound[0].unwrap());
    let split_right = match parse_key_combo(t0, platform) {
        Ok(c) => c,
        Err(e) => {
            proof {
                lemma_combos_of_err(bound, 1, NUM_ACTIONS as nat, platform, e@);
            }
            return Err(e);
        },
    };
    assert(combos_of(bound, 1, platform) == Ok::<Seq<ComboView>, Seq<char>>(seq![split_right@]));
    let t1 = bound_trigger(content, &bindings, 1);
    assert(t1@ == bound[1].unwrap());
    let split_down = match parse_key_combo(t1, platform) {
        Ok(c) => c,
        Err(e) => {
            proof {
                lemma_combos_of_err(bound, 2, NUM_ACTIONS as nat, platform, e@);
            }
            return Err(e);
        },
    };
    assert(combos_of(bound, 2, platform) == Ok::<Seq<ComboView>, Seq<char>>(
        seq![split_right@].push(split_down@),
    ));
    let t2 = bound_trigger(content, &bindings, 2);
    assert(t2@ == bound[2].unwrap());
    let goto_next = match parse_key_combo(t2, platform) {
        Ok(c) => c,
        Err(e) => {
            proof {
                lemma_combos_of_err(bound, 3, NUM_ACTIONS as nat, platform, e@);
            }
            return Err(e);
        },
    };
    assert(combos_of(bound, 3, platform) == Ok::<Seq<ComboView>, Seq<char>>(
        seq![split_right@].push(split_down@).push(goto_next@),
    ));
    let t3 = bound_trigger(content, &bindings, 3);
    assert(t3@ == bound[3].unwrap());
    let goto_previous = match parse_key_combo(t3, platform) {
        Ok(c) => c,
        Err(e) => {
            proof {
                lemma_combos_of_err(bound, 4, NUM_ACTIONS as nat, platform, e@);
            }
            return Err(e);
        },
    };
    assert(combos_of(bound, 4, platform) == Ok::<Seq<ComboView>, Seq<char>>(
        seq![split_right@].push(split_down@).push(goto_next@).push(goto_previous@),
    ));
    let t4 = bound_trigger(content, &bindings, 4);
    assert(t4@ == bound[4].unwrap());
    let equalize = match parse_key_combo(t4, platform) {
        Ok(c) => c,
        Err(e) => {
            return Err(e);
        },
    };
    let kb = Keybindings { split_right, split_down, goto_next, goto_previous, equalize };
    assert(combos_of(bound, 5, platform) == Ok::<Seq<ComboView>, Seq<char>>(
        seq![split_right@].push(split_down@).push(goto_next@).push(goto_previous@).push(
            equalize@,
        ),
    ));
    assert(kb@ =~= seq![split_right@].push(split_down@).push(goto_next@).push(goto_previous@).push(
        equalize@,
    ));
    Ok(kb)
}

/// With nothing missing among the first `k` actions, each of them is bound.
proof fn lemma_missing_actions_complete(b: Seq<Option<Seq<char>>>, k: nat, x: int)
    requires
        missing_actions(b, k).len() == 0,
        0 <= x < k,
    ensures
        b[x] is Some,
    decreases k,
{
    if x < k - 1 {
        lemma_missing_actions_complete(b, (k - 1) as nat, x);
    }
}

/// The trigger text bound to required action `i`.
fn bound_trigger<'a>(content: &'a str, bindings: &Vec<Option<(usize, usize)>>, i: usize) -> (t: &'a str)
    requires
        i < bindings@.len(),
        bindings@[i as int] is Some,
        bindings@[i as int].unwrap().0 <= bindings@[i as int].unwrap().1 <= content@.len(),
    ensures
        t@ == content@.subrange(bindings@[i as int].unwrap().0 as int, bindings@[i as int].unwrap().1 as int),
{
    match bindings[i] {
        Some((a, b)) => content.substring_char(a, b),
        None => content,
    }
}

/// Reading one more line after `content` adds that line to the bindings read so far.
proof fn lemma_config_bindings_append(content: Seq<char>, line: Seq<char>)
    requires
        !line.contains('\n'),
    ensures
        config_bindings(content + seq!['\n'] + line) == match line_binding(line) {
            Some((i, trigger)) => config_bindings(content).update(i, Some(trigger)),
            None => config_bindings(content),
        },
{
    lemma_split_on_append(content, line, '\n');
    let lines = split_on(content, '\n').push(line);
    assert(lines.drop_last() =~= split_on(content, '\n'));
}

/// The last binding wins: a line binding a required action to a trigger, read
/// after any config, leaves that action bound to that trigger and the others
/// as they were.
pub proof fn last_binding_wins_law(content: Seq<char>, line: Seq<char>, i: int, trigger: Seq<char>)
    requires
        !line.contains('\n'),
        line_binding(line) == Some((i, trigger)),
    ensures
        config_bindings(content + seq!['\n'] + line) == config_bindings(content).update(
            i,
            Some(trigger),
        ),
        config_bindings(content + seq!['\n'] + line)[i] == Some(trigger),
{
    lemma_config_bindings_append(content, line);
    lemma_line_binding_index(line);
    lemma_bindings_len(split_on(content, '\n'));
}

/// Lines that bind no required action change nothing: the config with such a
/// line appended gives the same keybindings, or the same error.
pub proof fn ignored_line_law(content: Seq<char>, line: Seq<char>, platform: Platform)
    requires
        !line.contains('\n'),
        line_binding(line) is None,
    ensures
        keybindings_spec(content + seq!['\n'] + line, platform) == keybindings_spec(
            content,
            platform,
        ),
{
    lemma_config_bindings_append(content, line);
}

/// Empty lines and comments bind nothing.
pub proof fn comment_line_law(line: Seq<char>)
    requires
        trim(line).len() == 0 || trim(line)[0] == '#',
    ensures
        line_binding(line) is None,
{
}

/// A line binds one of the required actions.
proof fn lemma_line_binding_index(line: Seq<char>)
    ensures
        line_binding(line) matches Some((i, _t)) ==> 0 <= i < NUM_ACTIONS,
{
}

/// There is one binding slot per required action.
proof fn lemma_bindings_len(lines: Seq<Seq<char>>)
    ensures
        bindings_after(lines).len() == NUM_ACTIONS,
    decreases lines.len(),
{
    if lines.len() > 0 {
        lemma_bindings_len(lines.drop_last());
        lemma_line_binding_index(lines.last());
    }
}

/// The five required action names are pairwise different.
proof fn lemma_action_names_distinct()
    ensures
        forall|i: int, j: int|
            0 <= i < NUM_ACTIONS && 0 <= j < NUM_ACTIONS && i != j ==> action_name(i)
                != action_name(j),
{
    reveal_strlit("new_split:right");
    reveal_strlit("new_split:down");
    reveal_strlit("goto_split:next");
    reveal_strlit("goto_split:previous");
    reveal_strlit("equalize_splits");
    let a = action_name(0);
    let b = action_name(1);
    let c = action_name(2);
    let d = action_name(3);
    let e = action_name(4);
    assert(a.len() != b.len());
    assert(a[0] != c[0]);
    assert(a.len() != d.len());
    assert(a[0] != e[0]);
    assert(b.len() != c.len());
    assert(b.len() != d.len());
    assert(b.len() != e.len());
    assert(c.len() != d.len());
    assert(c[0] != e[0]);
    assert(d.len() != e.len());
}

/// Only the five required actions are recognised, each under its own name
/// exactly: an action text names required action `i` if and only if it is
/// `action_name(i)`. Any other text, such as `goto_split:right`, names none.
pub proof fn action_index_law(action: Seq<char>, i: int)
    ensures
        action_index(action) == Some(i) <==> (0 <= i < NUM_ACTIONS && action == action_name(i)),
        action_index(action) is None <==> forall|j: int|
            0 <= j < NUM_ACTIONS ==> action != #[trigger] action_name(j),
{
    lemma_action_names_distinct();
}

/// When the keybindings parse, every required action is bound and its combo
/// is the one its trigger gives.
pub proof fn lemma_keybindings_ok(content: Seq<char>, platform: Platform, kbs: Seq<ComboView>, i: int)
    requires
        keybindings_spec(content, platform) == Ok::<Seq<ComboView>, Seq<char>>(kbs),
        0 <= i < NUM_ACTIONS,
    ensures
        config_bindings(content)[i] is Some,
        key_combo_spec(config_bindings(content)[i].unwrap(), platform) == Ok::<
            ComboView,
            Seq<char>,
        >(kbs[i]),
{
    let b = config_bindings(content);
    assert(missing_actions(b, NUM_ACTIONS as nat).len() == 0);
    lemma_missing_actions_complete(b, NUM_ACTIONS as nat, i);
    lemma_combos_of_ok(b, NUM_ACTIONS as nat, platform, kbs, i);
}

/// A successful reading of the first `k` triggers holds, at each position,
/// the combo of that position's trigger.
proof fn lemma_combos_of_ok(
    b: Seq<Option<Seq<char>>>,
    k: nat,
    platform: Platform,
    cs: Seq<ComboView>,
    i: int,
)
    requires
        combos_of(b, k, platform) == Ok::<Seq<ComboView>, Seq<char>>(cs),
        0 <= i < k,
    ensures
        cs.len() == k,
        key_combo_spec(b[i].unwrap(), platform) == Ok::<ComboView, Seq<char>>(cs[i]),
    decreases k,
{
    let prev = combos_of(b, (k - 1) as nat, platform);
    if let Ok(p) = prev {
        if let Ok(last) = key_combo_spec(b[k - 1].unwrap(), platform) {
            assert(cs == p.push(last));
            if k == 1 {
                assert(p.len() == 0);
            } else {
                lemma_combos_of_ok(b, (k - 1) as nat, platform, p, 0);
                if i < k - 1 {
                    lemma_combos_of_ok(b, (k - 1) as nat, platform, p, i);
                }
            }
        }
    }
}

} // verus!
