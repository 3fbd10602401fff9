//! The keystrokes that split a Ghostty window into a layout.
//!
//! Splitting is a fixed plan of steps: create the columns, go back to the
//! first one, split each column into its rows, equalize the pane sizes and
//! return to the top-left pane. Each step sends one keybinding and then waits
//! for Ghostty to catch up. Sending the keys is left to the caller.

use vstd::prelude::*;

use crate::config::Keybindings;
use crate::keybind::{ComboView, Key, KeyCombo};
use crate::layout::{sum_of, Layout};

verus! {

/// Delay in milliseconds between split operations to allow Ghostty to create new panes.
pub const SPLIT_DELAY_MS: u64 = 200;

/// Delay in milliseconds between navigation operations (focus move only).
pub const NAV_DELAY_MS: u64 = 50;

/// Delay in milliseconds for rapid consecutive focus moves (Phase 5).
pub const FAST_NAV_DELAY_MS: u64 = 20;

/// The pane operation a step performs.
#[derive(Clone, Copy, Debug, PartialEq, Eq, Structural)]
pub enum SplitAction {
    /// Split the focused pane to the right.
    SplitRight,
    /// Split the focused pane downward.
    SplitDown,
    /// Move the focus to the next pane.
    GotoNext,
    /// Move the focus to the previous pane.
    GotoPrevious,
    /// Equalize the pane sizes.
    Equalize,
}

/// One step of a plan: send the action's keybinding, then wait `delay_ms`.
#[derive(Clone, Copy, Debug, PartialEq, Eq, Structural)]
pub struct SplitStep {
    pub action: SplitAction,
    pub delay_ms: u64,
}

/// The way a key event moves a key.
#[derive(Clone, Copy, Debug, PartialEq, Eq, Structural)]
pub enum KeyDirection {
    Press,
    Click,
    Release,
}

/// One key event.
#[derive(Clone, Copy, Debug, PartialEq, Eq, Structural)]
pub struct KeyEvent {
    pub key: Key,
    pub direction: KeyDirection,
}

/// A step as a value.
pub open spec fn step(action: SplitAction, delay_ms: u64) -> SplitStep {
    SplitStep { action, delay_ms }
}

/// `k` copies of step `s`.
pub open spec fn repeat_step(s: SplitStep, k: nat) -> Seq<SplitStep> {
    Seq::new(k, |_i: int| s)
}

/// A layout the plan can be made for: at least one column, every column with
/// at least one row, and at most `u32::MAX` panes.
pub open spec fn plannable(cols: Seq<u32>) -> bool {
    &&& cols.len() >= 1
    &&& forall|i: int| 0 <= i < cols.len() ==> #[trigger] cols[i] >= 1
    &&& sum_of(cols) <= u32::MAX
}

/// Phase 3 for column `col`: split it into its rows, then move on to the
/// next column unless it is the last one.
pub open spec fn column_steps(cols: Seq<u32>, col: int) -> Seq<SplitStep> {
    repeat_step(step(SplitAction::SplitDown, SPLIT_DELAY_MS), (cols[col] - 1) as nat) + if col
        < cols.len() - 1 {
        seq![step(SplitAction::GotoNext, NAV_DELAY_MS)]
    } else {
        Seq::empty()
    }
}

/// Phase 3 for the first `k` columns.
pub open spec fn rows_phase(cols: Seq<u32>, k: nat) -> Seq<SplitStep>
    decreases k,
{
    if k == 0 {
        Seq::empty()
    } else {
        rows_phase(cols, (k - 1) as nat) + column_steps(cols, k - 1)
    }
}

/// The whole plan for a layout.
pub open spec fn plan_spec(cols: Seq<u32>) -> Seq<SplitStep> {
    let c = (cols.len() - 1) as nat;
    // Phase 1: create columns; Phase 2: back to the first column
    repeat_step(step(SplitAction::SplitRight, SPLIT_DELAY_MS), c) + repeat_step(
        step(SplitAction::GotoPrevious, NAV_DELAY_MS),
        c,
    )
    // Phase 3: rows in each column
     + rows_phase(cols, cols.len())
    // Phase 4: equalize
     + seq![step(SplitAction::Equalize, SPLIT_DELAY_MS)]
    // Phase 5: back to the top-left pane
     + repeat_step(step(SplitAction::GotoPrevious, FAST_NAV_DELAY_MS), (sum_of(cols) - 1) as nat)
}

/// The events that send a combo: press the modifiers in order, click the key,
/// release the modifiers in reverse order.
pub open spec fn combo_events_spec(combo: ComboView) -> Seq<KeyEvent> {
    combo.0.map_values(|k: Key| KeyEvent { key: k, direction: KeyDirection::Press }) + seq![
        KeyEvent { key: combo.1, direction: KeyDirection::Click },
    ] + combo.0.reverse().map_values(|k: Key| KeyEvent { key: k, direction: KeyDirection::Release })
}

/// The position of an action's combo in `Keybindings@`.
pub open spec fn action_slot(action: SplitAction) -> int {
    match action {
        SplitAction::SplitRight => 0,
        SplitAction::SplitDown => 1,
        SplitAction::GotoNext => 2,
        SplitAction::GotoPrevious => 3,
        SplitAction::Equalize => 4,
    }
}

/// The name an action is reported under when sending it fails.
pub open spec fn action_label(action: SplitAction) -> Seq<char> {
    match action {
        SplitAction::SplitRight => "split_right"@,
        SplitAction::SplitDown => "split_down"@,
        SplitAction::GotoNext => "goto_next"@,
        SplitAction::GotoPrevious => "goto_previous"@,
        SplitAction::Equalize => "equalize"@,
    }
}

/// How many steps of `s` perform `a`.
pub open spec fn count_action(s: Seq<SplitStep>, a: SplitAction) -> nat
    decreases s.len(),
{
    if s.len() == 0 {
        0
    } else {
        count_action(s.drop_last(), a) + if s.last().action == a {
            1nat
        } else {
            0nat
        }
    }
}

impl SplitAction {
    /// The name this action is reported under when sending it fails.
    pub fn name(&self) -> (s: &'static str)
        ensures
            s@ == action_label(*self),
    {
        match self {
            SplitAction::SplitRight => "split_right",
            SplitAction::SplitDown => "split_down",
            SplitAction::GotoNext => "goto_next",
            SplitAction::GotoPrevious => "goto_previous",
            SplitAction::Equalize => "equalize",
        }
    }
}

impl Keybindings {
    /// The key combo bound to an action.
    pub fn combo_for(&self, action: SplitAction) -> (c: &KeyCombo)
        ensures
            c@ == self@[action_slot(action)],
            action == SplitAction::SplitRight ==> c@ == self.split_right@,
            action == SplitAction::SplitDown ==> c@ == self.split_down@,
            action == SplitAction::GotoNext ==> c@ == self.goto_next@,
            action == SplitAction::GotoPrevious ==> c@ == self.goto_previous@,
            action == SplitAction::Equalize ==> c@ == self.equalize@,
    {
        match action {
            SplitAction::SplitRight => &self.split_right,
            SplitAction::SplitDown => &self.split_down,
            SplitAction::GotoNext => &self.goto_next,
            SplitAction::GotoPrevious => &self.goto_previous,
            SplitAction::Equalize => &self.equalize,
        }
    }
}

/// The key events that send a key combination by pressing modifiers,
/// clicking the key, and releasing.
pub fn combo_events(combo: &KeyCombo) -> (v: Vec<KeyEvent>)
    ensures
        v@ == combo_events_spec(combo@),
{
    let n = combo.modifiers.len();
    let mut v: Vec<KeyEvent> = Vec::new();
    let ghost mods = combo.modifiers@;
    let mut i: usize = 0;
    while i < n
        invariant
            n == mods.len(),
            mods == combo.modifiers@,
            i <= n,
            v@ == mods.take(i as int).map_values(
                |k: Key| KeyEvent { key: k, direction: KeyDirection::Press },
            ),
        decreases n - i,
    {
        v.push(KeyEvent { key: combo.modifiers[i], direction: KeyDirection::Press });
        assert(mods.take(i + 1) =~= mods.take(i as int).push(mods[i as int]));
        i = i + 1;
    }
    assert(mods.take(n as int) =~= mods);
    v.push(KeyEvent { key: combo.key, direction: KeyDirection::Click });
    let ghost head = v@;
    let mut j: usize = n;
    while j > 0
        invariant
            n == mods.len(),
            mods == combo.modifiers@,
            j <= n,
            v@ == head + mods.skip(j as int).reverse().map_values(
                |k: Key| KeyEvent { key: k, direction: KeyDirection::Release },
            ),
        decreases j,
    {
        j = j - 1;
        v.push(KeyEvent { key: combo.modifiers[j], direction: KeyDirection::Release });
        assert(mods.skip(j as int).reverse() =~= mods.skip(j + 1).reverse().push(mods[j as int]));
    }
    assert(mods.skip(0) =~= mods);
    v
}

/// Appends `k` copies of step `s` to `v`.
fn push_repeated(v: &mut Vec<SplitStep>, s: SplitStep, k: usize)
    ensures
        final(v)@ == old(v)@ + repeat_step(s, k as nat),
{
    let ghost start = v@;
    let mut i: usize = 0;
    while i < k
        invariant
            i <= k,
            v@ == start + repeat_step(s, i as nat),
        decreases k - i,
    {
        v.push(s);
        assert(start + repeat_step(s, (i + 1) as nat) =~= (start + repeat_step(s, i as nat)).push(
            s,
        ));
        i = i + 1;
    }
}

/// The steps that split a window into `layout`, in order.
pub fn plan_splits(layout: &Layout) -> (plan: Vec<SplitStep>)
    requires
        plannable(layout@),
    ensures
        plan@ == plan_spec(layout@),
{
    let cols = &layout.columns;
    let num_cols = layout.num_cols();
    let mut plan: Vec<SplitStep> = Vec::new();
    // Phase 1: Create columns (horizontal splits)
    push_repeated(
        &mut plan,
        SplitStep { action: SplitAction::SplitRight, delay_ms: SPLIT_DELAY_MS },
        num_cols - 1,
    );
    // Phase 2: Navigate back to first column
    push_repeated(
        &mut plan,
        SplitStep { action: SplitAction::GotoPrevious, delay_ms: NAV_DELAY_MS },
        num_cols - 1,
    );
    let ghost head = plan@;
    // Phase 3: Create rows in each column (vertical splits)
    let mut col: usize = 0;
    while col < num_cols
        invariant
            num_cols == cols@.len() == layout@.len(),
            cols@ == layout@,
            plannable(layout@),
            col <= num_cols,
            plan@ == head + rows_phase(layout@, col as nat),
        decreases num_cols - col,
    {
        let ghost before = plan@;
        assert(layout@[col as int] >= 1);
        push_repeated(
            &mut plan,
            SplitStep { action: SplitAction::SplitDown, delay_ms: SPLIT_DELAY_MS },
            (cols[col] - 1) as usize,
        );
        let ghost downs = repeat_step(
            step(SplitAction::SplitDown, SPLIT_DELAY_MS),
            (layout@[col as int] - 1) as nat,
        );
        assert(plan@ == before + downs);
        if col < num_cols - 1 {
            plan.push(SplitStep { action: SplitAction::GotoNext, delay_ms: NAV_DELAY_MS });
            assert(plan@ =~= before + (downs + seq![step(SplitAction::GotoNext, NAV_DELAY_MS)]));
        } else {
            assert(plan@ =~= before + (downs + Seq::<SplitStep>::empty()));
        }
        assert(plan@ =~= before + column_steps(layout@, col as int));
        assert(head + rows_phase(layout@, (col + 1) as nat) =~= head + rows_phase(
            layout@,
            col as nat,
        ) + column_steps(layout@, col as int));
        col = col + 1;
    }
    // Phase 4: Equalize pane sizes
    plan.push(SplitStep { action: SplitAction::Equalize, delay_ms: SPLIT_DELAY_MS });
    // Phase 5: Navigate to top-left pane
    let total = layout.total_panes();
    proof {
        crate::layout::lemma_sum_of_positive(layout@);
    }
    push_repeated(
        &mut plan,
        SplitStep { action: SplitAction::GotoPrevious, delay_ms: FAST_NAV_DELAY_MS },
        (total - 1) as usize,
    );
    plan
}

/// Counting over a concatenation adds the counts.
pub proof fn lemma_count_concat(a: Seq<SplitStep>, b: Seq<SplitStep>, act: SplitAction)
    ensures
        count_action(a + b, act) == count_action(a, act) + count_action(b, act),
    decreases b.len(),
{
    if b.len() == 0 {
        assert(a + b =~= a);
    } else {
        lemma_count_concat(a, b.drop_last(), act);
        assert((a + b).drop_last() =~= a + b.drop_last());
        assert((a + b).last() == b.last());
    }
}

/// `k` copies of a step count `k` times for its own action and never for another.
pub proof fn lemma_count_repeat(s: SplitStep, k: nat, act: SplitAction)
    ensures
        count_action(repeat_step(s, k), act) == if s.action == act {
            k
        } else {
            0
        },
    decreases k,
{
    if k > 0 {
        lemma_count_repeat(s, (k - 1) as nat, act);
        assert(repeat_step(s, k).drop_last() =~= repeat_step(s, (k - 1) as nat));
    } else {
        assert(repeat_step(s, k).len() == 0);
    }
}

/// The counts of one step.
proof fn lemma_count_single(s: SplitStep, act: SplitAction)
    ensures
        count_action(seq![s], act) == if s.action == act {
            1nat
        } else {
            0nat
        },
{
    assert(seq![s].drop_last() =~= Seq::<SplitStep>::empty());
    assert(count_action(Seq::<SplitStep>::empty(), act) == 0);
    assert(seq![s].last() == s);
}

/// Phase 3 over the first `k` columns: it splits each column into its rows
/// and moves to the next column after every column but the last.
proof fn lemma_rows_phase_counts(cols: Seq<u32>, k: nat)
    requires
        plannable(cols),
        k <= cols.len(),
    ensures
        count_action(rows_phase(cols, k), SplitAction::SplitDown) == sum_of(cols.take(k as int))
            - k,
        count_action(rows_phase(cols, k), SplitAction::GotoNext) == if k == cols.len() {
            k - 1
        } else {
            k as int
        },
        count_action(rows_phase(cols, k), SplitAction::SplitRight) == 0,
        count_action(rows_phase(cols, k), SplitAction::GotoPrevious) == 0,
        count_action(rows_phase(cols, k), SplitAction::Equalize) == 0,
    decreases k,
{
    if k == 0 {
        assert(cols.take(0) =~= Seq::<u32>::empty());
        assert(rows_phase(cols, k).len() == 0);
    } else {
        let i = k - 1;
        lemma_rows_phase_counts(cols, (k - 1) as nat);
        assert(cols.take(k as int).drop_last() =~= cols.take(i));
        assert(cols.take(k as int).last() == cols[i]);
        assert(cols[i] >= 1);
        let downs = repeat_step(step(SplitAction::SplitDown, SPLIT_DELAY_MS), (cols[i] - 1) as nat);
        let tail = if i < cols.len() - 1 {
            seq![step(SplitAction::GotoNext, NAV_DELAY_MS)]
        } else {
            Seq::<SplitStep>::empty()
        };
        assert forall|act: SplitAction| true implies count_action(column_steps(cols, i), act)
            == count_action(downs, act) + count_action(tail, act) by {
            lemma_count_concat(downs, tail, act);
        }
        assert forall|act: SplitAction| true implies count_action(rows_phase(cols, k), act)
            == count_action(rows_phase(cols, (k - 1) as nat), act) + count_action(
            column_steps(cols, i),
            act,
        ) by {
            lemma_count_concat(rows_phase(cols, (k - 1) as nat), column_steps(cols, i), act);
        }
        assert forall|act: SplitAction| true implies count_action(downs, act) == if act
            == SplitAction::SplitDown {
            (cols[i] - 1) as nat
        } else {
            0
        } by {
            lemma_count_repeat(step(SplitAction::SplitDown, SPLIT_DELAY_MS), (cols[i] - 1) as nat, act);
        }
        if i < cols.len() - 1 {
            assert forall|act: SplitAction| true implies count_action(tail, act) == if act
                == SplitAction::GotoNext {
                1nat
            } else {
                0nat
            } by {
                lemma_count_single(step(SplitAction::GotoNext, NAV_DELAY_MS), act);
            }
        } else {
            assert(tail.len() == 0);
        }
    }
}

/// The plan creates exactly the layout's panes: `num_cols - 1` splits to the
/// right and `rows - 1` splits down in each column, so `total - 1` splits in
/// all; it moves to the next column `num_cols - 1` times, equalizes once, and
/// moves back `num_cols - 1` times to the first column and `total - 1` times
/// to the top-left pane.
pub proof fn plan_counts_law(cols: Seq<u32>)
    requires
        plannable(cols),
    ensures
        count_action(plan_spec(cols), SplitAction::SplitRight) == cols.len() - 1,
        count_action(plan_spec(cols), SplitAction::SplitDown) == sum_of(cols) - cols.len(),
        count_action(plan_spec(cols), SplitAction::SplitRight) + count_action(
            plan_spec(cols),
            SplitAction::SplitDown,
        ) == sum_of(cols) - 1,
        count_action(plan_spec(cols), SplitAction::GotoNext) == cols.len() - 1,
        count_action(plan_spec(cols), SplitAction::Equalize) == 1,
        count_action(plan_spec(cols), SplitAction::GotoPrevious) == (cols.len() - 1) + (sum_of(
            cols,
        ) - 1),
{
    let c = (cols.len() - 1) as nat;
    crate::layout::lemma_sum_of_positive(cols);
    let p1 = repeat_step(step(SplitAction::SplitRight, SPLIT_DELAY_MS), c);
    let p2 = repeat_step(step(SplitAction::GotoPrevious, NAV_DELAY_MS), c);
    let p3 = rows_phase(cols, cols.len());
    let p4 = seq![step(SplitAction::Equalize, SPLIT_DELAY_MS)];
    let p5 = repeat_step(step(SplitAction::GotoPrevious, FAST_NAV_DELAY_MS), (sum_of(cols) - 1) as nat);
    lemma_rows_phase_counts(cols, cols.len());
    assert(cols.take(cols.len() as int) =~= cols);
    assert forall|act: SplitAction| true implies count_action(plan_spec(cols), act) == (if act
        == SplitAction::SplitRight {
        c as int
    } else {
        0
    }) + (if act == SplitAction::GotoPrevious {
        c as int
    } else {
        0
    }) + count_action(p3, act) + (if act == SplitAction::Equalize {
        1int
    } else {
        0
    }) + (if act == SplitAction::GotoPrevious {
        sum_of(cols) - 1
    } else {
        0
    }) by {
        lemma_count_concat(p1, p2, act);
        lemma_count_concat(p1 + p2, p3, act);
        lemma_count_concat(p1 + p2 + p3, p4, act);
        lemma_count_concat(p1 + p2 + p3 + p4, p5, act);
        lemma_count_repeat(step(SplitAction::SplitRight, SPLIT_DELAY_MS), c, act);
        lemma_count_repeat(step(SplitAction::GotoPrevious, NAV_DELAY_MS), c, act);
        lemma_count_single(step(SplitAction::Equalize, SPLIT_DELAY_MS), act);
        lemma_count_repeat(
            step(SplitAction::GotoPrevious, FAST_NAV_DELAY_MS),
            (sum_of(cols) - 1) as nat,
            act,
        );
    }
}

/// Every layout that parsing accepts can be planned.
pub proof fn parsed_layouts_are_plannable_law(cols: Seq<u32>)
    requires
        crate::layout::valid_layout(cols),
    ensures
        plannable(cols),
{
}

/// Each step sends the keybinding that Ghostty bound to the matching action:
/// splitting right uses `new_split:right`, splitting down `new_split:down`,
/// moving on `goto_split:next`, moving back `goto_split:previous`, and
/// equalizing `equalize_splits`; different steps use different bindings.
pub proof fn action_binding_law(a: SplitAction, b: SplitAction)
    ensures
        0 <= action_slot(a) < crate::config::NUM_ACTIONS,
        a == SplitAction::SplitRight ==> crate::config::action_name(action_slot(a))
            == "new_split:right"@,
        a == SplitAction::SplitDown ==> crate::config::action_name(action_slot(a))
            == "new_split:down"@,
        a == SplitAction::GotoNext ==> crate::config::action_name(action_slot(a))
            == "goto_split:next"@,
        a == SplitAction::GotoPrevious ==> crate::config::action_name(action_slot(a))
            == "goto_split:previous"@,
        a == SplitAction::Equalize ==> crate::config::action_name(action_slot(a))
            == "equalize_splits"@,
        a != b ==> action_slot(a) != action_slot(b),
{
}

/// The combo a step sends is the one parsed from the trigger bound to its
/// action in the config: with `parse_keybindings` giving `kb` for a config,
/// `kb.combo_for(a)` is the combo of the trigger of the config's last line
/// binding the action that `a` names.
pub proof fn combo_for_config_law(content: Seq<char>, platform: crate::keybind::Platform, kbs: Seq<ComboView>, a: SplitAction)
    requires
        crate::config::keybindings_spec(content, platform) == Ok::<Seq<ComboView>, Seq<char>>(kbs),
    ensures
        crate::config::config_bindings(content)[action_slot(a)] is Some,
        crate::keybind::key_combo_spec(
            crate::config::config_bindings(content)[action_slot(a)].unwrap(),
            platform,
        ) == Ok::<ComboView, Seq<char>>(kbs[action_slot(a)]),
{
    crate::config::lemma_keybindings_ok(content, platform, kbs, action_slot(a));
}

} // verus!
