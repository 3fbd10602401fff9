use ghostty_pane_splitter::config::parse_keybindings;
use ghostty_pane_splitter::keybind::{Key, KeyCombo, Platform};
use ghostty_pane_splitter::layout::Layout;
use ghostty_pane_splitter::split::{
    combo_events, plan_splits, KeyDirection, KeyEvent, SplitAction, SplitStep,
};

fn s(action: SplitAction, delay_ms: u64) -> SplitStep {
    SplitStep { action, delay_ms }
}

#[test]
fn plan_for_one_and_three_rows() {
    let plan = plan_splits(&Layout { columns: vec![1, 3] });
    assert_eq!(
        plan,
        vec![
            s(SplitAction::SplitRight, 200),
            s(SplitAction::GotoPrevious, 50),
            s(SplitAction::GotoNext, 50),
            s(SplitAction::SplitDown, 200),
            s(SplitAction::SplitDown, 200),
            s(SplitAction::Equalize, 200),
            s(SplitAction::GotoPrevious, 20),
            s(SplitAction::GotoPrevious, 20),
            s(SplitAction::GotoPrevious, 20),
        ]
    );
}

#[test]
fn plan_counts_match_the_layout() {
    let layout = Layout { columns: vec![2, 1, 3] };
    let plan = plan_splits(&layout);
    let count = |a: SplitAction| plan.iter().filter(|st| st.action == a).count();
    assert_eq!(count(SplitAction::SplitRight) + count(SplitAction::SplitDown), 5);
    assert_eq!(count(SplitAction::GotoNext), 2);
    assert_eq!(count(SplitAction::Equalize), 1);
    assert_eq!(count(SplitAction::GotoPrevious), 2 + 5);
}

#[test]
fn single_pane_plan_only_equalizes() {
    let plan = plan_splits(&Layout { columns: vec![1] });
    assert_eq!(plan, vec![s(SplitAction::Equalize, 200)]);
}

#[test]
fn combo_events_press_click_release() {
    let combo = KeyCombo {
        modifiers: vec![Key::Meta, Key::Shift],
        key: Key::Unicode('d'),
    };
    assert_eq!(
        combo_events(&combo),
        vec![
            KeyEvent { key: Key::Meta, direction: KeyDirection::Press },
            KeyEvent { key: Key::Shift, direction: KeyDirection::Press },
            KeyEvent { key: Key::Unicode('d'), direction: KeyDirection::Click },
            KeyEvent { key: Key::Shift, direction: KeyDirection::Release },
            KeyEvent { key: Key::Meta, direction: KeyDirection::Release },
        ]
    );
}

#[test]
fn actions_find_their_combos() {
    let config = "keybind = super+d=new_split:right
keybind = super+shift+d=new_split:down
keybind = super+ctrl+right_bracket=goto_split:next
keybind = super+ctrl+left_bracket=goto_split:previous
keybind = super+ctrl+shift+equal=equalize_splits
";
    let kb = parse_keybindings(config, Platform::Linux).unwrap();
    assert_eq!(kb.combo_for(SplitAction::GotoNext), &kb.goto_next);
    assert_eq!(kb.combo_for(SplitAction::Equalize).key, Key::Unicode('='));
    assert_eq!(SplitAction::SplitDown.name(), "split_down");
    assert_eq!(SplitAction::GotoPrevious.name(), "goto_previous");
}
