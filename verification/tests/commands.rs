use shortcut_keeper::app_state::AppState;
use shortcut_keeper::commands::add::Add;
use shortcut_keeper::commands::exit::Exit;
use shortcut_keeper::commands::help::Help;
use shortcut_keeper::commands::list::List;
use shortcut_keeper::commands::remove::Remove;
use shortcut_keeper::commands::CommandResult;
use shortcut_keeper::shortcuts::Shortcut;
use shortcut_keeper::shortcuts::Shortcuts;

fn state_with_counts(counts: &[u32]) -> AppState {
    let mut store = Shortcuts::new();
    for (i, &c) in counts.iter().enumerate() {
        store.add_shortcut(Shortcut::from(format!("K{}", i), format!("D{}", i)));
        store.increment_lookup_count(i, c);
    }
    AppState::new(store)
}

#[test]
fn add_appends_the_typed_shortcut() {
    let mut state = state_with_counts(&[1]);
    let r = Add::apply(&mut state, "CTRL+W".to_string(), "close tab".to_string());
    assert!(matches!(r, CommandResult::Continue));
    let all = state.shortcuts.get_all_shortcuts();
    assert_eq!(all.len(), 2);
    assert_eq!(all[1].get_key_combo(), "CTRL+W");
    assert_eq!(all[1].get_description(), "close tab");
    assert_eq!(all[1].get_lookup_count(), 0);
}

#[test]
fn list_bumps_the_chosen_display_row_by_five() {
    // Display order is K1 (count 9), K2 (count 4), K0 (count 1): row 2 is
    // the record stored at index 2.
    let mut state = state_with_counts(&[1, 9, 4]);
    assert!(List::apply(&mut state, 2));
    let all = state.shortcuts.get_all_shortcuts();
    assert_eq!(all[2].get_lookup_count(), 9);
    assert_eq!(all[0].get_lookup_count(), 1);
    assert_eq!(all[1].get_lookup_count(), 9);
}

#[test]
fn list_rejects_rows_outside_the_table() {
    let mut state = state_with_counts(&[1, 9]);
    assert!(!List::apply(&mut state, 0));
    assert!(!List::apply(&mut state, 3));
    assert!(!List::apply(&mut state, -1));
    let all = state.shortcuts.get_all_shortcuts();
    assert_eq!(all[0].get_lookup_count(), 1);
    assert_eq!(all[1].get_lookup_count(), 9);
}

#[test]
fn remove_deletes_the_chosen_display_row() {
    // Display order is K1, K2, K0; removing row 1 removes the record
    // stored at index 1.
    let mut state = state_with_counts(&[1, 9, 4]);
    assert!(Remove::apply(&mut state, 1));
    let all = state.shortcuts.get_all_shortcuts();
    assert_eq!(all.len(), 2);
    assert_eq!(all[0].get_key_combo(), "K0");
    assert_eq!(all[1].get_key_combo(), "K2");
}

#[test]
fn remove_rejects_rows_outside_the_table() {
    let mut state = state_with_counts(&[1, 9]);
    assert!(!Remove::apply(&mut state, 0));
    assert!(!Remove::apply(&mut state, 5));
    assert_eq!(state.shortcuts.get_all_shortcuts().len(), 2);
}

#[test]
fn exit_stops_and_help_continues() {
    assert!(matches!(Exit.decide(), CommandResult::Exit));
    assert!(matches!(Help.decide(), CommandResult::Continue));
}
