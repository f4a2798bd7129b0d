use shortcut_keeper::shortcuts::Shortcut;
use shortcut_keeper::shortcuts::Shortcuts;

fn sample(combo: &str, desc: &str) -> Shortcut {
    Shortcut::from(combo.to_string(), desc.to_string())
}

fn store_with_counts(counts: &[u32]) -> Shortcuts {
    let mut store = Shortcuts::new();
    for (i, &c) in counts.iter().enumerate() {
        store.add_shortcut(sample(&format!("K{}", i), &format!("D{}", i)));
        store.increment_lookup_count(i, c);
    }
    store
}

#[test]
fn new_store_is_empty() {
    let store = Shortcuts::new();
    assert_eq!(store.get_all_shortcuts().len(), 0);
    assert!(store.get_save_path().is_none());
}

#[test]
fn add_appends_with_zero_count() {
    let mut store = Shortcuts::new();
    store.add_shortcut(sample("CTRL+S", "save"));
    store.add_shortcut(sample("CTRL+T", "open new tab"));
    let all = store.get_all_shortcuts();
    assert_eq!(all.len(), 2);
    assert_eq!(all[0].get_key_combo(), "CTRL+S");
    assert_eq!(all[0].get_description(), "save");
    assert_eq!(all[0].get_lookup_count(), 0);
    assert_eq!(all[1].get_key_combo(), "CTRL+T");
}

#[test]
fn increment_adds_amount() {
    let mut store = store_with_counts(&[0, 0]);
    store.increment_lookup_count(1, 7);
    assert_eq!(store.get_all_shortcuts()[1].get_lookup_count(), 7);
    store.increment_lookup_count(1, 3);
    assert_eq!(store.get_all_shortcuts()[1].get_lookup_count(), 10);
    assert_eq!(store.get_all_shortcuts()[0].get_lookup_count(), 0);
}

#[test]
fn increment_by_zero_changes_nothing() {
    let mut store = store_with_counts(&[4, 9]);
    store.increment_lookup_count(0, 0);
    store.increment_lookup_count(1, 0);
    let all = store.get_all_shortcuts();
    assert_eq!(all.len(), 2);
    assert_eq!(all[0].get_lookup_count(), 4);
    assert_eq!(all[1].get_lookup_count(), 9);
    assert_eq!(all[0].get_key_combo(), "K0");
    assert_eq!(all[1].get_key_combo(), "K1");
}

#[test]
fn increment_out_of_range_is_a_no_op() {
    let mut store = store_with_counts(&[4, 9]);
    store.increment_lookup_count(2, 100);
    store.increment_lookup_count(17, 1);
    let all = store.get_all_shortcuts();
    assert_eq!(all.len(), 2);
    assert_eq!(all[0].get_lookup_count(), 4);
    assert_eq!(all[1].get_lookup_count(), 9);
}

#[test]
fn remove_at_returns_and_shifts() {
    let mut store = store_with_counts(&[1, 2, 3]);
    let removed = store.remove_at(1);
    let removed = removed.expect("index 1 is in range");
    assert_eq!(removed.get_key_combo(), "K1");
    assert_eq!(removed.get_lookup_count(), 2);
    let all = store.get_all_shortcuts();
    assert_eq!(all.len(), 2);
    assert_eq!(all[0].get_key_combo(), "K0");
    assert_eq!(all[1].get_key_combo(), "K2");
}

#[test]
fn remove_at_out_of_range_returns_absent() {
    let mut store = store_with_counts(&[1, 2]);
    assert!(store.remove_at(5).is_none());
    assert_eq!(store.get_all_shortcuts().len(), 2);
    assert!(store.remove_at(2).is_none());
    assert_eq!(store.get_all_shortcuts().len(), 2);
}

#[test]
fn sorted_indexes_rank_by_count_descending() {
    let store = store_with_counts(&[3, 10, 7]);
    assert_eq!(store.get_sorted_indexes(), vec![1, 2, 0]);
}

#[test]
fn sorted_indexes_break_ties_by_storage_order() {
    let store = store_with_counts(&[1, 5, 5, 0]);
    assert_eq!(store.get_sorted_indexes(), vec![1, 2, 0, 3]);
    let all_equal = store_with_counts(&[2, 2, 2]);
    assert_eq!(all_equal.get_sorted_indexes(), vec![0, 1, 2]);
}

#[test]
fn sorted_indexes_of_empty_store() {
    let store = Shortcuts::new();
    assert_eq!(store.get_sorted_indexes(), Vec::<usize>::new());
}

#[test]
fn set_save_path_binds_location() {
    let mut store = Shortcuts::new();
    store.set_save_path("shortcuts.json".to_string());
    assert_eq!(store.get_save_path().as_deref(), Some("shortcuts.json"));
}

#[test]
fn display_string_shows_all_three_fields() {
    let mut store = Shortcuts::new();
    store.add_shortcut(sample("CTRL+S", "save"));
    store.increment_lookup_count(0, 12);
    assert_eq!(store.get_all_shortcuts()[0].to_display_string(), "CTRL+S save (12)");
}

#[test]
fn scenario_add_and_double_increment() {
    // Start from one record, add a second, look the first up five at a
    // time, twice.
    let mut store = Shortcuts::new();
    store.add_shortcut(sample("A", "open tab"));
    store.add_shortcut(sample("B", "close tab"));
    store.increment_lookup_count(0, 5);
    store.increment_lookup_count(0, 5);
    let all = store.get_all_shortcuts();
    assert_eq!(all[0].get_lookup_count(), 10);
    assert_eq!(all[1].get_lookup_count(), 0);
    assert_eq!(store.get_sorted_indexes(), vec![0, 1]);
}

#[test]
fn default_store_matches_new() {
    let store = Shortcuts::default();
    assert_eq!(store.get_all_shortcuts().len(), 0);
    assert!(store.get_save_path().is_none());
}
