//! Behavior of the ordered selection registry on concrete values.

use pavucontrolrs::selecting_map::SelectingMap;

#[test]
fn empty_registry_has_no_selection() {
    let m: SelectingMap<u32> = SelectingMap::new();
    assert_eq!(m.len(), 0);
    assert!(m.get_selected().is_none());
    assert!(!m.get_changed());
}

#[test]
fn first_insertion_becomes_selection() {
    let mut m: SelectingMap<u32> = SelectingMap::new();
    m.update(7, 70);
    assert_eq!(m.len(), 1);
    assert_eq!(m.get_selected(), Some(&70));
    m.update(3, 30);
    // The selection stays on the first-ever inserted key.
    assert_eq!(m.get_selected(), Some(&70));
}

#[test]
fn iteration_is_ascending_whatever_the_insertion_order() {
    let mut a: SelectingMap<u32> = SelectingMap::new();
    for k in [5u32, 1, 9, 3, 7] {
        a.update(k, k * 10);
    }
    let mut b: SelectingMap<u32> = SelectingMap::new();
    for k in [9u32, 7, 5, 3, 1] {
        b.update(k, k * 10);
    }
    let va: Vec<u32> = a.values().into_iter().copied().collect();
    let vb: Vec<u32> = b.values().into_iter().copied().collect();
    assert_eq!(va, vec![10, 30, 50, 70, 90]);
    assert_eq!(vb, vec![10, 30, 50, 70, 90]);
}

#[test]
fn upsert_replaces_without_growing() {
    let mut m: SelectingMap<u32> = SelectingMap::new();
    m.update(4, 1);
    m.update(4, 2);
    assert_eq!(m.len(), 1);
    assert_eq!(m.get(4), Some(&2));
}

#[test]
fn selection_invariant_through_upserts_and_removals() {
    let mut m: SelectingMap<u32> = SelectingMap::new();
    assert!(m.get_selected().is_none());
    m.update(2, 20);
    assert!(m.get_selected().is_some());
    m.update(1, 10);
    m.remove(2);
    assert!(m.get_selected().is_some());
    m.remove(1);
    assert!(m.get_selected().is_none());
    assert_eq!(m.len(), 0);
}

#[test]
fn removing_selected_prefers_next_key() {
    let mut m: SelectingMap<u32> = SelectingMap::new();
    m.update(1, 10);
    m.update(2, 20);
    m.update(3, 30);
    m.select_next();
    assert_eq!(m.get_selected(), Some(&20));
    m.remove(2);
    assert_eq!(m.get_selected(), Some(&30));
}

#[test]
fn removing_selected_falls_back_to_previous_key() {
    let mut m: SelectingMap<u32> = SelectingMap::new();
    m.update(1, 10);
    m.update(2, 20);
    m.select_next();
    assert_eq!(m.get_selected(), Some(&20));
    m.remove(2);
    assert_eq!(m.get_selected(), Some(&10));
}

#[test]
fn removing_last_entry_clears_selection() {
    let mut m: SelectingMap<u32> = SelectingMap::new();
    m.update(1, 10);
    m.remove(1);
    assert!(m.get_selected().is_none());
    assert_eq!(m.len(), 0);
}

#[test]
fn removing_unselected_keeps_selection() {
    let mut m: SelectingMap<u32> = SelectingMap::new();
    m.update(1, 10);
    m.update(2, 20);
    m.update(3, 30);
    m.remove(3);
    assert_eq!(m.get_selected(), Some(&10));
    assert_eq!(m.len(), 2);
}

#[test]
fn navigation_stops_at_the_ends() {
    let mut m: SelectingMap<u32> = SelectingMap::new();
    m.update(1, 10);
    m.update(2, 20);
    // At the smallest key, moving back is a no-op and leaves the dirty flag
    // alone.
    assert!(m.reset_changed());
    m.select_prev();
    assert_eq!(m.get_selected(), Some(&10));
    assert!(!m.get_changed());
    // Move to the largest key, then try to go further.
    m.select_next();
    assert!(m.reset_changed());
    m.select_next();
    assert_eq!(m.get_selected(), Some(&20));
    assert!(!m.get_changed());
}

#[test]
fn next_and_prev_key_walk_the_sorted_order() {
    let mut m: SelectingMap<u32> = SelectingMap::new();
    for k in [10u32, 20, 30] {
        m.update(k, k);
    }
    assert_eq!(m.next_key(5), Some(10));
    assert_eq!(m.next_key(10), Some(20));
    assert_eq!(m.next_key(30), None);
    assert_eq!(m.prev_key(30), Some(20));
    assert_eq!(m.prev_key(10), None);
    assert_eq!(m.prev_key(35), Some(30));
}

#[test]
fn dirty_flag_coalesces_mutations() {
    let mut m: SelectingMap<u32> = SelectingMap::new();
    m.update(1, 10);
    m.update(2, 20);
    m.update(3, 30);
    // Three upserts, one consumption: true exactly once.
    assert!(m.reset_changed());
    assert!(!m.reset_changed());
}

#[test]
fn get_selected_mut_marks_changed() {
    let mut m: SelectingMap<u32> = SelectingMap::new();
    m.update(1, 10);
    let _ = m.reset_changed();
    *m.get_selected_mut() = 99;
    assert!(m.get_changed());
    assert_eq!(m.get_selected(), Some(&99));
}

#[test]
fn get_finds_present_keys_only() {
    let mut m: SelectingMap<u32> = SelectingMap::new();
    m.update(2, 20);
    assert_eq!(m.get(2), Some(&20));
    assert_eq!(m.get(1), None);
    assert_eq!(m.get(3), None);
}

#[test]
fn extreme_keys_navigate_like_any_other() {
    let mut m: SelectingMap<u32> = SelectingMap::new();
    m.update(0, 1);
    m.update(u32::MAX, 2);
    assert_eq!(m.next_key(0), Some(u32::MAX));
    assert_eq!(m.prev_key(u32::MAX), Some(0));
    assert_eq!(m.next_key(u32::MAX), None);
    m.select_next();
    assert_eq!(m.get_selected(), Some(&2));
    m.remove(u32::MAX);
    assert_eq!(m.get_selected(), Some(&1));
}
