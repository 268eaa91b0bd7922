//! Filtered navigation and re-anchoring on concrete registries.

use pavucontrolrs::entries::NotMonitor;
use pavucontrolrs::entries::SourceEntry;
use pavucontrolrs::entries::DeviceState;
use pavucontrolrs::entries::Volumes;
use pavucontrolrs::selecting_map::SelectingMap;

fn source(idx: u32, monitor_of: Option<u32>) -> SourceEntry {
    SourceEntry {
        index: idx,
        name: format!("source-{}", idx),
        description: format!("Source {}", idx),
        volume: Volumes::new(vec![65536]),
        mute: false,
        monitor_of_sink: monitor_of,
        state: DeviceState::Running,
        owner_module: None,
        ports: Vec::new(),
    }
}

fn registry(entries: Vec<SourceEntry>) -> SelectingMap<SourceEntry> {
    let mut m: SelectingMap<SourceEntry> = SelectingMap::new();
    for e in entries {
        let idx = e.index;
        m.update(idx, e);
    }
    m
}

#[test]
fn filtered_navigation_skips_rejected_entries() {
    // Keys 1..4; 2 and 3 are monitors.
    let m = registry(vec![
        source(1, None),
        source(2, Some(9)),
        source(3, Some(9)),
        source(4, None),
    ]);
    assert_eq!(m.filtered_next_key(1, &NotMonitor), Some(4));
    assert_eq!(m.filtered_prev_key(4, &NotMonitor), Some(1));
    assert_eq!(m.next_key(1), Some(2));
}

#[test]
fn filtered_select_moves_over_hidden_entries() {
    let mut m = registry(vec![source(1, None), source(2, Some(9)), source(3, None)]);
    assert_eq!(m.get_selected().unwrap().index, 1);
    m.filtered_select_next(&NotMonitor);
    assert_eq!(m.get_selected().unwrap().index, 3);
    m.filtered_select_prev(&NotMonitor);
    assert_eq!(m.get_selected().unwrap().index, 1);
}

#[test]
fn reanchoring_prefers_the_next_matching_key() {
    // Keys 1..4, all visible except 2; the selection sits on 2.
    let mut m = registry(vec![
        source(1, None),
        source(2, Some(9)),
        source(3, None),
        source(4, None),
    ]);
    m.select_next();
    assert_eq!(m.get_selected().unwrap().index, 2);
    m.filtered_select_next_else_prev(&NotMonitor);
    assert_eq!(m.get_selected().unwrap().index, 3);
}

#[test]
fn reanchoring_falls_back_to_the_previous_matching_key() {
    // Only key 1 is visible; the selection sits on 2.
    let mut m = registry(vec![
        source(1, None),
        source(2, Some(9)),
        source(3, Some(9)),
        source(4, Some(9)),
    ]);
    m.select_next();
    assert_eq!(m.get_selected().unwrap().index, 2);
    m.filtered_select_next_else_prev(&NotMonitor);
    assert_eq!(m.get_selected().unwrap().index, 1);
}

#[test]
fn reanchoring_stays_put_when_nothing_matches() {
    let mut m = registry(vec![source(1, Some(9)), source(2, Some(9))]);
    m.select_next();
    assert_eq!(m.get_selected().unwrap().index, 2);
    m.filtered_select_next_else_prev(&NotMonitor);
    assert_eq!(m.get_selected().unwrap().index, 2);
}

#[test]
fn reanchoring_leaves_the_dirty_flag_alone() {
    let mut m = registry(vec![source(1, None), source(2, Some(9))]);
    m.select_next();
    let _ = m.reset_changed();
    m.filtered_select_next_else_prev(&NotMonitor);
    assert_eq!(m.get_selected().unwrap().index, 1);
    assert!(!m.get_changed());
}

#[test]
fn filtered_len_and_values_count_accepted_entries() {
    let m = registry(vec![
        source(1, None),
        source(2, Some(9)),
        source(3, None),
        source(4, Some(9)),
    ]);
    assert_eq!(m.filtered_len(&NotMonitor), 2);
    let visible: Vec<u32> = m.filtered_values(&NotMonitor).into_iter().map(|e| e.index).collect();
    assert_eq!(visible, vec![1, 3]);
    assert_eq!(m.len(), 4);
}
