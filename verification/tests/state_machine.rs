//! The shared state: notification handling, the redraw decision, and the
//! keyboard state machine.

use pavucontrolrs::entries::CardEntry;
use pavucontrolrs::entries::DeviceState;
use pavucontrolrs::entries::ProfileInfo;
use pavucontrolrs::entries::SinkEntry;
use pavucontrolrs::entries::SinkInputEntry;
use pavucontrolrs::entries::SourceEntry;
use pavucontrolrs::entries::SourceOutputEntry;
use pavucontrolrs::entries::Volumes;
use pavucontrolrs::state::App;
use pavucontrolrs::state::AppView;
use pavucontrolrs::state::Command;
use pavucontrolrs::state::EntityUpdate;
use pavucontrolrs::state::Facility;
use pavucontrolrs::state::KeyInput;
use pavucontrolrs::state::handle_key_event;
use pavucontrolrs::state::apply_removal;
use pavucontrolrs::state::apply_update;
use pavucontrolrs::state::take_redraw;

fn stream(idx: u32, sink: u32, corked: bool) -> SinkInputEntry {
    SinkInputEntry {
        index: idx,
        name: format!("stream-{}", idx),
        sink_index: sink,
        volume: Volumes::new(vec![65536, 32768]),
        mute: false,
        corked,
        has_volume: true,
        volume_writable: true,
        app_name: None,
        binary_name: None,
    }
}

fn capture(idx: u32, source: u32) -> SourceOutputEntry {
    SourceOutputEntry {
        index: idx,
        name: format!("capture-{}", idx),
        source_index: source,
        volume: Volumes::new(vec![65536]),
        mute: false,
        corked: false,
        has_volume: true,
        volume_writable: true,
        app_name: None,
    }
}

fn device(idx: u32) -> SinkEntry {
    SinkEntry {
        index: idx,
        name: format!("sink-{}", idx),
        description: format!("Sink {}", idx),
        volume: Volumes::new(vec![65536]),
        mute: false,
        state: DeviceState::Running,
        owner_module: Some(idx + 100),
        ports: Vec::new(),
    }
}

fn source(idx: u32, monitor_of: Option<u32>) -> SourceEntry {
    SourceEntry {
        index: idx,
        name: format!("source-{}", idx),
        description: format!("Source {}", idx),
        volume: Volumes::new(vec![65536]),
        mute: false,
        monitor_of_sink: monitor_of,
        state: DeviceState::Running,
        owner_module: None,
        ports: Vec::new(),
    }
}

fn card(idx: u32, profile_count: usize) -> CardEntry {
    let mut profiles = Vec::new();
    for p in 0..profile_count {
        profiles.push(ProfileInfo {
            name: format!("profile-{}", p),
            description: format!("Profile {}", p),
            n_sinks: 1,
            n_sources: 1,
            priority: p as u32,
            available: true,
        });
    }
    let sel = if profile_count == 0 { None } else { Some(0) };
    CardEntry {
        index: idx,
        name: format!("card-{}", idx),
        device_description: None,
        ports: Vec::new(),
        profiles,
        active_profile_index: sel,
        selected_profile_index: sel,
    }
}

#[test]
fn a_fresh_panel_shows_playback_streams() {
    let app = App::new();
    assert!(app.redraw);
    assert!(app.hide_monitors);
    assert!(!app.quit_request);
    assert!(matches!(app.view, AppView::SinkInputs));
}

#[test]
fn quit_keys_request_termination() {
    let mut app = App::new();
    let cmds = handle_key_event(KeyInput::Char('q'), &mut app);
    assert!(app.quit_request);
    assert!(cmds.is_empty());
    let mut app2 = App::new();
    let _ = handle_key_event(KeyInput::Ctrl('c'), &mut app2);
    assert!(app2.quit_request);
}

#[test]
fn function_keys_switch_views_and_dismiss_popups() {
    let mut app = App::new();
    let _ = handle_key_event(KeyInput::Char('?'), &mut app);
    assert!(app.sink_input_view_data.keybinding_popup_open);
    let _ = handle_key_event(KeyInput::Func(3), &mut app);
    assert!(matches!(app.view, AppView::Sinks));
    let _ = handle_key_event(KeyInput::Func(1), &mut app);
    assert!(matches!(app.view, AppView::SinkInputs));
    assert!(!app.sink_input_view_data.keybinding_popup_open);
    assert!(app.redraw);
}

#[test]
fn tab_cycles_through_all_views() {
    let mut app = App::new();
    let mut seen = Vec::new();
    for _ in 0..5 {
        let _ = handle_key_event(KeyInput::Char('\t'), &mut app);
        seen.push(app.view);
    }
    assert!(matches!(seen[0], AppView::SourceOutputs));
    assert!(matches!(seen[1], AppView::Sinks));
    assert!(matches!(seen[2], AppView::Sources));
    assert!(matches!(seen[3], AppView::Cards));
    assert!(matches!(seen[4], AppView::SinkInputs));
}

#[test]
fn notifications_fill_the_matching_registry() {
    let mut app = App::new();
    apply_update(&mut app, EntityUpdate::Sink(device(3)));
    apply_update(&mut app, EntityUpdate::Sink(device(1)));
    apply_update(&mut app, EntityUpdate::SinkInput(stream(7, 1, false)));
    assert_eq!(app.sink_list.len(), 2);
    assert_eq!(app.sink_input_list.len(), 1);
    // The first sink seen stays selected.
    assert_eq!(app.sink_list.get_selected().unwrap().index, 3);
}

#[test]
fn stale_snapshots_are_overwritten_by_the_last_writer() {
    let mut app = App::new();
    apply_update(&mut app, EntityUpdate::SinkInput(stream(7, 1, false)));
    apply_update(&mut app, EntityUpdate::SinkInput(stream(7, 2, true)));
    assert_eq!(app.sink_input_list.len(), 1);
    let e = app.sink_input_list.get(7).unwrap();
    assert_eq!(e.sink_index, 2);
    assert!(e.corked);
}

#[test]
fn removal_of_an_unknown_entity_is_ignored() {
    let mut app = App::new();
    apply_update(&mut app, EntityUpdate::Sink(device(1)));
    assert!(!apply_removal(&mut app, Facility::Sink, 9));
    assert_eq!(app.sink_list.len(), 1);
    assert!(apply_removal(&mut app, Facility::Sink, 1));
    assert_eq!(app.sink_list.len(), 0);
    assert!(!apply_removal(&mut app, Facility::Card, 1));
}

#[test]
fn redraw_decision_coalesces_mutations() {
    let mut app = App::new();
    // The initial forced redraw is consumed once.
    assert!(take_redraw(&mut app));
    assert!(!take_redraw(&mut app));
    // Several mutations of the active view's registry collapse into one.
    apply_update(&mut app, EntityUpdate::SinkInput(stream(1, 1, false)));
    apply_update(&mut app, EntityUpdate::SinkInput(stream(2, 1, false)));
    apply_update(&mut app, EntityUpdate::SinkInput(stream(3, 1, false)));
    assert!(take_redraw(&mut app));
    assert!(!take_redraw(&mut app));
}

#[test]
fn an_inactive_view_keeps_its_dirty_flag() {
    let mut app = App::new();
    let _ = take_redraw(&mut app);
    // The card registry changes while the playback view is active.
    apply_update(&mut app, EntityUpdate::Card(card(1, 2)));
    assert!(!take_redraw(&mut app));
    assert!(app.card_list.get_changed());
}

#[test]
fn mute_key_issues_one_command() {
    let mut app = App::new();
    apply_update(&mut app, EntityUpdate::SinkInput(stream(7, 1, false)));
    let cmds = handle_key_event(KeyInput::Char('m'), &mut app);
    assert_eq!(cmds, vec![Command::SetSinkInputMute { index: 7, mute: true }]);
}

#[test]
fn volume_up_scales_all_channels() {
    let mut app = App::new();
    apply_update(&mut app, EntityUpdate::SinkInput(stream(7, 1, false)));
    let cmds = handle_key_event(KeyInput::Char('l'), &mut app);
    assert_eq!(
        cmds,
        vec![Command::SetSinkInputVolume { index: 7, volume: Volumes::new(vec![66191, 33095]) }],
    );
}

#[test]
fn digit_key_jumps_to_tenths_of_nominal() {
    let mut app = App::new();
    apply_update(&mut app, EntityUpdate::SinkInput(stream(7, 1, false)));
    let cmds = handle_key_event(KeyInput::Char('5'), &mut app);
    assert_eq!(
        cmds,
        vec![Command::SetSinkInputVolume { index: 7, volume: Volumes::new(vec![32765, 32765]) }],
    );
}

#[test]
fn control_keys_silence_and_restore() {
    let mut app = App::new();
    apply_update(&mut app, EntityUpdate::SinkInput(stream(7, 1, false)));
    let muted = handle_key_event(KeyInput::Ctrl('h'), &mut app);
    assert_eq!(
        muted,
        vec![Command::SetSinkInputVolume { index: 7, volume: Volumes::new(vec![0, 0]) }],
    );
    let restored = handle_key_event(KeyInput::Ctrl('l'), &mut app);
    assert_eq!(
        restored,
        vec![Command::SetSinkInputVolume { index: 7, volume: Volumes::new(vec![65536, 65536]) }],
    );
}

#[test]
fn kill_all_targets_every_paused_stream_in_order() {
    let mut app = App::new();
    apply_update(&mut app, EntityUpdate::SinkInput(stream(3, 1, true)));
    apply_update(&mut app, EntityUpdate::SinkInput(stream(1, 1, false)));
    apply_update(&mut app, EntityUpdate::SinkInput(stream(2, 1, true)));
    let cmds = handle_key_event(KeyInput::Ctrl('k'), &mut app);
    assert_eq!(
        cmds,
        vec![Command::KillSinkInput { index: 2 }, Command::KillSinkInput { index: 3 }],
    );
}

#[test]
fn navigation_keys_move_the_selection() {
    let mut app = App::new();
    apply_update(&mut app, EntityUpdate::SinkInput(stream(1, 1, false)));
    apply_update(&mut app, EntityUpdate::SinkInput(stream(2, 1, false)));
    let _ = handle_key_event(KeyInput::Char('j'), &mut app);
    assert_eq!(app.sink_input_list.get_selected().unwrap().index, 2);
    let _ = handle_key_event(KeyInput::Up, &mut app);
    assert_eq!(app.sink_input_list.get_selected().unwrap().index, 1);
}

#[test]
fn routing_popup_moves_a_stream() {
    let mut app = App::new();
    apply_update(&mut app, EntityUpdate::Sink(device(1)));
    apply_update(&mut app, EntityUpdate::Sink(device(2)));
    apply_update(&mut app, EntityUpdate::SinkInput(stream(7, 1, false)));
    let _ = handle_key_event(KeyInput::Char('i'), &mut app);
    assert!(app.sink_input_view_data.sink_popup_open);
    assert_eq!(app.sink_input_view_data.sink_index_selected, 1);
    let _ = handle_key_event(KeyInput::Char('j'), &mut app);
    assert_eq!(app.sink_input_view_data.sink_index_selected, 2);
    let cmds = handle_key_event(KeyInput::Char('\n'), &mut app);
    assert_eq!(cmds, vec![Command::MoveSinkInput { index: 7, sink: 2 }]);
    assert!(!app.sink_input_view_data.sink_popup_open);
}

#[test]
fn escape_dismisses_the_key_reference() {
    let mut app = App::new();
    let _ = handle_key_event(KeyInput::Char('?'), &mut app);
    assert!(app.sink_input_view_data.keybinding_popup_open);
    let _ = handle_key_event(KeyInput::Esc, &mut app);
    assert!(!app.sink_input_view_data.keybinding_popup_open);
}

#[test]
fn card_profile_highlight_moves_and_clamps() {
    let mut app = App::new();
    apply_update(&mut app, EntityUpdate::Card(card(1, 3)));
    let _ = handle_key_event(KeyInput::Func(5), &mut app);
    let _ = handle_key_event(KeyInput::Char('+'), &mut app);
    assert_eq!(app.card_list.get(1).unwrap().selected_profile_index, Some(1));
    let _ = handle_key_event(KeyInput::Char('+'), &mut app);
    let _ = handle_key_event(KeyInput::Char('+'), &mut app);
    assert_eq!(app.card_list.get(1).unwrap().selected_profile_index, Some(2));
    let _ = handle_key_event(KeyInput::Char('-'), &mut app);
    assert_eq!(app.card_list.get(1).unwrap().selected_profile_index, Some(1));
    let cmds = handle_key_event(KeyInput::Char('\n'), &mut app);
    assert_eq!(
        cmds,
        vec![Command::SetCardProfile { index: 1, profile: String::from("profile-1") }],
    );
    // The confirmed choice is the server's business: the highlight stays.
    assert_eq!(app.card_list.get(1).unwrap().active_profile_index, Some(0));
}

#[test]
fn unload_key_removes_the_owning_module() {
    let mut app = App::new();
    apply_update(&mut app, EntityUpdate::Sink(device(4)));
    let _ = handle_key_event(KeyInput::Func(3), &mut app);
    let cmds = handle_key_event(KeyInput::Char('D'), &mut app);
    assert_eq!(cmds, vec![Command::UnloadModule { index: 104 }]);
}

#[test]
fn toggling_monitor_visibility_reanchors_selections() {
    let mut app = App::new();
    apply_update(&mut app, EntityUpdate::Source(source(1, None)));
    apply_update(&mut app, EntityUpdate::Source(source(2, Some(8))));
    apply_update(&mut app, EntityUpdate::Source(source(3, None)));
    apply_update(&mut app, EntityUpdate::SourceOutput(capture(5, 2)));
    apply_update(&mut app, EntityUpdate::SourceOutput(capture(6, 1)));
    // Park the source selection on the monitor while monitors are shown.
    let _ = handle_key_event(KeyInput::Char('M'), &mut app);
    assert!(!app.hide_monitors);
    let _ = handle_key_event(KeyInput::Func(4), &mut app);
    let _ = handle_key_event(KeyInput::Char('j'), &mut app);
    assert_eq!(app.source_list.get_selected().unwrap().index, 2);
    // Hiding monitors re-anchors both the source and the capture-stream
    // selection onto visible entries.
    let _ = handle_key_event(KeyInput::Char('M'), &mut app);
    assert!(app.hide_monitors);
    assert_eq!(app.source_list.get_selected().unwrap().index, 3);
    assert_eq!(app.source_output_list.get_selected().unwrap().index, 6);
}

#[test]
fn hidden_monitor_ignores_mutation_keys() {
    let mut app = App::new();
    apply_update(&mut app, EntityUpdate::Source(source(1, Some(8))));
    let _ = handle_key_event(KeyInput::Func(4), &mut app);
    let cmds = handle_key_event(KeyInput::Char('m'), &mut app);
    assert!(cmds.is_empty());
    // With monitors shown the same key acts.
    let _ = handle_key_event(KeyInput::Char('M'), &mut app);
    let cmds = handle_key_event(KeyInput::Char('m'), &mut app);
    assert_eq!(cmds, vec![Command::SetSourceMute { index: 1, mute: true }]);
}
