//! The capture-stream view: per-view transient state and its key handling.

use vstd::prelude::*;
use crate::entries::NotMonitor;
use crate::entries::SourceOutputEntry;
use crate::entries::VisibleSourceOutputs;
use crate::entries::lemma_visible_filter_matches;
use crate::entries::visible_source_output_pred;
use crate::selecting_map::EntryFilter;
use crate::selecting_map::matching_values;
use crate::state::App;
use crate::state::Command;
use crate::state::KeyInput;
use crate::state::only_source_outputs_view_touched;
use crate::state::spec_volume_for_key;
use crate::state::volume_for_key;

verus! {

/// The streams the kill-all shortcut targets: those the server reports
/// paused.
pub open spec fn corked_pred() -> spec_fn(SourceOutputEntry) -> bool {
    |v: SourceOutputEntry| v.corked
}

/// Transient display state of the capture-stream view: the two popups and
/// the input device highlighted in the routing popup.
pub struct ViewData {
    pub source_popup_open: bool,
    pub keybinding_popup_open: bool,
    pub source_index_selected: u32,
}

impl ViewData {
    /// Opens the routing popup, starting from the stream's current device.
    pub fn open_source_popup(&mut self, entry: &SourceOutputEntry)
        ensures
            final(self).source_popup_open,
            final(self).source_index_selected == entry.source_index,
            final(self).keybinding_popup_open == old(self).keybinding_popup_open,
    {
        self.source_popup_open = true;
        self.source_index_selected = entry.source_index;
    }

    pub fn close_source_popup(&mut self)
        ensures
            !final(self).source_popup_open,
            final(self).source_index_selected == old(self).source_index_selected,
            final(self).keybinding_popup_open == old(self).keybinding_popup_open,
    {
        self.source_popup_open = false;
    }

    pub fn open_keybinding_popup(&mut self)
        ensures
            final(self).keybinding_popup_open,
            final(self).source_popup_open == old(self).source_popup_open,
            final(self).source_index_selected == old(self).source_index_selected,
    {
        self.keybinding_popup_open = true;
    }

    pub fn close_keybinding_popup(&mut self)
        ensures
            !final(self).keybinding_popup_open,
            final(self).source_popup_open == old(self).source_popup_open,
            final(self).source_index_selected == old(self).source_index_selected,
    {
        self.keybinding_popup_open = false;
    }
}

impl Default for ViewData {
    fn default() -> (r: ViewData)
        ensures
            r == (ViewData {
                source_popup_open: false,
                keybinding_popup_open: false,
                source_index_selected: 0,
            }),
    {
        ViewData {
            source_popup_open: false,
            keybinding_popup_open: false,
            source_index_selected: 0,
        }
    }
}

/// Entering the view dismisses any popup left open in it.
pub fn entered(app: &mut App)
    requires
        old(app).inv(),
    ensures
        final(app).inv(),
        !final(app).source_output_view_data.source_popup_open,
        !final(app).source_output_view_data.keybinding_popup_open,
        final(app).source_output_view_data.source_index_selected == old(
            app,
        ).source_output_view_data.source_index_selected,
        crate::state::only_source_outputs_view_touched(*old(app), *final(app)),
        final(app).source_output_list == old(app).source_output_list,
        final(app).redraw == old(app).redraw,
{
    app.source_output_view_data.close_source_popup();
    app.source_output_view_data.close_keybinding_popup();
}

/// What one keystroke does in the view proper, relating the state before
/// (`a`) to the state after (`b`) and to the commands handed back. With
/// monitors hidden, navigation skips streams recording from a monitor (or
/// from no device at all), and mutation keys are ignored while such a stream
/// is selected.
pub open spec fn main_key_outcome(key: KeyInput, a: App, b: App, cmds: Seq<Command>) -> bool {
    &&& only_source_outputs_view_touched(a, b)
    &&& b.source_output_list.entries() == a.source_output_list.entries()
    &&& ({
            let l0 = a.source_output_list;
            let hide = a.hide_monitors;
            let vis = visible_source_output_pred(a.source_list@);
            if key == KeyInput::Ctrl('k') {
                &&& b == a
                &&& cmds.len() == matching_values(l0.entries(), corked_pred()).len()
                &&& forall|i: int|
                    0 <= i < cmds.len() ==> cmds[i] == (Command::KillSourceOutput {
                        index: matching_values(l0.entries(), corked_pred())[i].index,
                    })
            } else if key == KeyInput::Char('?') {
                &&& b.source_output_view_data.keybinding_popup_open
                &&& b.source_output_view_data.source_popup_open == a.source_output_view_data.source_popup_open
                &&& b.redraw
                &&& b.source_output_list == l0
                &&& cmds.len() == 0
            } else if l0.selected_key() is None {
                &&& b == a
                &&& cmds.len() == 0
            } else {
                let k0 = l0.selected_key()->0;
                let e = l0@[k0];
                if key == KeyInput::Char('j') || key == KeyInput::Down {
                    &&& cmds.len() == 0
                    &&& b.redraw == a.redraw
                    &&& b.source_output_view_data == a.source_output_view_data
                    &&& match (if hide {
                        crate::selecting_map::first_match_above(l0.entries(), k0, vis)
                    } else {
                        l0.spec_next_key(k0)
                    }) {
                        Option::Some(n) => b.source_output_list.selected_key()
                            == Option::Some(n) && b.source_output_list.is_changed(),
                        Option::None => b.source_output_list == l0,
                    }
                } else if key == KeyInput::Char('k') || key == KeyInput::Up {
                    &&& cmds.len() == 0
                    &&& b.redraw == a.redraw
                    &&& b.source_output_view_data == a.source_output_view_data
                    &&& match (if hide {
                        crate::selecting_map::last_match_below(l0.entries(), k0, vis)
                    } else {
                        l0.spec_prev_key(k0)
                    }) {
                        Option::Some(n) => b.source_output_list.selected_key()
                            == Option::Some(n) && b.source_output_list.is_changed(),
                        Option::None => b.source_output_list == l0,
                    }
                } else if key == KeyInput::Char('\n') || key == KeyInput::Char('i') {
                    &&& cmds.len() == 0
                    &&& b.source_output_list == l0
                    &&& b.source_output_view_data.source_popup_open
                    &&& b.source_output_view_data.source_index_selected == e.source_index
                    &&& b.source_output_view_data.keybinding_popup_open
                        == a.source_output_view_data.keybinding_popup_open
                    &&& b.redraw
                } else if hide && !vis(e) {
                    &&& b == a
                    &&& cmds.len() == 0
                } else if key == KeyInput::Char('m') {
                    &&& b == a
                    &&& cmds.len() == 1
                    &&& cmds[0] == (Command::SetSourceOutputMute { index: e.index, mute: !e.mute })
                } else if key == KeyInput::Char('K') {
                    &&& b == a
                    &&& cmds.len() == 1
                    &&& cmds[0] == (Command::KillSourceOutput { index: e.index })
                } else if spec_volume_for_key(key, e.volume@) is Some {
                    &&& b == a
                    &&& cmds.len() == 1
                    &&& cmds[0] matches Command::SetSourceOutputVolume { index, volume } && index
                        == e.index && volume@ == spec_volume_for_key(key, e.volume@)->0
                } else {
                    &&& b == a
                    &&& cmds.len() == 0
                }
            }
        })
}

/// Keys in the view proper. With monitors hidden, navigation skips streams
/// recording from a monitor (or from no device at all), and mute, volume and
/// kill keys are ignored while such a stream is selected.
pub fn handle_key_event_main(key: KeyInput, app: &mut App) -> (cmds: Vec<Command>)
    requires
        old(app).inv(),
    ensures
        final(app).inv(),
        main_key_outcome(key, *old(app), *final(app), cmds@),
{
    let mut cmds: Vec<Command> = Vec::new();
    if key == KeyInput::Ctrl('k') {
        let ghost p = corked_pred();
        let vals = app.source_output_list.values();
        let mut j: usize = 0;
        proof {
            assert(app.source_output_list.entries().take(0) =~= Seq::<
                (u32, SourceOutputEntry),
            >::empty());
        }
        while j < vals.len()
            invariant
                p == corked_pred(),
                j <= vals@.len(),
                vals@.len() == app.source_output_list.entries().len(),
                forall|i: int|
                    0 <= i < vals@.len() ==> *vals@[i] == app.source_output_list.entries()[i].1,
                cmds@.len() == matching_values(
                    app.source_output_list.entries().take(j as int),
                    p,
                ).len(),
                forall|i: int|
                    0 <= i < cmds@.len() ==> cmds@[i] == (Command::KillSourceOutput {
                        index: matching_values(
                            app.source_output_list.entries().take(j as int),
                            p,
                        )[i].index,
                    }),
            decreases vals@.len() - j,
        {
            proof {
                assert(app.source_output_list.entries().take(j as int + 1).drop_last()
                    =~= app.source_output_list.entries().take(j as int));
                assert(app.source_output_list.entries().take(j as int + 1).last()
                    == app.source_output_list.entries()[j as int]);
            }
            if vals[j].corked {
                cmds.push(Command::KillSourceOutput { index: vals[j].index });
            }
            j = j + 1;
        }
        proof {
            assert(app.source_output_list.entries().take(
                app.source_output_list.entries().len() as int,
            ) =~= app.source_output_list.entries());
        }
        return cmds;
    }
    if key == KeyInput::Char('?') {
        app.source_output_view_data.open_keybinding_popup();
        app.redraw = true;
        return cmds;
    }
    if app.source_output_list.len() == 0 {
        return cmds;
    }
    let ghost vis = visible_source_output_pred(app.source_list@);
    match key {
        KeyInput::Char('j') | KeyInput::Down => {
            if app.hide_monitors {
                let vso = VisibleSourceOutputs::from_sources(&app.source_list);
                proof {
                    lemma_visible_filter_matches(vso, app.source_list@);
                }
                app.source_output_list.filtered_select_next(&vso);
            } else {
                app.source_output_list.select_next();
            }
        },
        KeyInput::Char('k') | KeyInput::Up => {
            if app.hide_monitors {
                let vso = VisibleSourceOutputs::from_sources(&app.source_list);
                proof {
                    lemma_visible_filter_matches(vso, app.source_list@);
                }
                app.source_output_list.filtered_select_prev(&vso);
            } else {
                app.source_output_list.select_prev();
            }
        },
        _ => {
            let hide = app.hide_monitors;
            let vso = VisibleSourceOutputs::from_sources(&app.source_list);
            proof {
                lemma_visible_filter_matches(vso, app.source_list@);
            }
            if let Some(e) = app.source_output_list.get_selected() {
                if key == KeyInput::Char('\n') || key == KeyInput::Char('i') {
                    app.source_output_view_data.open_source_popup(e);
                    app.redraw = true;
                } else if hide && !vso.accepts(e) {
                    return cmds;
                } else if key == KeyInput::Char('m') {
                    cmds.push(Command::SetSourceOutputMute { index: e.index, mute: !e.mute });
                } else if key == KeyInput::Char('K') {
                    cmds.push(Command::KillSourceOutput { index: e.index });
                } else if let Some(nv) = volume_for_key(key, &e.volume) {
                    cmds.push(Command::SetSourceOutputVolume { index: e.index, volume: nv });
                }
            }
        },
    }
    cmds
}

/// What one keystroke does while the routing popup is open, relating the
/// state before (`a`) to the state after (`b`) and to the commands handed
/// back.
pub open spec fn source_popup_outcome(key: KeyInput, a: App, b: App, cmds: Seq<Command>) -> bool {
    &&& only_source_outputs_view_touched(a, b)
    &&& b.source_output_list == a.source_output_list
    &&& ({
            let l0 = a.source_output_list;
            let vd0 = a.source_output_view_data;
            if l0.selected_key() is None {
                &&& !b.source_output_view_data.source_popup_open
                &&& b.source_output_view_data.keybinding_popup_open
                    == vd0.keybinding_popup_open
                &&& b.source_output_view_data.source_index_selected
                    == vd0.source_index_selected
                &&& b.redraw == a.redraw
                &&& cmds.len() == 0
            } else {
                let e = l0@[l0.selected_key()->0];
                if key == KeyInput::Esc {
                    &&& !b.source_output_view_data.source_popup_open
                    &&& b.source_output_view_data.keybinding_popup_open
                        == vd0.keybinding_popup_open
                    &&& b.source_output_view_data.source_index_selected
                        == vd0.source_index_selected
                    &&& b.redraw
                    &&& cmds.len() == 0
                } else if key == KeyInput::Char('\n') {
                    &&& !b.source_output_view_data.source_popup_open
                    &&& b.redraw
                    &&& cmds.len() == 1
                    &&& cmds[0] == (Command::MoveSourceOutput {
                        index: e.index,
                        source: vd0.source_index_selected,
                    })
                } else if key == KeyInput::Char('j') || key == KeyInput::Down {
                    &&& cmds.len() == 0
                    &&& match a.source_list.spec_filtered_next_key(
                        vd0.source_index_selected,
                        NotMonitor,
                    ) {
                        Option::Some(n) => b.source_output_view_data.source_index_selected
                            == n && b.redraw
                            && b.source_output_view_data.source_popup_open
                            == vd0.source_popup_open,
                        Option::None => b == a,
                    }
                } else if key == KeyInput::Char('k') || key == KeyInput::Up {
                    &&& cmds.len() == 0
                    &&& match a.source_list.spec_filtered_prev_key(
                        vd0.source_index_selected,
                        NotMonitor,
                    ) {
                        Option::Some(n) => b.source_output_view_data.source_index_selected
                            == n && b.redraw
                            && b.source_output_view_data.source_popup_open
                            == vd0.source_popup_open,
                        Option::None => b == a,
                    }
                } else {
                    b == a && cmds.len() == 0
                }
            }
        })
}

/// Keys while the routing popup is open: up and down move the highlighted
/// input device through the non-monitor sources, return issues the move, and
/// escape dismisses the popup. A popup that outlives its stream closes
/// itself.
pub fn handle_key_event_source_popup(key: KeyInput, app: &mut App) -> (cmds: Vec<Command>)
    requires
        old(app).inv(),
    ensures
        final(app).inv(),
        source_popup_outcome(key, *old(app), *final(app), cmds@),
{
    let mut cmds: Vec<Command> = Vec::new();
    if app.source_output_list.len() == 0 {
        app.source_output_view_data.close_source_popup();
        return cmds;
    }
    let stream_index: u32;
    match app.source_output_list.get_selected() {
        Some(e) => {
            stream_index = e.index;
        },
        None => {
            return cmds;
        },
    }
    match key {
        KeyInput::Esc => {
            app.source_output_view_data.close_source_popup();
            app.redraw = true;
        },
        KeyInput::Char('\n') => {
            cmds.push(
                Command::MoveSourceOutput {
                    index: stream_index,
                    source: app.source_output_view_data.source_index_selected,
                },
            );
            app.source_output_view_data.close_source_popup();
            app.redraw = true;
        },
        KeyInput::Char('j') | KeyInput::Down => {
            if let Some(k) = app.source_list.filtered_next_key(
                app.source_output_view_data.source_index_selected,
                &NotMonitor,
            ) {
                app.source_output_view_data.source_index_selected = k;
                app.redraw = true;
            }
        },
        KeyInput::Char('k') | KeyInput::Up => {
            if let Some(k) = app.source_list.filtered_prev_key(
                app.source_output_view_data.source_index_selected,
                &NotMonitor,
            ) {
                app.source_output_view_data.source_index_selected = k;
                app.redraw = true;
            }
        },
        _ => {},
    }
    cmds
}

/// What one keystroke does while the key reference is open: escape dismisses
/// it, everything else is ignored.
pub open spec fn keybinding_popup_outcome(key: KeyInput, a: App, b: App, cmds: Seq<
    Command,
>) -> bool {
    &&& only_source_outputs_view_touched(a, b)
    &&& cmds.len() == 0
    &&& b.source_output_list == a.source_output_list
    &&& if key == KeyInput::Esc {
        &&& !b.source_output_view_data.keybinding_popup_open
        &&& b.redraw
    } else {
        b == a
    }
}

/// What one keystroke does in this view: the open popup sees it first.
pub open spec fn view_key_outcome(key: KeyInput, a: App, b: App, cmds: Seq<Command>) -> bool {
    if a.source_output_view_data.keybinding_popup_open {
        keybinding_popup_outcome(key, a, b, cmds)
    } else if a.source_output_view_data.source_popup_open {
        source_popup_outcome(key, a, b, cmds)
    } else {
        main_key_outcome(key, a, b, cmds)
    }
}

/// Keys while the key reference is open: escape dismisses it.
pub fn handle_key_event_keybinding_popup(key: KeyInput, app: &mut App) -> (cmds: Vec<Command>)
    requires
        old(app).inv(),
    ensures
        final(app).inv(),
        keybinding_popup_outcome(key, *old(app), *final(app), cmds@),
{
    let cmds: Vec<Command> = Vec::new();
    if key == KeyInput::Esc {
        app.source_output_view_data.close_keybinding_popup();
        app.redraw = true;
    }
    cmds
}

/// One keystroke for this view, dispatched to the open popup or to the view
/// proper.
pub fn handle_key_event(key: KeyInput, app: &mut App) -> (cmds: Vec<Command>)
    requires
        old(app).inv(),
    ensures
        final(app).inv(),
        view_key_outcome(key, *old(app), *final(app), cmds@),
{
    if app.source_output_view_data.keybinding_popup_open {
        handle_key_event_keybinding_popup(key, app)
    } else if app.source_output_view_data.source_popup_open {
        handle_key_event_source_popup(key, app)
    } else {
        handle_key_event_main(key, app)
    }
}

} // verus!
