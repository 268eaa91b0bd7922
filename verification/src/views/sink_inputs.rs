//! The playback-stream view: per-view transient state and its key handling.

use vstd::prelude::*;
use crate::entries::SinkInputEntry;
use crate::selecting_map::matching_values;
use crate::state::App;
use crate::state::Command;
use crate::state::KeyInput;
use crate::state::only_sink_inputs_view_touched;
use crate::state::spec_volume_for_key;
use crate::state::volume_for_key;

verus! {

/// The streams the kill-all shortcut targets: those the server reports
/// paused.
pub open spec fn corked_pred() -> spec_fn(SinkInputEntry) -> bool {
    |v: SinkInputEntry| v.corked
}

/// Transient display state of the playback-stream view: the two popups and
/// the output device highlighted in the routing popup.
pub struct ViewData {
    pub sink_popup_open: bool,
    pub keybinding_popup_open: bool,
    pub sink_index_selected: u32,
}

impl ViewData {
    /// Opens the routing popup, starting from the stream's current device.
    pub fn open_sink_popup(&mut self, entry: &SinkInputEntry)
        ensures
            final(self).sink_popup_open,
            final(self).sink_index_selected == entry.sink_index,
            final(self).keybinding_popup_open == old(self).keybinding_popup_open,
    {
        self.sink_popup_open = true;
        self.sink_index_selected = entry.sink_index;
    }

    pub fn close_sink_popup(&mut self)
        ensures
            !final(self).sink_popup_open,
            final(self).sink_index_selected == old(self).sink_index_selected,
            final(self).keybinding_popup_open == old(self).keybinding_popup_open,
    {
        self.sink_popup_open = false;
    }

    pub fn open_keybinding_popup(&mut self)
        ensures
            final(self).keybinding_popup_open,
            final(self).sink_popup_open == old(self).sink_popup_open,
            final(self).sink_index_selected == old(self).sink_index_selected,
    {
        self.keybinding_popup_open = true;
    }

    pub fn close_keybinding_popup(&mut self)
        ensures
            !final(self).keybinding_popup_open,
            final(self).sink_popup_open == old(self).sink_popup_open,
            final(self).sink_index_selected == old(self).sink_index_selected,
    {
        self.keybinding_popup_open = false;
    }
}

impl Default for ViewData {
    fn default() -> (r: ViewData)
        ensures
            r == (ViewData {
                sink_popup_open: false,
                keybinding_popup_open: false,
                sink_index_selected: 0,
            }),
    {
        ViewData { sink_popup_open: false, keybinding_popup_open: false, sink_index_selected: 0 }
    }
}

/// Entering the view dismisses any popup left open in it.
pub fn entered(app: &mut App)
    requires
        old(app).inv(),
    ensures
        final(app).inv(),
        !final(app).sink_input_view_data.sink_popup_open,
        !final(app).sink_input_view_data.keybinding_popup_open,
        final(app).sink_input_view_data.sink_index_selected == old(
            app,
        ).sink_input_view_data.sink_index_selected,
        crate::state::only_sink_inputs_view_touched(*old(app), *final(app)),
        final(app).sink_input_list == old(app).sink_input_list,
        final(app).redraw == old(app).redraw,
{
    app.sink_input_view_data.close_sink_popup();
    app.sink_input_view_data.close_keybinding_popup();
}

/// What one keystroke does in the view proper, relating the state before
/// (`a`) to the state after (`b`) and to the commands handed back.
pub open spec fn main_key_outcome(key: KeyInput, a: App, b: App, cmds: Seq<Command>) -> bool {
    &&& only_sink_inputs_view_touched(a, b)
    &&& b.sink_input_list.entries() == a.sink_input_list.entries()
    &&& ({
            let l0 = a.sink_input_list;
            if key == KeyInput::Ctrl('k') {
                &&& b == a
                &&& cmds.len() == matching_values(l0.entries(), corked_pred()).len()
                &&& forall|i: int|
                    0 <= i < cmds.len() ==> cmds[i] == (Command::KillSinkInput {
                        index: matching_values(l0.entries(), corked_pred())[i].index,
                    })
            } else if key == KeyInput::Char('?') {
                &&& b.sink_input_view_data.keybinding_popup_open
                &&& b.sink_input_view_data.sink_popup_open == a.sink_input_view_data.sink_popup_open
                &&& b.redraw
                &&& b.sink_input_list == l0
                &&& cmds.len() == 0
            } else if l0.selected_key() is None {
                &&& b == a
                &&& cmds.len() == 0
            } else {
                let k0 = l0.selected_key()->0;
                let e = l0@[k0];
                if key == KeyInput::Char('j') || key == KeyInput::Down {
                    &&& cmds.len() == 0
                    &&& b.redraw == a.redraw
                    &&& b.sink_input_view_data == a.sink_input_view_data
                    &&& match l0.spec_next_key(k0) {
                        Option::Some(n) => b.sink_input_list.selected_key()
                            == Option::Some(n) && b.sink_input_list.is_changed(),
                        Option::None => b.sink_input_list == l0,
                    }
                } else if key == KeyInput::Char('k') || key == KeyInput::Up {
                    &&& cmds.len() == 0
                    &&& b.redraw == a.redraw
                    &&& b.sink_input_view_data == a.sink_input_view_data
                    &&& match l0.spec_prev_key(k0) {
                        Option::Some(n) => b.sink_input_list.selected_key()
                            == Option::Some(n) && b.sink_input_list.is_changed(),
                        Option::None => b.sink_input_list == l0,
                    }
                } else if key == KeyInput::Char('m') {
                    &&& b == a
                    &&& cmds.len() == 1
                    &&& cmds[0] == (Command::SetSinkInputMute { index: e.index, mute: !e.mute })
                } else if key == KeyInput::Char('K') {
                    &&& b == a
                    &&& cmds.len() == 1
                    &&& cmds[0] == (Command::KillSinkInput { index: e.index })
                } else if spec_volume_for_key(key, e.volume@) is Some {
                    &&& b == a
                    &&& cmds.len() == 1
                    &&& cmds[0] matches Command::SetSinkInputVolume { index, volume } && index
                        == e.index && volume@ == spec_volume_for_key(key, e.volume@)->0
                } else if key == KeyInput::Char('\n') || key == KeyInput::Char('i') {
                    &&& cmds.len() == 0
                    &&& b.sink_input_list == l0
                    &&& b.sink_input_view_data.sink_popup_open
                    &&& b.sink_input_view_data.sink_index_selected == e.sink_index
                    &&& b.sink_input_view_data.keybinding_popup_open == a.sink_input_view_data.keybinding_popup_open
                    &&& b.redraw
                } else {
                    &&& b == a
                    &&& cmds.len() == 0
                }
            }
        })
}

/// Keys in the view proper: navigation moves the selection; mute, volume,
/// kill and routing keys translate the selected stream's state into
/// commands; control-k kills every paused stream at once.
pub fn handle_key_event_main(key: KeyInput, app: &mut App) -> (cmds: Vec<Command>)
    requires
        old(app).inv(),
    ensures
        final(app).inv(),
        main_key_outcome(key, *old(app), *final(app), cmds@),
{
    let mut cmds: Vec<Command> = Vec::new();
    if key == KeyInput::Ctrl('k') {
        let ghost p = corked_pred();
        let vals = app.sink_input_list.values();
        let mut j: usize = 0;
        proof {
            assert(app.sink_input_list.entries().take(0) =~= Seq::<(u32, SinkInputEntry)>::empty());
        }
        while j < vals.len()
            invariant
                p == corked_pred(),
                j <= vals@.len(),
                vals@.len() == app.sink_input_list.entries().len(),
                forall|i: int|
                    0 <= i < vals@.len() ==> *vals@[i] == app.sink_input_list.entries()[i].1,
                cmds@.len() == matching_values(
                    app.sink_input_list.entries().take(j as int),
                    p,
                ).len(),
                forall|i: int|
                    0 <= i < cmds@.len() ==> cmds@[i] == (Command::KillSinkInput {
                        index: matching_values(
                            app.sink_input_list.entries().take(j as int),
                            p,
                        )[i].index,
                    }),
            decreases vals@.len() - j,
        {
            proof {
                assert(app.sink_input_list.entries().take(j as int + 1).drop_last()
                    =~= app.sink_input_list.entries().take(j as int));
                assert(app.sink_input_list.entries().take(j as int + 1).last()
                    == app.sink_input_list.entries()[j as int]);
            }
            if vals[j].corked {
                cmds.push(Command::KillSinkInput { index: vals[j].index });
            }
            j = j + 1;
        }
        proof {
            assert(app.sink_input_list.entries().take(app.sink_input_list.entries().len() as int)
                =~= app.sink_input_list.entries());
        }
        return cmds;
    }
    if key == KeyInput::Char('?') {
        app.sink_input_view_data.open_keybinding_popup();
        app.redraw = true;
        return cmds;
    }
    if app.sink_input_list.len() == 0 {
        return cmds;
    }
    match key {
        KeyInput::Char('j') | KeyInput::Down => {
            app.sink_input_list.select_next();
        },
        KeyInput::Char('k') | KeyInput::Up => {
            app.sink_input_list.select_prev();
        },
        _ => {
            if let Some(e) = app.sink_input_list.get_selected() {
                if key == KeyInput::Char('m') {
                    cmds.push(Command::SetSinkInputMute { index: e.index, mute: !e.mute });
                } else if key == KeyInput::Char('K') {
                    cmds.push(Command::KillSinkInput { index: e.index });
                } else if let Some(nv) = volume_for_key(key, &e.volume) {
                    cmds.push(Command::SetSinkInputVolume { index: e.index, volume: nv });
                } else if key == KeyInput::Char('\n') || key == KeyInput::Char('i') {
                    app.sink_input_view_data.open_sink_popup(e);
                    app.redraw = true;
                }
            }
        },
    }
    cmds
}

/// What one keystroke does while the routing popup is open, relating the
/// state before (`a`) to the state after (`b`) and to the commands handed
/// back.
pub open spec fn sink_popup_outcome(key: KeyInput, a: App, b: App, cmds: Seq<Command>) -> bool {
    &&& only_sink_inputs_view_touched(a, b)
    &&& b.sink_input_list == a.sink_input_list
    &&& ({
            let l0 = a.sink_input_list;
            let vd0 = a.sink_input_view_data;
            if l0.selected_key() is None {
                &&& !b.sink_input_view_data.sink_popup_open
                &&& b.sink_input_view_data.keybinding_popup_open
                    == vd0.keybinding_popup_open
                &&& b.sink_input_view_data.sink_index_selected == vd0.sink_index_selected
                &&& b.redraw == a.redraw
                &&& cmds.len() == 0
            } else {
                let e = l0@[l0.selected_key()->0];
                if key == KeyInput::Esc {
                    &&& !b.sink_input_view_data.sink_popup_open
                    &&& b.sink_input_view_data.keybinding_popup_open
                        == vd0.keybinding_popup_open
                    &&& b.sink_input_view_data.sink_index_selected
                        == vd0.sink_index_selected
                    &&& b.redraw
                    &&& cmds.len() == 0
                } else if key == KeyInput::Char('\n') {
                    &&& !b.sink_input_view_data.sink_popup_open
                    &&& b.redraw
                    &&& cmds.len() == 1
                    &&& cmds[0] == (Command::MoveSinkInput {
                        index: e.index,
                        sink: vd0.sink_index_selected,
                    })
                } else if key == KeyInput::Char('j') || key == KeyInput::Down {
                    &&& cmds.len() == 0
                    &&& match a.sink_list.spec_next_key(vd0.sink_index_selected) {
                        Option::Some(n) => b.sink_input_view_data.sink_index_selected == n
                            && b.redraw
                            && b.sink_input_view_data.sink_popup_open
                            == vd0.sink_popup_open,
                        Option::None => b == a,
                    }
                } else if key == KeyInput::Char('k') || key == KeyInput::Up {
                    &&& cmds.len() == 0
                    &&& match a.sink_list.spec_prev_key(vd0.sink_index_selected) {
                        Option::Some(n) => b.sink_input_view_data.sink_index_selected == n
                            && b.redraw
                            && b.sink_input_view_data.sink_popup_open
                            == vd0.sink_popup_open,
                        Option::None => b == a,
                    }
                } else {
                    b == a && cmds.len() == 0
                }
            }
        })
}

/// Keys while the routing popup is open: up and down move the highlighted
/// output device through the device registry, return issues the move, and
/// escape dismisses the popup. A popup that outlives its stream closes
/// itself.
pub fn handle_key_event_sink_popup(key: KeyInput, app: &mut App) -> (cmds: Vec<Command>)
    requires
        old(app).inv(),
    ensures
        final(app).inv(),
        sink_popup_outcome(key, *old(app), *final(app), cmds@),
{
    let mut cmds: Vec<Command> = Vec::new();
    if app.sink_input_list.len() == 0 {
        app.sink_input_view_data.close_sink_popup();
        return cmds;
    }
    let stream_index: u32;
    match app.sink_input_list.get_selected() {
        Some(e) => {
            stream_index = e.index;
        },
        None => {
            return cmds;
        },
    }
    match key {
        KeyInput::Esc => {
            app.sink_input_view_data.close_sink_popup();
            app.redraw = true;
        },
        KeyInput::Char('\n') => {
            cmds.push(
                Command::MoveSinkInput {
                    index: stream_index,
                    sink: app.sink_input_view_data.sink_index_selected,
                },
            );
            app.sink_input_view_data.close_sink_popup();
            app.redraw = true;
        },
        KeyInput::Char('j') | KeyInput::Down => {
            if let Some(k) = app.sink_list.next_key(app.sink_input_view_data.sink_index_selected) {
                app.sink_input_view_data.sink_index_selected = k;
                app.redraw = true;
            }
        },
        KeyInput::Char('k') | KeyInput::Up => {
            if let Some(k) = app.sink_list.prev_key(app.sink_input_view_data.sink_index_selected) {
                app.sink_input_view_data.sink_index_selected = k;
                app.redraw = true;
            }
        },
        _ => {},
    }
    cmds
}

/// What one keystroke does while the key reference is open: escape dismisses
/// it, everything else is ignored.
pub open spec fn keybinding_popup_outcome(key: KeyInput, a: App, b: App, cmds: Seq<
    Command,
>) -> bool {
    &&& only_sink_inputs_view_touched(a, b)
    &&& cmds.len() == 0
    &&& b.sink_input_list == a.sink_input_list
    &&& if key == KeyInput::Esc {
        &&& !b.sink_input_view_data.keybinding_popup_open
        &&& b.redraw
    } else {
        b == a
    }
}

/// What one keystroke does in this view: the open popup sees it first.
pub open spec fn view_key_outcome(key: KeyInput, a: App, b: App, cmds: Seq<Command>) -> bool {
    if a.sink_input_view_data.keybinding_popup_open {
        keybinding_popup_outcome(key, a, b, cmds)
    } else if a.sink_input_view_data.sink_popup_open {
        sink_popup_outcome(key, a, b, cmds)
    } else {
        main_key_outcome(key, a, b, cmds)
    }
}

/// Keys while the key reference is open: escape dismisses it.
pub fn handle_key_event_keybinding_popup(key: KeyInput, app: &mut App) -> (cmds: Vec<Command>)
    requires
        old(app).inv(),
    ensures
        final(app).inv(),
        keybinding_popup_outcome(key, *old(app), *final(app), cmds@),
{
    let cmds: Vec<Command> = Vec::new();
    if key == KeyInput::Esc {
        app.sink_input_view_data.close_keybinding_popup();
        app.redraw = true;
    }
    cmds
}

/// One keystroke for this view, dispatched to the open popup or to the view
/// proper.
pub fn handle_key_event(key: KeyInput, app: &mut App) -> (cmds: Vec<Command>)
    requires
        old(app).inv(),
    ensures
        final(app).inv(),
        view_key_outcome(key, *old(app), *final(app), cmds@),
{
    if app.sink_input_view_data.keybinding_popup_open {
        handle_key_event_keybinding_popup(key, app)
    } else if app.sink_input_view_data.sink_popup_open {
        handle_key_event_sink_popup(key, app)
    } else {
        handle_key_event_main(key, app)
    }
}

} // verus!
