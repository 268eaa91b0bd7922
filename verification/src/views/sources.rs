//! The input-device view: per-view transient state and its key handling.

use vstd::prelude::*;
use crate::entries::NotMonitor;
use crate::state::App;
use crate::state::Command;
use crate::state::KeyInput;
use crate::state::only_sources_view_touched;
use crate::state::spec_volume_for_key;
use crate::state::volume_for_key;

verus! {

/// Transient display state of the input-device view.
pub struct ViewData {
    pub keybinding_popup_open: bool,
}

impl ViewData {
    pub fn open_keybinding_popup(&mut self)
        ensures
            *final(self) == (ViewData { keybinding_popup_open: true }),
    {
        self.keybinding_popup_open = true;
    }

    pub fn close_keybinding_popup(&mut self)
        ensures
            *final(self) == (ViewData { keybinding_popup_open: false }),
    {
        self.keybinding_popup_open = false;
    }
}

impl Default for ViewData {
    fn default() -> (r: ViewData)
        ensures
            r == (ViewData { keybinding_popup_open: false }),
    {
        ViewData { keybinding_popup_open: false }
    }
}

/// Entering the view dismisses any popup left open in it.
pub fn entered(app: &mut App)
    requires
        old(app).inv(),
    ensures
        final(app).inv(),
        final(app).source_view_data == (ViewData { keybinding_popup_open: false }),
        crate::state::only_sources_view_touched(*old(app), *final(app)),
        final(app).source_list == old(app).source_list,
        final(app).redraw == old(app).redraw,
{
    app.source_view_data.close_keybinding_popup();
}

/// What one keystroke does in the view proper, relating the state before
/// (`a`) to the state after (`b`) and to the commands handed back. With
/// monitors hidden, navigation skips monitor sources, and mutation keys are
/// ignored while a monitor happens to be selected.
pub open spec fn main_key_outcome(key: KeyInput, a: App, b: App, cmds: Seq<Command>) -> bool {
    &&& only_sources_view_touched(a, b)
    &&& b.source_list.entries() == a.source_list.entries()
    &&& ({
        let l0 = a.source_list;
        let hide = a.hide_monitors;
        if key == KeyInput::Char('?') {
            &&& b.source_view_data.keybinding_popup_open
            &&& b.redraw
            &&& b.source_list == l0
            &&& cmds.len() == 0
        } else if l0.selected_key() is None {
            &&& b == a
            &&& cmds.len() == 0
        } else {
            let k0 = l0.selected_key()->0;
            let e = l0@[k0];
            if key == KeyInput::Char('j') || key == KeyInput::Down {
                &&& cmds.len() == 0
                &&& b.redraw == a.redraw
                &&& b.source_view_data == a.source_view_data
                &&& match (if hide {
                    l0.spec_filtered_next_key(k0, NotMonitor)
                } else {
                    l0.spec_next_key(k0)
                }) {
                    Option::Some(n) => b.source_list.selected_key() == Option::Some(n)
                        && b.source_list.is_changed(),
                    Option::None => b.source_list == l0,
                }
            } else if key == KeyInput::Char('k') || key == KeyInput::Up {
                &&& cmds.len() == 0
                &&& b.redraw == a.redraw
                &&& b.source_view_data == a.source_view_data
                &&& match (if hide {
                    l0.spec_filtered_prev_key(k0, NotMonitor)
                } else {
                    l0.spec_prev_key(k0)
                }) {
                    Option::Some(n) => b.source_list.selected_key() == Option::Some(n)
                        && b.source_list.is_changed(),
                    Option::None => b.source_list == l0,
                }
            } else if hide && e.monitor_of_sink is Some {
                &&& b == a
                &&& cmds.len() == 0
            } else if key == KeyInput::Char('m') {
                &&& b == a
                &&& cmds.len() == 1
                &&& cmds[0] == (Command::SetSourceMute { index: e.index, mute: !e.mute })
            } else if spec_volume_for_key(key, e.volume@) is Some {
                &&& b == a
                &&& cmds.len() == 1
                &&& cmds[0] matches Command::SetSourceVolume { index, volume } && index == e.index
                    && volume@ == spec_volume_for_key(key, e.volume@)->0
            } else if key == KeyInput::Char('D') {
                &&& b == a
                &&& match e.owner_module {
                    Option::Some(om) => cmds.len() == 1 && cmds[0] == (Command::UnloadModule {
                        index: om,
                    }),
                    Option::None => cmds.len() == 0,
                }
            } else {
                &&& b == a
                &&& cmds.len() == 0
            }
        }
    })
}

/// What one keystroke does while the key reference is open: escape dismisses
/// it, everything else is ignored.
pub open spec fn keybinding_popup_outcome(key: KeyInput, a: App, b: App, cmds: Seq<
    Command,
>) -> bool {
    &&& only_sources_view_touched(a, b)
    &&& cmds.len() == 0
    &&& b.source_list == a.source_list
    &&& if key == KeyInput::Esc {
        &&& !b.source_view_data.keybinding_popup_open
        &&& b.redraw
    } else {
        b == a
    }
}

/// What one keystroke does in this view: the open popup sees it first.
pub open spec fn view_key_outcome(key: KeyInput, a: App, b: App, cmds: Seq<Command>) -> bool {
    if a.source_view_data.keybinding_popup_open {
        keybinding_popup_outcome(key, a, b, cmds)
    } else {
        main_key_outcome(key, a, b, cmds)
    }
}

/// Keys in the view proper. With monitors hidden, navigation skips monitor
/// sources, and mute, volume and module-unload keys are ignored while a
/// monitor happens to be selected.
pub fn handle_key_event_main(key: KeyInput, app: &mut App) -> (cmds: Vec<Command>)
    requires
        old(app).inv(),
    ensures
        final(app).inv(),
        main_key_outcome(key, *old(app), *final(app), cmds@),
{
    let mut cmds: Vec<Command> = Vec::new();
    if key == KeyInput::Char('?') {
        app.source_view_data.open_keybinding_popup();
        app.redraw = true;
        return cmds;
    }
    if app.source_list.len() == 0 {
        return cmds;
    }
    match key {
        KeyInput::Char('j') | KeyInput::Down => {
            if app.hide_monitors {
                app.source_list.filtered_select_next(&NotMonitor);
            } else {
                app.source_list.select_next();
            }
        },
        KeyInput::Char('k') | KeyInput::Up => {
            if app.hide_monitors {
                app.source_list.filtered_select_prev(&NotMonitor);
            } else {
                app.source_list.select_prev();
            }
        },
        _ => {
            let hide = app.hide_monitors;
            if let Some(e) = app.source_list.get_selected() {
                if hide && e.is_monitor() {
                    return cmds;
                }
                if key == KeyInput::Char('m') {
                    cmds.push(Command::SetSourceMute { index: e.index, mute: !e.mute });
                } else if let Some(nv) = volume_for_key(key, &e.volume) {
                    cmds.push(Command::SetSourceVolume { index: e.index, volume: nv });
                } else if key == KeyInput::Char('D') {
                    if let Some(om) = e.owner_module {
                        cmds.push(Command::UnloadModule { index: om });
                    }
                }
            }
        },
    }
    cmds
}

/// Keys while the key reference is open: escape dismisses it.
pub fn handle_key_event_keybinding_popup(key: KeyInput, app: &mut App) -> (cmds: Vec<Command>)
    requires
        old(app).inv(),
    ensures
        final(app).inv(),
        keybinding_popup_outcome(key, *old(app), *final(app), cmds@),
{
    let cmds: Vec<Command> = Vec::new();
    if key == KeyInput::Esc {
        app.source_view_data.close_keybinding_popup();
        app.redraw = true;
    }
    cmds
}

/// One keystroke for this view, dispatched to the open popup or to the view
/// proper.
pub fn handle_key_event(key: KeyInput, app: &mut App) -> (cmds: Vec<Command>)
    requires
        old(app).inv(),
    ensures
        final(app).inv(),
        view_key_outcome(key, *old(app), *final(app), cmds@),
{
    if app.source_view_data.keybinding_popup_open {
        handle_key_event_keybinding_popup(key, app)
    } else {
        handle_key_event_main(key, app)
    }
}

} // verus!
