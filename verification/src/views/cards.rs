//! The card view: per-view transient state and its key handling.

use vstd::prelude::*;
use crate::state::App;
use crate::state::Command;
use crate::state::KeyInput;
use crate::state::only_cards_view_touched;

verus! {

/// Transient display state of the card view.
pub struct ViewData {
    pub keybinding_popup_open: bool,
}

impl ViewData {
    pub fn open_keybinding_popup(&mut self)
        ensures
            *final(self) == (ViewData { keybinding_popup_open: true }),
    {
        self.keybinding_popup_open = true;
    }

    pub fn close_keybinding_popup(&mut self)
        ensures
            *final(self) == (ViewData { keybinding_popup_open: false }),
    {
        self.keybinding_popup_open = false;
    }
}

impl Default for ViewData {
    fn default() -> (r: ViewData)
        ensures
            r == (ViewData { keybinding_popup_open: false }),
    {
        ViewData { keybinding_popup_open: false }
    }
}

/// Entering the view dismisses any popup left open in it.
pub fn entered(app: &mut App)
    requires
        old(app).inv(),
    ensures
        final(app).inv(),
        final(app).card_view_data == (ViewData { keybinding_popup_open: false }),
        crate::state::only_cards_view_touched(*old(app), *final(app)),
        final(app).card_list == old(app).card_list,
        final(app).redraw == old(app).redraw,
{
    app.card_view_data.close_keybinding_popup();
}

/// What one keystroke does in the view proper, relating the state before
/// (`a`) to the state after (`b`) and to the commands handed back. Any key
/// pressed with a card selected reaches for the entry and so marks the
/// registry changed, as the display may depend on it.
pub open spec fn main_key_outcome(key: KeyInput, a: App, b: App, cmds: Seq<Command>) -> bool {
    &&& only_cards_view_touched(a, b)
    &&& b.card_list.key_seq() == a.card_list.key_seq()
    &&& ({
            let l0 = a.card_list;
            if key == KeyInput::Char('?') {
                &&& b.card_view_data.keybinding_popup_open
                &&& b.redraw
                &&& b.card_list == l0
                &&& cmds.len() == 0
            } else if l0.selected_key() is None {
                &&& b == a
                &&& cmds.len() == 0
            } else {
                let k0 = l0.selected_key()->0;
                let e = l0@[k0];
                &&& b.redraw == a.redraw
                &&& b.card_view_data == a.card_view_data
                &&& b.card_list.is_changed()
                &&& if key == KeyInput::Char('j') || key == KeyInput::Down {
                    &&& cmds.len() == 0
                    &&& b.card_list@ == l0@
                    &&& b.card_list.selected_key() == (match l0.spec_next_key(k0) {
                        Option::Some(n) => Option::Some(n),
                        Option::None => Option::Some(k0),
                    })
                } else if key == KeyInput::Char('k') || key == KeyInput::Up {
                    &&& cmds.len() == 0
                    &&& b.card_list@ == l0@
                    &&& b.card_list.selected_key() == (match l0.spec_prev_key(k0) {
                        Option::Some(n) => Option::Some(n),
                        Option::None => Option::Some(k0),
                    })
                } else if key == KeyInput::Char('+') {
                    &&& cmds.len() == 0
                    &&& b.card_list.selected_key() == l0.selected_key()
                    &&& match e.selected_profile_index {
                        Option::Some(i) => b.card_list@ == l0@.insert(
                            k0,
                            e.with_selected_profile(
                                Option::Some(
                                    if i + 1 < e.profiles@.len() {
                                        (i + 1) as usize
                                    } else {
                                        (e.profiles@.len() - 1) as usize
                                    },
                                ),
                            ),
                        ),
                        Option::None => b.card_list@ == l0@,
                    }
                } else if key == KeyInput::Char('-') {
                    &&& cmds.len() == 0
                    &&& b.card_list.selected_key() == l0.selected_key()
                    &&& match e.selected_profile_index {
                        Option::Some(i) => b.card_list@ == l0@.insert(
                            k0,
                            e.with_selected_profile(
                                Option::Some(
                                    if i == 0 {
                                        0usize
                                    } else {
                                        (i - 1) as usize
                                    },
                                ),
                            ),
                        ),
                        Option::None => b.card_list@ == l0@,
                    }
                } else if key == KeyInput::Char('\n') {
                    &&& b.card_list@ == l0@
                    &&& b.card_list.selected_key() == l0.selected_key()
                    &&& match e.selected_profile_index {
                        Option::Some(i) => cmds.len() == 1 && (cmds[0]
                            matches Command::SetCardProfile { index, profile } && index == e.index
                            && profile@ == e.profiles@[i as int].name@),
                        Option::None => cmds.len() == 0,
                    }
                } else {
                    &&& cmds.len() == 0
                    &&& b.card_list@ == l0@
                    &&& b.card_list.selected_key() == l0.selected_key()
                }
            }
        })
}

/// Keys in the view proper: navigation moves the selection; plus and minus
/// move the highlighted profile of the selected card; return asks the server
/// to switch to it. Any key pressed with a card selected reaches for the
/// entry and so marks the registry changed, as the display may depend on it.
pub fn handle_key_event_main(key: KeyInput, app: &mut App) -> (cmds: Vec<Command>)
    requires
        old(app).inv(),
    ensures
        final(app).inv(),
        main_key_outcome(key, *old(app), *final(app), cmds@),
{
    let mut cmds: Vec<Command> = Vec::new();
    if key == KeyInput::Char('?') {
        app.card_view_data.open_keybinding_popup();
        app.redraw = true;
        return cmds;
    }
    if app.card_list.len() == 0 {
        return cmds;
    }
    let ghost l0 = app.card_list;
    proof {
        crate::selecting_map::lemma_seq_to_map_dom(l0.entries());
        let k0 = l0.selected_key()->0;
        assert(l0@.dom().contains(k0));
        assert(l0@[k0].wf());
    }
    let card = app.card_list.get_selected_mut();
    let ghost e = *card;
    match key {
        KeyInput::Char('j') | KeyInput::Down => {
            proof {
                assert(app.card_list@ =~= l0@);
                crate::selecting_map::lemma_sorted_keys_distinct(l0.entries());
                crate::selecting_map::lemma_seq_to_map_index(
                    l0.entries(),
                    l0.spec_index_of(l0.selected_key()->0),
                );
                assert(app.card_list.entries() =~= l0.entries());
            }
            app.card_list.select_next();
        },
        KeyInput::Char('k') | KeyInput::Up => {
            proof {
                assert(app.card_list@ =~= l0@);
                crate::selecting_map::lemma_sorted_keys_distinct(l0.entries());
                crate::selecting_map::lemma_seq_to_map_index(
                    l0.entries(),
                    l0.spec_index_of(l0.selected_key()->0),
                );
                assert(app.card_list.entries() =~= l0.entries());
            }
            app.card_list.select_prev();
        },
        KeyInput::Char('+') => {
            proof {
                assert(*card == l0@[l0.selected_key()->0]);
                assert((*card).wf());
            }
            if let Some(i) = card.selected_profile_index {
                let plen = card.profiles.len();
                let ni = if i + 1 < plen {
                    i + 1
                } else {
                    plen - 1
                };
                card.selected_profile_index = Some(ni);
            }
            proof {
                if e.selected_profile_index is None {
                    assert(app.card_list@ =~= l0@);
                }
            }
        },
        KeyInput::Char('-') => {
            proof {
                assert(*card == l0@[l0.selected_key()->0]);
                assert((*card).wf());
            }
            if let Some(i) = card.selected_profile_index {
                let ni = if i == 0 {
                    0
                } else {
                    i - 1
                };
                card.selected_profile_index = Some(ni);
            }
            proof {
                if e.selected_profile_index is None {
                    assert(app.card_list@ =~= l0@);
                }
                assert(app.card_list@ =~= l0@.insert(l0.selected_key()->0, *card));
            }
        },
        KeyInput::Char('\n') => {
            proof {
                assert(*card == l0@[l0.selected_key()->0]);
                assert((*card).wf());
            }
            if let Some(i) = card.selected_profile_index {
                let name = card.profiles[i].name.clone();
                let idx = card.index;
                cmds.push(Command::SetCardProfile { index: idx, profile: name });
            }
            proof {
                assert(app.card_list@ =~= l0@);
            }
        },
        _ => {
            proof {
                assert(app.card_list@ =~= l0@);
            }
        },
    }
    cmds
}

/// What one keystroke does while the key reference is open: escape dismisses
/// it, everything else is ignored.
pub open spec fn keybinding_popup_outcome(key: KeyInput, a: App, b: App, cmds: Seq<
    Command,
>) -> bool {
    &&& only_cards_view_touched(a, b)
    &&& cmds.len() == 0
    &&& b.card_list == a.card_list
    &&& if key == KeyInput::Esc {
        &&& !b.card_view_data.keybinding_popup_open
        &&& b.redraw
    } else {
        b == a
    }
}

/// What one keystroke does in this view: the open popup sees it first.
pub open spec fn view_key_outcome(key: KeyInput, a: App, b: App, cmds: Seq<Command>) -> bool {
    if a.card_view_data.keybinding_popup_open {
        keybinding_popup_outcome(key, a, b, cmds)
    } else {
        main_key_outcome(key, a, b, cmds)
    }
}

/// Keys while the key reference is open: escape dismisses it.
pub fn handle_key_event_keybinding_popup(key: KeyInput, app: &mut App) -> (cmds: Vec<Command>)
    requires
        old(app).inv(),
    ensures
        final(app).inv(),
        keybinding_popup_outcome(key, *old(app), *final(app), cmds@),
{
    let cmds: Vec<Command> = Vec::new();
    if key == KeyInput::Esc {
        app.card_view_data.close_keybinding_popup();
        app.redraw = true;
    }
    cmds
}

/// One keystroke for this view, dispatched to the open popup or to the view
/// proper.
pub fn handle_key_event(key: KeyInput, app: &mut App) -> (cmds: Vec<Command>)
    requires
        old(app).inv(),
    ensures
        final(app).inv(),
        view_key_outcome(key, *old(app), *final(app), cmds@),
{
    if app.card_view_data.keybinding_popup_open {
        handle_key_event_keybinding_popup(key, app)
    } else {
        handle_key_event_main(key, app)
    }
}

} // verus!
