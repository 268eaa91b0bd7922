//! The shared application state: one registry per entity category, the
//! per-view transient data, the active view, and the global flags. A single
//! lock owned by the surrounding program guards one value of [`App`]; every
//! function here is one critical section's worth of work. Mutation commands
//! are not sent from here: handlers return [`Command`] values for the caller
//! to issue, fire-and-forget, after the lock is released.

use vstd::prelude::*;
use crate::entries::CardEntry;
use crate::entries::SinkEntry;
use crate::entries::SinkInputEntry;
use crate::entries::SourceEntry;
use crate::entries::SourceOutputEntry;
use crate::entries::Volumes;
use crate::entries::source_keyed;
use crate::entries::spec_decreased;
use crate::entries::spec_increased;
use crate::entries::VOLUME_MUTED;
use crate::entries::VOLUME_NORM;
use crate::selecting_map::SelectingMap;
use crate::VOLUME_STEP_BIG;
use crate::VOLUME_STEP_SMALL;

verus! {

/// The five tabs of the panel, one per entity category.
#[derive(Clone, Copy, PartialEq, Eq, Structural)]
pub enum AppView {
    SinkInputs,
    SourceOutputs,
    Sinks,
    Sources,
    Cards,
}

/// The tab after `v` in cycling order.
pub open spec fn spec_next_view(v: AppView) -> AppView {
    match v {
        AppView::SinkInputs => AppView::SourceOutputs,
        AppView::SourceOutputs => AppView::Sinks,
        AppView::Sinks => AppView::Sources,
        AppView::Sources => AppView::Cards,
        AppView::Cards => AppView::SinkInputs,
    }
}

/// One keystroke, as the input reader hands it over.
#[derive(Clone, Copy, PartialEq, Eq, Structural)]
pub enum KeyInput {
    Char(char),
    Ctrl(char),
    Func(u8),
    Up,
    Down,
    Left,
    Right,
    Esc,
}

/// The entity category a server notification concerns.
#[derive(Clone, Copy, PartialEq, Eq, Structural)]
pub enum Facility {
    SinkInput,
    SourceOutput,
    Sink,
    Source,
    Card,
}

/// A fetched snapshot, ready to be folded into the matching registry.
pub enum EntityUpdate {
    SinkInput(SinkInputEntry),
    SourceOutput(SourceOutputEntry),
    Sink(SinkEntry),
    Source(SourceEntry),
    Card(CardEntry),
}

/// A fire-and-forget mutation request for the audio server. No result is
/// observed; a confirmation, if any, arrives later as a change notification.
#[derive(Clone, Debug, PartialEq, Eq)]
pub enum Command {
    SetSinkInputVolume { index: u32, volume: Volumes },
    SetSinkInputMute { index: u32, mute: bool },
    KillSinkInput { index: u32 },
    MoveSinkInput { index: u32, sink: u32 },
    SetSourceOutputVolume { index: u32, volume: Volumes },
    SetSourceOutputMute { index: u32, mute: bool },
    KillSourceOutput { index: u32 },
    MoveSourceOutput { index: u32, source: u32 },
    SetSinkVolume { index: u32, volume: Volumes },
    SetSinkMute { index: u32, mute: bool },
    SetSourceVolume { index: u32, volume: Volumes },
    SetSourceMute { index: u32, mute: bool },
    SetCardProfile { index: u32, profile: String },
    UnloadModule { index: u32 },
}

/// All shared state of the panel.
pub struct App {
    pub sink_input_list: SelectingMap<SinkInputEntry>,
    pub source_output_list: SelectingMap<SourceOutputEntry>,
    pub sink_list: SelectingMap<SinkEntry>,
    pub source_list: SelectingMap<SourceEntry>,
    pub card_list: SelectingMap<CardEntry>,
    pub sink_input_view_data: crate::views::sink_inputs::ViewData,
    pub source_output_view_data: crate::views::source_outputs::ViewData,
    pub sink_view_data: crate::views::sinks::ViewData,
    pub source_view_data: crate::views::sources::ViewData,
    pub card_view_data: crate::views::cards::ViewData,
    pub redraw: bool,
    pub view: AppView,
    pub hide_monitors: bool,
    pub quit_request: bool,
}

impl App {
    /// Every registry is well formed, the source registry is keyed by the
    /// sources' own identifiers, and every stored card keeps its profile
    /// indices in range.
    pub open spec fn inv(self) -> bool {
        &&& self.sink_input_list.inv()
        &&& self.source_output_list.inv()
        &&& self.sink_list.inv()
        &&& self.source_list.inv()
        &&& self.card_list.inv()
        &&& source_keyed(self.source_list)
        &&& forall|k: u32| #[trigger] self.card_list@.dom().contains(k) ==> self.card_list@[k].wf()
    }

    pub fn new() -> (r: App)
        ensures
            r.inv(),
            r.sink_input_list@ == Map::<u32, SinkInputEntry>::empty(),
            r.source_output_list@ == Map::<u32, SourceOutputEntry>::empty(),
            r.sink_list@ == Map::<u32, SinkEntry>::empty(),
            r.source_list@ == Map::<u32, SourceEntry>::empty(),
            r.card_list@ == Map::<u32, CardEntry>::empty(),
            r.redraw,
            r.view == AppView::SinkInputs,
            r.hide_monitors,
            !r.quit_request,
    {
        App {
            sink_input_list: SelectingMap::new(),
            source_output_list: SelectingMap::new(),
            sink_list: SelectingMap::new(),
            source_list: SelectingMap::new(),
            card_list: SelectingMap::new(),
            sink_input_view_data: Default::default(),
            source_output_view_data: Default::default(),
            sink_view_data: Default::default(),
            source_view_data: Default::default(),
            card_view_data: Default::default(),
            redraw: true,
            view: AppView::SinkInputs,
            hide_monitors: true,
            quit_request: false,
        }
    }
}

/// Nothing changed between `a` and `b` except possibly the playback-stream
/// registry, its view data, and the redraw flag.
pub open spec fn only_sink_inputs_view_touched(a: App, b: App) -> bool {
    &&& b.source_output_list == a.source_output_list
    &&& b.sink_list == a.sink_list
    &&& b.source_list == a.source_list
    &&& b.card_list == a.card_list
    &&& b.source_output_view_data == a.source_output_view_data
    &&& b.sink_view_data == a.sink_view_data
    &&& b.source_view_data == a.source_view_data
    &&& b.card_view_data == a.card_view_data
    &&& b.view == a.view
    &&& b.hide_monitors == a.hide_monitors
    &&& b.quit_request == a.quit_request
}

/// Nothing changed between `a` and `b` except possibly the capture-stream
/// registry, its view data, and the redraw flag.
pub open spec fn only_source_outputs_view_touched(a: App, b: App) -> bool {
    &&& b.sink_input_list == a.sink_input_list
    &&& b.sink_list == a.sink_list
    &&& b.source_list == a.source_list
    &&& b.card_list == a.card_list
    &&& b.sink_input_view_data == a.sink_input_view_data
    &&& b.sink_view_data == a.sink_view_data
    &&& b.source_view_data == a.source_view_data
    &&& b.card_view_data == a.card_view_data
    &&& b.view == a.view
    &&& b.hide_monitors == a.hide_monitors
    &&& b.quit_request == a.quit_request
}

/// Nothing changed between `a` and `b` except possibly the output-device
/// registry, its view data, and the redraw flag.
pub open spec fn only_sinks_view_touched(a: App, b: App) -> bool {
    &&& b.sink_input_list == a.sink_input_list
    &&& b.source_output_list == a.source_output_list
    &&& b.source_list == a.source_list
    &&& b.card_list == a.card_list
    &&& b.sink_input_view_data == a.sink_input_view_data
    &&& b.source_output_view_data == a.source_output_view_data
    &&& b.source_view_data == a.source_view_data
    &&& b.card_view_data == a.card_view_data
    &&& b.view == a.view
    &&& b.hide_monitors == a.hide_monitors
    &&& b.quit_request == a.quit_request
}

/// Nothing changed between `a` and `b` except possibly the input-device
/// registry, its view data, and the redraw flag.
pub open spec fn only_sources_view_touched(a: App, b: App) -> bool {
    &&& b.sink_input_list == a.sink_input_list
    &&& b.source_output_list == a.source_output_list
    &&& b.sink_list == a.sink_list
    &&& b.card_list == a.card_list
    &&& b.sink_input_view_data == a.sink_input_view_data
    &&& b.source_output_view_data == a.source_output_view_data
    &&& b.sink_view_data == a.sink_view_data
    &&& b.card_view_data == a.card_view_data
    &&& b.view == a.view
    &&& b.hide_monitors == a.hide_monitors
    &&& b.quit_request == a.quit_request
}

/// Nothing changed between `a` and `b` except possibly the card registry,
/// its view data, and the redraw flag.
pub open spec fn only_cards_view_touched(a: App, b: App) -> bool {
    &&& b.sink_input_list == a.sink_input_list
    &&& b.source_output_list == a.source_output_list
    &&& b.sink_list == a.sink_list
    &&& b.source_list == a.source_list
    &&& b.sink_input_view_data == a.sink_input_view_data
    &&& b.source_output_view_data == a.source_output_view_data
    &&& b.sink_view_data == a.sink_view_data
    &&& b.source_view_data == a.source_view_data
    &&& b.view == a.view
    &&& b.hide_monitors == a.hide_monitors
    &&& b.quit_request == a.quit_request
}

/// The active view's unconsumed dirty flag, before a poll consumes it.
pub open spec fn spec_active_changed(a: App) -> bool {
    match a.view {
        AppView::SinkInputs => a.sink_input_list.is_changed(),
        AppView::SourceOutputs => a.source_output_list.is_changed(),
        AppView::Sinks => a.sink_list.is_changed(),
        AppView::Sources => a.source_list.is_changed(),
        AppView::Cards => a.card_list.is_changed(),
    }
}

/// The render loop's redraw decision: consumes the active view's dirty flag
/// and the global force-redraw flag in one step, so that any number of
/// mutations between two polls collapse into exactly one redraw. A registry
/// whose view is inactive keeps its flag set for later.
pub fn take_redraw(app: &mut App) -> (b: bool)
    requires
        old(app).inv(),
    ensures
        final(app).inv(),
        b == (spec_active_changed(*old(app)) || old(app).redraw),
        !final(app).redraw,
        !spec_active_changed(*final(app)),
        final(app).sink_input_list.is_changed() == (old(app).view != AppView::SinkInputs && old(
            app,
        ).sink_input_list.is_changed()),
        final(app).source_output_list.is_changed() == (old(app).view != AppView::SourceOutputs
            && old(app).source_output_list.is_changed()),
        final(app).sink_list.is_changed() == (old(app).view != AppView::Sinks && old(
            app,
        ).sink_list.is_changed()),
        final(app).source_list.is_changed() == (old(app).view != AppView::Sources && old(
            app,
        ).source_list.is_changed()),
        final(app).card_list.is_changed() == (old(app).view != AppView::Cards && old(
            app,
        ).card_list.is_changed()),
        final(app).sink_input_list.entries() == old(app).sink_input_list.entries(),
        final(app).source_output_list.entries() == old(app).source_output_list.entries(),
        final(app).sink_list.entries() == old(app).sink_list.entries(),
        final(app).source_list.entries() == old(app).source_list.entries(),
        final(app).card_list.entries() == old(app).card_list.entries(),
        final(app).sink_input_list.selected_key() == old(app).sink_input_list.selected_key(),
        final(app).source_output_list.selected_key() == old(app).source_output_list.selected_key(),
        final(app).sink_list.selected_key() == old(app).sink_list.selected_key(),
        final(app).source_list.selected_key() == old(app).source_list.selected_key(),
        final(app).card_list.selected_key() == old(app).card_list.selected_key(),
        final(app).sink_input_view_data == old(app).sink_input_view_data,
        final(app).source_output_view_data == old(app).source_output_view_data,
        final(app).sink_view_data == old(app).sink_view_data,
        final(app).source_view_data == old(app).source_view_data,
        final(app).card_view_data == old(app).card_view_data,
        final(app).view == old(app).view,
        final(app).hide_monitors == old(app).hide_monitors,
        final(app).quit_request == old(app).quit_request,
{
    let mut b = match app.view {
        AppView::SinkInputs => app.sink_input_list.reset_changed(),
        AppView::SourceOutputs => app.source_output_list.reset_changed(),
        AppView::Sinks => app.sink_list.reset_changed(),
        AppView::Sources => app.source_list.reset_changed(),
        AppView::Cards => app.card_list.reset_changed(),
    };
    if app.redraw {
        b = true;
        app.redraw = false;
    }
    proof {
        assert(app.card_list@ == old(app).card_list@);
        assert forall|k: u32| #[trigger] app.card_list@.dom().contains(k)
            implies app.card_list@[k].wf() by {
            assert(old(app).card_list@.dom().contains(k));
        }
    }
    b
}

/// Folds a fetched snapshot into the registry of its category, keyed by the
/// entity's own identifier. Upserting is idempotent: for one key, the last
/// snapshot applied wins, so out-of-order fetch results are tolerated.
pub fn apply_update(app: &mut App, update: EntityUpdate)
    requires
        old(app).inv(),
        update matches EntityUpdate::Card(c) ==> c.wf(),
    ensures
        final(app).inv(),
        final(app).view == old(app).view,
        final(app).hide_monitors == old(app).hide_monitors,
        final(app).quit_request == old(app).quit_request,
        final(app).redraw == old(app).redraw,
        final(app).sink_input_view_data == old(app).sink_input_view_data,
        final(app).source_output_view_data == old(app).source_output_view_data,
        final(app).sink_view_data == old(app).sink_view_data,
        final(app).source_view_data == old(app).source_view_data,
        final(app).card_view_data == old(app).card_view_data,
        match update {
            EntityUpdate::SinkInput(e) => {
                &&& final(app).sink_input_list@ == old(app).sink_input_list@.insert(e.index, e)
                &&& final(app).sink_input_list.is_changed()
                &&& final(app).sink_input_list.selected_key() == if old(
                    app,
                ).sink_input_list.selected_key() is Some {
                    old(app).sink_input_list.selected_key()
                } else {
                    Option::Some(e.index)
                }
                &&& final(app).source_output_list == old(app).source_output_list
                &&& final(app).sink_list == old(app).sink_list
                &&& final(app).source_list == old(app).source_list
                &&& final(app).card_list == old(app).card_list
            },
            EntityUpdate::SourceOutput(e) => {
                &&& final(app).source_output_list@ == old(app).source_output_list@.insert(
                    e.index,
                    e,
                )
                &&& final(app).source_output_list.is_changed()
                &&& final(app).source_output_list.selected_key() == if old(
                    app,
                ).source_output_list.selected_key() is Some {
                    old(app).source_output_list.selected_key()
                } else {
                    Option::Some(e.index)
                }
                &&& final(app).sink_input_list == old(app).sink_input_list
                &&& final(app).sink_list == old(app).sink_list
                &&& final(app).source_list == old(app).source_list
                &&& final(app).card_list == old(app).card_list
            },
            EntityUpdate::Sink(e) => {
                &&& final(app).sink_list@ == old(app).sink_list@.insert(e.index, e)
                &&& final(app).sink_list.is_changed()
                &&& final(app).sink_list.selected_key() == if old(
                    app,
                ).sink_list.selected_key() is Some {
                    old(app).sink_list.selected_key()
                } else {
                    Option::Some(e.index)
                }
                &&& final(app).sink_input_list == old(app).sink_input_list
                &&& final(app).source_output_list == old(app).source_output_list
                &&& final(app).source_list == old(app).source_list
                &&& final(app).card_list == old(app).card_list
            },
            EntityUpdate::Source(e) => {
                &&& final(app).source_list@ == old(app).source_list@.insert(e.index, e)
                &&& final(app).source_list.is_changed()
                &&& final(app).source_list.selected_key() == if old(
                    app,
                ).source_list.selected_key() is Some {
                    old(app).source_list.selected_key()
                } else {
                    Option::Some(e.index)
                }
                &&& final(app).sink_input_list == old(app).sink_input_list
                &&& final(app).source_output_list == old(app).source_output_list
                &&& final(app).sink_list == old(app).sink_list
                &&& final(app).card_list == old(app).card_list
            },
            EntityUpdate::Card(e) => {
                &&& final(app).card_list@ == old(app).card_list@.insert(e.index, e)
                &&& final(app).card_list.is_changed()
                &&& final(app).card_list.selected_key() == if old(
                    app,
                ).card_list.selected_key() is Some {
                    old(app).card_list.selected_key()
                } else {
                    Option::Some(e.index)
                }
                &&& final(app).sink_input_list == old(app).sink_input_list
                &&& final(app).source_output_list == old(app).source_output_list
                &&& final(app).sink_list == old(app).sink_list
                &&& final(app).source_list == old(app).source_list
            },
        },
{
    match update {
        EntityUpdate::SinkInput(e) => {
            let index = e.index;
            app.sink_input_list.update(index, e);
        },
        EntityUpdate::SourceOutput(e) => {
            let index = e.index;
            app.source_output_list.update(index, e);
        },
        EntityUpdate::Sink(e) => {
            let index = e.index;
            app.sink_list.update(index, e);
        },
        EntityUpdate::Source(e) => {
            let index = e.index;
            app.source_list.update(index, e);
        },
        EntityUpdate::Card(e) => {
            let index = e.index;
            app.card_list.update(index, e);
        },
    }
}

/// Applies a removal notification to the registry of its category. One for
/// an identifier that is not present (already gone, or never seen) is
/// silently ignored.
pub fn apply_removal(app: &mut App, facility: Facility, index: u32) -> (removed: bool)
    requires
        old(app).inv(),
    ensures
        final(app).inv(),
        final(app).view == old(app).view,
        final(app).hide_monitors == old(app).hide_monitors,
        final(app).quit_request == old(app).quit_request,
        final(app).redraw == old(app).redraw,
        final(app).sink_input_view_data == old(app).sink_input_view_data,
        final(app).source_output_view_data == old(app).source_output_view_data,
        final(app).sink_view_data == old(app).sink_view_data,
        final(app).source_view_data == old(app).source_view_data,
        final(app).card_view_data == old(app).card_view_data,
        removed == match facility {
            Facility::SinkInput => old(app).sink_input_list@.dom().contains(index),
            Facility::SourceOutput => old(app).source_output_list@.dom().contains(index),
            Facility::Sink => old(app).sink_list@.dom().contains(index),
            Facility::Source => old(app).source_list@.dom().contains(index),
            Facility::Card => old(app).card_list@.dom().contains(index),
        },
        !removed ==> *final(app) == *old(app),
        removed ==> match facility {
            Facility::SinkInput => {
                &&& final(app).sink_input_list@ == old(app).sink_input_list@.remove(index)
                &&& final(app).sink_input_list.is_changed()
                &&& final(app).sink_input_list.selected_key() == removal_selection(
                    old(app).sink_input_list,
                    index,
                )
                &&& final(app).source_output_list == old(app).source_output_list
                &&& final(app).sink_list == old(app).sink_list
                &&& final(app).source_list == old(app).source_list
                &&& final(app).card_list == old(app).card_list
            },
            Facility::SourceOutput => {
                &&& final(app).source_output_list@ == old(app).source_output_list@.remove(index)
                &&& final(app).source_output_list.is_changed()
                &&& final(app).source_output_list.selected_key() == removal_selection(
                    old(app).source_output_list,
                    index,
                )
                &&& final(app).sink_input_list == old(app).sink_input_list
                &&& final(app).sink_list == old(app).sink_list
                &&& final(app).source_list == old(app).source_list
                &&& final(app).card_list == old(app).card_list
            },
            Facility::Sink => {
                &&& final(app).sink_list@ == old(app).sink_list@.remove(index)
                &&& final(app).sink_list.is_changed()
                &&& final(app).sink_list.selected_key() == removal_selection(
                    old(app).sink_list,
                    index,
                )
                &&& final(app).sink_input_list == old(app).sink_input_list
                &&& final(app).source_output_list == old(app).source_output_list
                &&& final(app).source_list == old(app).source_list
                &&& final(app).card_list == old(app).card_list
            },
            Facility::Source => {
                &&& final(app).source_list@ == old(app).source_list@.remove(index)
                &&& final(app).source_list.is_changed()
                &&& final(app).source_list.selected_key() == removal_selection(
                    old(app).source_list,
                    index,
                )
                &&& final(app).sink_input_list == old(app).sink_input_list
                &&& final(app).source_output_list == old(app).source_output_list
                &&& final(app).sink_list == old(app).sink_list
                &&& final(app).card_list == old(app).card_list
            },
            Facility::Card => {
                &&& final(app).card_list@ == old(app).card_list@.remove(index)
                &&& final(app).card_list.is_changed()
                &&& final(app).card_list.selected_key() == removal_selection(
                    old(app).card_list,
                    index,
                )
                &&& final(app).sink_input_list == old(app).sink_input_list
                &&& final(app).source_output_list == old(app).source_output_list
                &&& final(app).sink_list == old(app).sink_list
                &&& final(app).source_list == old(app).source_list
            },
        },
{
    match facility {
        Facility::SinkInput => {
            if app.sink_input_list.get(index).is_some() {
                app.sink_input_list.remove(index);
                true
            } else {
                false
            }
        },
        Facility::SourceOutput => {
            if app.source_output_list.get(index).is_some() {
                app.source_output_list.remove(index);
                true
            } else {
                false
            }
        },
        Facility::Sink => {
            if app.sink_list.get(index).is_some() {
                app.sink_list.remove(index);
                true
            } else {
                false
            }
        },
        Facility::Source => {
            if app.source_list.get(index).is_some() {
                app.source_list.remove(index);
                true
            } else {
                false
            }
        },
        Facility::Card => {
            if app.card_list.get(index).is_some() {
                app.card_list.remove(index);
                true
            } else {
                false
            }
        },
    }
}

/// Where [`SelectingMap::remove`] leaves the selection when `index` goes
/// away: unchanged unless `index` was selected; then the next larger stored
/// key, else the next smaller, else none.
pub open spec fn removal_selection<V>(m: SelectingMap<V>, index: u32) -> Option<u32> {
    if m.selected_key() == Option::Some(index) {
        match m.spec_next_key(index) {
            Option::Some(n) => Option::Some(n),
            Option::None => m.spec_prev_key(index),
        }
    } else {
        m.selected_key()
    }
}

/// All five registries are the same in `a` and `b`.
pub open spec fn registries_unchanged(a: App, b: App) -> bool {
    &&& b.sink_input_list == a.sink_input_list
    &&& b.source_output_list == a.source_output_list
    &&& b.sink_list == a.sink_list
    &&& b.source_list == a.source_list
    &&& b.card_list == a.card_list
}

/// All five views' transient data are the same in `a` and `b`.
pub open spec fn view_data_unchanged(a: App, b: App) -> bool {
    &&& b.sink_input_view_data == a.sink_input_view_data
    &&& b.source_output_view_data == a.source_output_view_data
    &&& b.sink_view_data == a.sink_view_data
    &&& b.source_view_data == a.source_view_data
    &&& b.card_view_data == a.card_view_data
}

/// `b` is `a` after switching to view `v`: registries and flags are kept,
/// the target view's popups are dismissed, the other views' data is kept,
/// and a redraw is forced.
pub open spec fn entered_view(a: App, b: App, v: AppView) -> bool {
    &&& b.view == v
    &&& registries_unchanged(a, b)
    &&& b.quit_request == a.quit_request
    &&& b.hide_monitors == a.hide_monitors
    &&& b.redraw
    &&& match v {
        AppView::SinkInputs => {
            &&& b.sink_input_view_data == (crate::views::sink_inputs::ViewData {
                sink_popup_open: false,
                keybinding_popup_open: false,
                sink_index_selected: a.sink_input_view_data.sink_index_selected,
            })
            &&& b.source_output_view_data == a.source_output_view_data
            &&& b.sink_view_data == a.sink_view_data
            &&& b.source_view_data == a.source_view_data
            &&& b.card_view_data == a.card_view_data
        },
        AppView::SourceOutputs => {
            &&& b.source_output_view_data == (crate::views::source_outputs::ViewData {
                source_popup_open: false,
                keybinding_popup_open: false,
                source_index_selected: a.source_output_view_data.source_index_selected,
            })
            &&& b.sink_input_view_data == a.sink_input_view_data
            &&& b.sink_view_data == a.sink_view_data
            &&& b.source_view_data == a.source_view_data
            &&& b.card_view_data == a.card_view_data
        },
        AppView::Sinks => {
            &&& b.sink_view_data == (crate::views::sinks::ViewData {
                keybinding_popup_open: false,
            })
            &&& b.sink_input_view_data == a.sink_input_view_data
            &&& b.source_output_view_data == a.source_output_view_data
            &&& b.source_view_data == a.source_view_data
            &&& b.card_view_data == a.card_view_data
        },
        AppView::Sources => {
            &&& b.source_view_data == (crate::views::sources::ViewData {
                keybinding_popup_open: false,
            })
            &&& b.sink_input_view_data == a.sink_input_view_data
            &&& b.source_output_view_data == a.source_output_view_data
            &&& b.sink_view_data == a.sink_view_data
            &&& b.card_view_data == a.card_view_data
        },
        AppView::Cards => {
            &&& b.card_view_data == (crate::views::cards::ViewData {
                keybinding_popup_open: false,
            })
            &&& b.sink_input_view_data == a.sink_input_view_data
            &&& b.source_output_view_data == a.source_output_view_data
            &&& b.sink_view_data == a.sink_view_data
            &&& b.source_view_data == a.source_view_data
        },
    }
}

/// One keystroke, from the reader thread. Quit, tab switching and the
/// monitor-visibility toggle are handled globally; anything else goes to the
/// active view. Toggling monitors to hidden re-anchors the input-device and
/// capture-stream selections so the cursor never silently rests on a hidden
/// entry. Returns the commands to issue once the state lock is released.
pub fn handle_key_event(key: KeyInput, app: &mut App) -> (cmds: Vec<Command>)
    requires
        old(app).inv(),
    ensures
        final(app).inv(),
        ({
            let a = *old(app);
            let b = *final(app);
            if key == KeyInput::Char('q') || key == KeyInput::Ctrl('c') {
                &&& b.quit_request
                &&& registries_unchanged(a, b)
                &&& view_data_unchanged(a, b)
                &&& b.redraw == a.redraw
                &&& b.view == a.view
                &&& b.hide_monitors == a.hide_monitors
                &&& cmds@.len() == 0
            } else if key == KeyInput::Func(1) {
                entered_view(a, b, AppView::SinkInputs) && cmds@.len() == 0
            } else if key == KeyInput::Func(2) {
                entered_view(a, b, AppView::SourceOutputs) && cmds@.len() == 0
            } else if key == KeyInput::Func(3) {
                entered_view(a, b, AppView::Sinks) && cmds@.len() == 0
            } else if key == KeyInput::Func(4) {
                entered_view(a, b, AppView::Sources) && cmds@.len() == 0
            } else if key == KeyInput::Func(5) {
                entered_view(a, b, AppView::Cards) && cmds@.len() == 0
            } else if key == KeyInput::Char('\t') {
                entered_view(a, b, spec_next_view(a.view)) && cmds@.len() == 0
            } else if key == KeyInput::Char('M') {
                &&& cmds@.len() == 0
                &&& b.hide_monitors == !a.hide_monitors
                &&& b.redraw
                &&& view_data_unchanged(a, b)
                &&& b.view == a.view
                &&& b.quit_request == a.quit_request
                &&& b.sink_input_list == a.sink_input_list
                &&& b.sink_list == a.sink_list
                &&& b.card_list == a.card_list
                &&& if !a.hide_monitors {
                    &&& b.source_list.entries() == a.source_list.entries()
                    &&& b.source_list.is_changed() == a.source_list.is_changed()
                    &&& b.source_list.selected_key() == crate::selecting_map::reanchored(
                        a.source_list.entries(),
                        a.source_list.selected_key(),
                        crate::selecting_map::filter_pred(crate::entries::NotMonitor),
                    )
                    &&& b.source_output_list.entries() == a.source_output_list.entries()
                    &&& b.source_output_list.is_changed() == a.source_output_list.is_changed()
                    &&& b.source_output_list.selected_key() == crate::selecting_map::reanchored(
                        a.source_output_list.entries(),
                        a.source_output_list.selected_key(),
                        crate::entries::visible_source_output_pred(a.source_list@),
                    )
                } else {
                    &&& b.source_list == a.source_list
                    &&& b.source_output_list == a.source_output_list
                }
            } else {
                match a.view {
                    AppView::SinkInputs => crate::views::sink_inputs::view_key_outcome(
                        key,
                        a,
                        b,
                        cmds@,
                    ),
                    AppView::SourceOutputs => crate::views::source_outputs::view_key_outcome(
                        key,
                        a,
                        b,
                        cmds@,
                    ),
                    AppView::Sinks => crate::views::sinks::view_key_outcome(key, a, b, cmds@),
                    AppView::Sources => crate::views::sources::view_key_outcome(key, a, b, cmds@),
                    AppView::Cards => crate::views::cards::view_key_outcome(key, a, b, cmds@),
                }
            }
        }),
{
    let cmds: Vec<Command> = Vec::new();
    match key {
        KeyInput::Ctrl('c') | KeyInput::Char('q') => {
            app.quit_request = true;
            return cmds;
        },
        _ => {},
    }
    match key {
        KeyInput::Func(1) => {
            app.view = AppView::SinkInputs;
            crate::views::sink_inputs::entered(app);
            app.redraw = true;
            return cmds;
        },
        KeyInput::Func(2) => {
            app.view = AppView::SourceOutputs;
            crate::views::source_outputs::entered(app);
            app.redraw = true;
            return cmds;
        },
        KeyInput::Func(3) => {
            app.view = AppView::Sinks;
            crate::views::sinks::entered(app);
            app.redraw = true;
            return cmds;
        },
        KeyInput::Func(4) => {
            app.view = AppView::Sources;
            crate::views::sources::entered(app);
            app.redraw = true;
            return cmds;
        },
        KeyInput::Func(5) => {
            app.view = AppView::Cards;
            crate::views::cards::entered(app);
            app.redraw = true;
            return cmds;
        },
        _ => {},
    }
    if key == KeyInput::Char('\t') {
        match app.view {
            AppView::SinkInputs => {
                app.view = AppView::SourceOutputs;
                crate::views::source_outputs::entered(app);
            },
            AppView::SourceOutputs => {
                app.view = AppView::Sinks;
                crate::views::sinks::entered(app);
            },
            AppView::Sinks => {
                app.view = AppView::Sources;
                crate::views::sources::entered(app);
            },
            AppView::Sources => {
                app.view = AppView::Cards;
                crate::views::cards::entered(app);
            },
            AppView::Cards => {
                app.view = AppView::SinkInputs;
                crate::views::sink_inputs::entered(app);
            },
        }
        app.redraw = true;
        return cmds;
    }
    if key == KeyInput::Char('M') {
        app.hide_monitors = !app.hide_monitors;
        if app.hide_monitors {
            app.source_list.filtered_select_next_else_prev(&crate::entries::NotMonitor);
            let vso = crate::entries::VisibleSourceOutputs::from_sources(&app.source_list);
            proof {
                crate::entries::lemma_visible_filter_matches(vso, app.source_list@);
            }
            app.source_output_list.filtered_select_next_else_prev(&vso);
        }
        app.redraw = true;
        return cmds;
    }
    match app.view {
        AppView::SinkInputs => crate::views::sink_inputs::handle_key_event(key, app),
        AppView::SourceOutputs => crate::views::source_outputs::handle_key_event(key, app),
        AppView::Sinks => crate::views::sinks::handle_key_event(key, app),
        AppView::Sources => crate::views::sources::handle_key_event(key, app),
        AppView::Cards => crate::views::cards::handle_key_event(key, app),
    }
}

/// The tenth of nominal loudness a digit key asks for: the circumflex mutes,
/// the digits one through nine select that many tenths, zero selects ten.
pub open spec fn spec_digit_factor(c: char) -> Option<u32> {
    if c == '^' {
        Option::Some(0u32)
    } else if c == '1' {
        Option::Some(1u32)
    } else if c == '2' {
        Option::Some(2u32)
    } else if c == '3' {
        Option::Some(3u32)
    } else if c == '4' {
        Option::Some(4u32)
    } else if c == '5' {
        Option::Some(5u32)
    } else if c == '6' {
        Option::Some(6u32)
    } else if c == '7' {
        Option::Some(7u32)
    } else if c == '8' {
        Option::Some(8u32)
    } else if c == '9' {
        Option::Some(9u32)
    } else if c == '0' {
        Option::Some(10u32)
    } else {
        Option::None
    }
}

fn digit_factor(c: char) -> (r: Option<u32>)
    ensures
        r == spec_digit_factor(c),
{
    match c {
        '^' => Some(0),
        '1' => Some(1),
        '2' => Some(2),
        '3' => Some(3),
        '4' => Some(4),
        '5' => Some(5),
        '6' => Some(6),
        '7' => Some(7),
        '8' => Some(8),
        '9' => Some(9),
        '0' => Some(10),
        _ => None,
    }
}

/// The volume a key requests for an entity currently at `v`: small or large
/// steps down and up, silence, nominal loudness, or a digit shortcut to a
/// tenth of nominal; nothing for keys that do not concern volume.
pub open spec fn spec_volume_for_key(key: KeyInput, v: Seq<u32>) -> Option<Seq<u32>> {
    match key {
        KeyInput::Char(c) => if c == 'h' {
            Option::Some(spec_decreased(v, VOLUME_STEP_SMALL))
        } else if c == 'l' {
            Option::Some(spec_increased(v, VOLUME_STEP_SMALL))
        } else if c == 'H' {
            Option::Some(spec_decreased(v, VOLUME_STEP_BIG))
        } else if c == 'L' {
            Option::Some(spec_increased(v, VOLUME_STEP_BIG))
        } else {
            match spec_digit_factor(c) {
                Option::Some(f) => Option::Some(
                    Seq::new(v.len(), |i: int| ((VOLUME_NORM / 10) * f) as u32),
                ),
                Option::None => Option::None,
            }
        },
        KeyInput::Left => Option::Some(spec_decreased(v, VOLUME_STEP_SMALL)),
        KeyInput::Right => Option::Some(spec_increased(v, VOLUME_STEP_SMALL)),
        KeyInput::Ctrl(c) => if c == 'h' {
            Option::Some(Seq::new(v.len(), |i: int| VOLUME_MUTED))
        } else if c == 'l' {
            Option::Some(Seq::new(v.len(), |i: int| VOLUME_NORM))
        } else {
            Option::None
        },
        _ => Option::None,
    }
}

/// Executable form of [`spec_volume_for_key`]; shared by the four views that
/// adjust volumes.
pub fn volume_for_key(key: KeyInput, volume: &Volumes) -> (r: Option<Volumes>)
    ensures
        match r {
            Option::Some(nv) => spec_volume_for_key(key, volume@) == Option::Some(nv@),
            Option::None => spec_volume_for_key(key, volume@) is None,
        },
{
    match key {
        KeyInput::Char(c) => {
            if c == 'h' {
                Some(volume.decreased(VOLUME_STEP_SMALL))
            } else if c == 'l' {
                Some(volume.increased(VOLUME_STEP_SMALL))
            } else if c == 'H' {
                Some(volume.decreased(VOLUME_STEP_BIG))
            } else if c == 'L' {
                Some(volume.increased(VOLUME_STEP_BIG))
            } else {
                match digit_factor(c) {
                    Some(f) => Some(volume.set_all((VOLUME_NORM / 10) * f)),
                    None => None,
                }
            }
        },
        KeyInput::Left => Some(volume.decreased(VOLUME_STEP_SMALL)),
        KeyInput::Right => Some(volume.increased(VOLUME_STEP_SMALL)),
        KeyInput::Ctrl(c) => {
            if c == 'h' {
                Some(volume.set_all(VOLUME_MUTED))
            } else if c == 'l' {
                Some(volume.set_all(VOLUME_NORM))
            } else {
                None
            }
        },
        _ => None,
    }
}

} // verus!
