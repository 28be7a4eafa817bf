//! The mixer's state and the one function that changes it.
//!
//! `update` reduces a message into the state and says what it wants done beyond
//! it: commands for the sound server, and whether the state should be saved.
//! Doing either is its caller's business, which keeps the reducer a function of
//! its state and its message.

use crate::command_palette;
use crate::command_palette::listed_of;
use crate::domain::{Gain, Section, SectionFilter, Stream, StreamKind, StreamView};
use crate::gain;
use crate::gain::{cubic_to_linear, is_above, limit, over, times};
use crate::geometry::Geometry;
use crate::ordered;
use crate::ordered::{OrderedMap, TextSet};
use crate::profile;
use crate::profile::{
    AppEntries, AppMap, AppSettings, AppSettingsView, DeviceEntries, DeviceMap, DeviceSettings,
    Pending, PendingView, Profile, ProfileStore, ProfileStoreView, ProfileView,
};
use crate::store::{State, StateView};
use crate::text;
use crate::text::{clone_opt, decimal_text, opt_is, same_opt, same_text, trim};
use std::collections::{BTreeMap, HashSet};
use vstd::prelude::*;
use vstd::string::*;

verus! {

broadcast use {
    vstd::std_specs::hash::group_hash_axioms,
    vstd::std_specs::btree::group_btree_axioms,
};

// --- Types ---------------------------------------------------------------------

/// Something the sound server should do.
#[derive(Debug, PartialEq, Eq)]
pub enum Command {
    SetVolume { node_id: u32, volume: Gain },
    SetMute { node_id: u32, mute: bool },
    SetStreamTarget { node_id: u32, sink_node_name: Option<String> },
    SetDefaultSink { node_name: String },
    SetDefaultSource { node_name: String },
}

#[verifier::ext_equal]
pub enum CommandView {
    SetVolume { node_id: u32, volume: Gain },
    SetMute { node_id: u32, mute: bool },
    SetStreamTarget { node_id: u32, sink_node_name: Option<Seq<char>> },
    SetDefaultSink { node_name: Seq<char> },
    SetDefaultSource { node_name: Seq<char> },
}

impl View for Command {
    type V = CommandView;

    open spec fn view(&self) -> CommandView {
        match *self {
            Command::SetVolume { node_id, volume } => CommandView::SetVolume { node_id, volume },
            Command::SetMute { node_id, mute } => CommandView::SetMute { node_id, mute },
            Command::SetStreamTarget {
                node_id,
                sink_node_name,
            } => CommandView::SetStreamTarget {
                node_id,
                sink_node_name: text::opt(sink_node_name),
            },
            Command::SetDefaultSink { node_name } => CommandView::SetDefaultSink {
                node_name: node_name@,
            },
            Command::SetDefaultSource { node_name } => CommandView::SetDefaultSource {
                node_name: node_name@,
            },
        }
    }
}

/// Something the sound server reports.
#[derive(Debug, PartialEq, Eq)]
pub enum WorkerEvent {
    StreamAdded(Stream),
    StreamUpdated(Stream),
    StreamRemoved(u32),
    Error(String),
}

/// Profile-management modal state.
#[derive(Debug, PartialEq, Eq)]
pub enum Modal {
    /// Create a new profile from the current live state.
    CreateProfile { name: String, error: Option<String> },
    /// Rename `old_name` to `name`. Pre-filled with the existing name.
    RenameProfile { old_name: String, name: String, error: Option<String> },
    /// Confirm deletion of `name`. No input field, just a Y/N gate.
    DeleteProfile { name: String },
}

#[verifier::ext_equal]
pub enum ModalState {
    CreateProfile { name: Seq<char>, error: Option<Seq<char>> },
    RenameProfile { old_name: Seq<char>, name: Seq<char>, error: Option<Seq<char>> },
    DeleteProfile { name: Seq<char> },
}

impl View for Modal {
    type V = ModalState;

    open spec fn view(&self) -> ModalState {
        match *self {
            Modal::CreateProfile { name, error } => ModalState::CreateProfile {
                name: name@,
                error: text::opt(error),
            },
            Modal::RenameProfile { old_name, name, error } => ModalState::RenameProfile {
                old_name: old_name@,
                name: name@,
                error: text::opt(error),
            },
            Modal::DeleteProfile { name } => ModalState::DeleteProfile { name: name@ },
        }
    }
}

pub open spec fn modal_view(modal: Option<Modal>) -> Option<ModalState> {
    match modal {
        Some(m) => Some(m@),
        None => None,
    }
}

/// Something that happened: a user action, a report from the sound server, or a
/// tick.
#[derive(Debug, PartialEq, Eq)]
pub enum Message {
    Worker(WorkerEvent),
    /// A slider moved: the stream, and the cubic gain its new position stands
    /// for.
    VolumeChanged(u32, Gain),
    MuteToggled(u32),
    /// Collapsed app-row slider drag: the row, the cubic gain its new position
    /// stands for, and the cubic gain each member has now. Members nobody speaks
    /// for are silent.
    GroupVolumeChanged { key: String, cubic: Gain, levels: Vec<(u32, Gain)> },
    /// Collapsed app-row mute. If every member is muted, unmute all; otherwise
    /// mute all.
    GroupMuteToggled(String),
    /// Pin every member of a collapsed app row to `sink_id`.
    GroupSetStreamTarget { key: String, sink_id: u32 },
    /// Clear the per-stream pin on every member of a collapsed app row.
    GroupClearStreamTarget(String),
    /// Toggle an app row between collapsed aggregate and per-member
    /// sub-columns. No-op for single-member groups.
    GroupToggleExpanded(String),
    /// The player titles changed; the view re-reads them on the next refresh.
    MprisChanged,
    MakeDefault(u32),
    /// Mark this input device the default audio source. Re-clicking the default
    /// is a no-op.
    MakeDefaultSource(u32),
    /// Toggle one column group's visibility and dirty the active profile.
    ToggleSection(Section),
    /// Mute or unmute every output sink in one gesture. If any output is
    /// unmuted it mutes all, otherwise unmutes all.
    MuteAllToggled,
    /// Pin an app stream's output to a specific sink. Re-clicking the active
    /// sink is a no-op; unpinning is `ClearStreamTarget`.
    SetStreamTarget { app_id: u32, sink_id: u32 },
    /// Clear the per-stream override so the app follows the default sink again.
    ClearStreamTarget(u32),
    /// Clear every per-app pin in one click.
    ResetAllStreamTargets,
    /// Apply the named profile: push each entry to matching live streams, set
    /// the defaults, and stash unmatched entries in `pending`.
    ApplyProfile(String),
    /// Remove a profile by name. If active, clears `pending` and moves the
    /// active marker.
    DeleteProfile(String),
    /// Drag-and-drop reorder: move `name` immediately before/after `target`.
    /// No-op reorders skip persistence.
    ReorderProfile { name: String, target: String, before: bool },
    /// Open the "create profile" modal with an empty name buffer.
    OpenCreateProfileModal,
    /// Open the rename modal, pre-filled with the profile's current name.
    OpenRenameProfileModal(String),
    /// Open the delete-confirm modal for an existing profile.
    OpenDeleteProfileModal(String),
    /// Live edits in the modal's name field (create / rename).
    ModalNameChanged(String),
    /// Confirm the open modal. Empty/whitespace names keep it open with an
    /// inline error.
    ModalConfirm,
    /// Close the modal without applying its action.
    ModalDismiss,
    /// Debounce tick. Snapshots a dirty active profile and/or persists dirty
    /// geometry; otherwise a no-op.
    AutoSaveTick,
    /// Window resize / maximize notification, with the size to restore next
    /// launch.
    GeometryChanged { width: u32, height: u32, maximized: bool },
    /// Toggle the command palette, clearing query and selection.
    TogglePalette,
    /// Live edits in the palette's search field; resets selection to 0.
    PaletteQueryChanged(String),
    /// Move the highlighted palette row up, wrapping to the last of the `rows`
    /// that match the query.
    PaletteSelectPrev { rows: usize },
    /// Move the highlighted palette row down, wrapping to 0.
    PaletteSelectNext { rows: usize },
    /// Show the palette's list from this row on.
    PaletteScrollTo(usize),
}

/// A message with its texts as characters.
#[verifier::ext_equal]
pub enum MessageView {
    Worker(WorkerEvent),
    VolumeChanged(u32, Gain),
    MuteToggled(u32),
    GroupVolumeChanged { key: Seq<char>, cubic: Gain, levels: Seq<(u32, Gain)> },
    GroupMuteToggled(Seq<char>),
    GroupSetStreamTarget { key: Seq<char>, sink_id: u32 },
    GroupClearStreamTarget(Seq<char>),
    GroupToggleExpanded(Seq<char>),
    MprisChanged,
    MakeDefault(u32),
    MakeDefaultSource(u32),
    ToggleSection(Section),
    MuteAllToggled,
    SetStreamTarget { app_id: u32, sink_id: u32 },
    ClearStreamTarget(u32),
    ResetAllStreamTargets,
    ApplyProfile(Seq<char>),
    DeleteProfile(Seq<char>),
    ReorderProfile { name: Seq<char>, target: Seq<char>, before: bool },
    OpenCreateProfileModal,
    OpenRenameProfileModal(Seq<char>),
    OpenDeleteProfileModal(Seq<char>),
    ModalNameChanged(Seq<char>),
    ModalConfirm,
    ModalDismiss,
    AutoSaveTick,
    GeometryChanged { width: u32, height: u32, maximized: bool },
    TogglePalette,
    PaletteQueryChanged(Seq<char>),
    PaletteSelectPrev { rows: usize },
    PaletteSelectNext { rows: usize },
    PaletteScrollTo(usize),
}

impl View for Message {
    type V = MessageView;

    open spec fn view(&self) -> MessageView {
        match self {
            Message::Worker(v) => MessageView::Worker(*v),
            Message::VolumeChanged(v, w) => MessageView::VolumeChanged(*v, *w),
            Message::MuteToggled(v) => MessageView::MuteToggled(*v),
            Message::GroupVolumeChanged { key, cubic, levels } => MessageView::GroupVolumeChanged {
                key: key@,
                cubic: *cubic,
                levels: levels@,
            },
            Message::GroupMuteToggled(v) => MessageView::GroupMuteToggled(v@),
            Message::GroupSetStreamTarget { key, sink_id } => MessageView::GroupSetStreamTarget {
                key: key@,
                sink_id: *sink_id,
            },
            Message::GroupClearStreamTarget(v) => MessageView::GroupClearStreamTarget(v@),
            Message::GroupToggleExpanded(v) => MessageView::GroupToggleExpanded(v@),
            Message::MprisChanged => MessageView::MprisChanged,
            Message::MakeDefault(v) => MessageView::MakeDefault(*v),
            Message::MakeDefaultSource(v) => MessageView::MakeDefaultSource(*v),
            Message::ToggleSection(v) => MessageView::ToggleSection(*v),
            Message::MuteAllToggled => MessageView::MuteAllToggled,
            Message::SetStreamTarget { app_id, sink_id } => MessageView::SetStreamTarget {
                app_id: *app_id,
                sink_id: *sink_id,
            },
            Message::ClearStreamTarget(v) => MessageView::ClearStreamTarget(*v),
            Message::ResetAllStreamTargets => MessageView::ResetAllStreamTargets,
            Message::ApplyProfile(v) => MessageView::ApplyProfile(v@),
            Message::DeleteProfile(v) => MessageView::DeleteProfile(v@),
            Message::ReorderProfile { name, target, before } => MessageView::ReorderProfile {
                name: name@,
                target: target@,
                before: *before,
            },
            Message::OpenCreateProfileModal => MessageView::OpenCreateProfileModal,
            Message::OpenRenameProfileModal(v) => MessageView::OpenRenameProfileModal(v@),
            Message::OpenDeleteProfileModal(v) => MessageView::OpenDeleteProfileModal(v@),
            Message::ModalNameChanged(v) => MessageView::ModalNameChanged(v@),
            Message::ModalConfirm => MessageView::ModalConfirm,
            Message::ModalDismiss => MessageView::ModalDismiss,
            Message::AutoSaveTick => MessageView::AutoSaveTick,
            Message::GeometryChanged { width, height, maximized } => MessageView::GeometryChanged {
                width: *width,
                height: *height,
                maximized: *maximized,
            },
            Message::TogglePalette => MessageView::TogglePalette,
            Message::PaletteQueryChanged(v) => MessageView::PaletteQueryChanged(v@),
            Message::PaletteSelectPrev { rows } => MessageView::PaletteSelectPrev {
                rows: *rows,
            },
            Message::PaletteSelectNext { rows } => MessageView::PaletteSelectNext {
                rows: *rows,
            },
            Message::PaletteScrollTo(v) => MessageView::PaletteScrollTo(*v),
        }
    }
}

/// The mixer's state.
///
/// An application row stays visible after its backing node disappears, so apps
/// that destroy and recreate their stream stay in the list and the user can
/// pre-arm settings. The row persists until a fresh stream from the same app
/// reclaims it.
pub struct App {
    /// Every known stream, by node id.
    pub streams: OrderedMap<u32, Stream>,
    /// Node ids whose backing node is gone but whose row is still shown.
    /// Cleared when a fresh stream from the same app reclaims the slot.
    pub tombstoned: HashSet<u32>,
    /// App-group row keys the user has expanded into per-member sub-rows.
    /// Stale entries are harmless: the view only consults them for groups that
    /// still exist.
    pub expanded_groups: TextSet,
    /// First-seen sequence number per app-stream node id. The strip sorts by
    /// this so rows keep their slot even when a reconnect brings a fresh node
    /// id. Eviction hands the old id's number to the new one.
    pub app_order: BTreeMap<u32, u64>,
    /// Counter for fresh app rows. Bumped only when a new row doesn't inherit a
    /// number from an evicted one; wrapping is fine.
    pub app_seq: u64,
    pub status: Option<String>,
    pub profiles: ProfileStore,
    /// Active-profile entries with no matching live stream at apply time.
    /// Consumed as matching streams arrive; cleared on profile switch or
    /// delete.
    pub pending: Pending,
    /// The profile management modal, while one is visible.
    pub modal: Option<Modal>,
    /// Set by user actions that mutate live state. The save tick snapshots the
    /// active profile when it sees this, then clears it. Reports from the sound
    /// server don't dirty, so changes from other tools don't bleed into the
    /// profile.
    pub dirty: bool,
    /// Last-known window geometry.
    pub geometry: Geometry,
    /// Set when the geometry moves. Parallel to `dirty` so a pure resize
    /// persists without re-snapshotting device state.
    pub geometry_dirty: bool,
    /// Whether the command palette overlay is visible.
    pub palette_open: bool,
    /// Live contents of the palette's search box. Cleared on close.
    pub palette_query: String,
    /// Highlighted-row index into the filtered command list.
    pub palette_selected: usize,
    /// First row of the filtered command list on show.
    pub palette_scroll: usize,
    /// Which column groups are on show. Seeded from the active profile, flipped
    /// by `ToggleSection`, folded back on save so each profile reopens with its
    /// own layout.
    pub section_filter: SectionFilter,
}

#[verifier::ext_equal]
pub struct AppView {
    pub streams: Seq<(u32, StreamView)>,
    pub tombstoned: Set<u32>,
    pub expanded_groups: Set<Seq<char>>,
    pub app_order: Map<u32, u64>,
    pub app_seq: u64,
    pub status: Option<Seq<char>>,
    pub profiles: ProfileStoreView,
    pub pending: PendingView,
    pub modal: Option<ModalState>,
    pub dirty: bool,
    pub geometry: Geometry,
    pub geometry_dirty: bool,
    pub palette_open: bool,
    pub palette_query: Seq<char>,
    pub palette_selected: usize,
    pub palette_scroll: usize,
    pub section_filter: SectionFilter,
}

impl View for App {
    type V = AppView;

    open spec fn view(&self) -> AppView {
        AppView {
            streams: self.streams@,
            tombstoned: self.tombstoned@,
            expanded_groups: self.expanded_groups@,
            app_order: self.app_order@,
            app_seq: self.app_seq,
            status: text::opt(self.status),
            profiles: self.profiles@,
            pending: self.pending@,
            modal: modal_view(self.modal),
            dirty: self.dirty,
            geometry: self.geometry,
            geometry_dirty: self.geometry_dirty,
            palette_open: self.palette_open,
            palette_query: self.palette_query@,
            palette_selected: self.palette_selected,
            palette_scroll: self.palette_scroll,
            section_filter: self.section_filter,
        }
    }
}

/// Streams ascending by id, each under its own.
pub open spec fn streams_wf(streams: Seq<(u32, StreamView)>) -> bool {
    &&& ordered::ascending::<u32, StreamView>(streams)
    &&& forall|i: int| 0 <= i < streams.len() ==> (#[trigger] streams[i]).0 == streams[i].1.id
}

impl AppView {
    pub open spec fn wf(self) -> bool {
        &&& streams_wf(self.streams)
        &&& self.profiles.wf()
        &&& self.pending.wf()
    }
}

impl App {
    pub open spec fn wf(&self) -> bool {
        self@.wf() && self.expanded_groups.wf()
    }
}

/// What a reduced message wants done beyond the state: commands for the sound
/// server and states to save, each in order.
pub struct Effects {
    pub commands: Vec<Command>,
    pub saves: Vec<State>,
    /// How many of the saves the status line has spoken since. Had one of them
    /// failed there and then, the line would not say so any more.
    pub overtaken: usize,
    /// Whether there is a sound server to take commands. Without one there are
    /// none.
    pub connected: bool,
}

/// The views of a list of commands.
pub open spec fn command_views(commands: Seq<Command>) -> Seq<CommandView> {
    Seq::new(commands.len(), |i: int| commands[i]@)
}

/// The views of a list of states to save.
pub open spec fn save_views(saves: Seq<State>) -> Seq<StateView> {
    Seq::new(saves.len(), |i: int| saves[i]@)
}

/// The state together with what is to be done beyond it.
#[verifier::ext_equal]
pub struct Work {
    pub state: AppView,
    pub commands: Seq<CommandView>,
    pub saves: Seq<StateView>,
    pub overtaken: nat,
    pub connected: bool,
}

pub open spec fn work(state: App, fx: Effects) -> Work {
    Work {
        state: state@,
        commands: command_views(fx.commands@),
        saves: save_views(fx.saves@),
        overtaken: fx.overtaken as nat,
        connected: fx.connected,
    }
}

impl Effects {
    /// Nothing to do yet, with a sound server to do it or without one.
    pub fn new(connected: bool) -> (fx: Self)
        ensures
            command_views(fx.commands@) == Seq::<CommandView>::empty(),
            save_views(fx.saves@) == Seq::<StateView>::empty(),
            fx.overtaken == 0,
            fx.connected == connected,
    {
        let fx = Effects { commands: Vec::new(), saves: Vec::new(), overtaken: 0, connected };
        assert(command_views(fx.commands@) =~= Seq::<CommandView>::empty());
        assert(save_views(fx.saves@) =~= Seq::<StateView>::empty());
        fx
    }

    fn send(&mut self, command: Command)
        ensures
            final(self).saves == old(self).saves,
            final(self).overtaken == old(self).overtaken,
            final(self).connected == old(self).connected,
            command_views(final(self).commands@) == if old(self).connected {
                command_views(old(self).commands@).push(command@)
            } else {
                command_views(old(self).commands@)
            },
    {
        if !self.connected {
            return;
        }
        let ghost before = command_views(self.commands@);
        let ghost c = command@;
        self.commands.push(command);
        assert(command_views(self.commands@) =~= before.push(c));
    }
}

impl Work {
    pub open spec fn send(self, command: CommandView) -> Work {
        if self.connected {
            Work { commands: self.commands.push(command), ..self }
        } else {
            self
        }
    }

    /// The window and the profiles as they are now are to be saved.
    pub open spec fn persist(self) -> Work {
        let now = StateView { window: self.state.geometry, profiles: self.state.profiles };
        Work { saves: self.saves.push(now), ..self }
    }

    /// Something said in the status line, over whatever a save might have said.
    pub open spec fn say(self, words: Seq<char>) -> Work {
        Work {
            state: AppView { status: Some(words), ..self.state },
            overtaken: self.saves.len(),
            ..self
        }
    }

    pub open spec fn with(self, state: AppView) -> Work {
        Work { state, ..self }
    }
}

/// Ask for the window and the profiles to be saved as they are now.
fn persist(state: &App, fx: &mut Effects)
    ensures
        work(*state, *final(fx)) == work(*state, *old(fx)).persist(),
{
    let ghost before = save_views(fx.saves@);
    let now = State { window: state.geometry, profiles: state.profiles.clone() };
    let ghost view = now@;
    fx.saves.push(now);
    assert(save_views(fx.saves@) =~= before.push(view));
}

/// Say something in the status line.
fn say(state: &mut App, fx: &mut Effects, words: String)
    requires
        old(state).wf(),
    ensures
        final(state).wf(),
        work(*final(state), *final(fx)) == work(*old(state), *old(fx)).say(words@),
{
    state.status = Some(words);
    fx.overtaken = fx.saves.len();
}

// --- Finding streams -------------------------------------------------------------

/// The ids, ascending, of the application streams among the first `n` that
/// collapse into the row `key`.
pub open spec fn row_members(streams: Seq<(u32, StreamView)>, key: Seq<char>, n: int) -> Seq<u32>
    decreases n,
{
    if n <= 0 {
        Seq::empty()
    } else {
        let rest = row_members(streams, key, n - 1);
        let s = streams[n - 1].1;
        if s.kind == StreamKind::Application && s.row_key() == key {
            rest.push(streams[n - 1].0)
        } else {
            rest
        }
    }
}

/// The ids, ascending, of the streams in the row `key`.
pub open spec fn members(streams: Seq<(u32, StreamView)>, key: Seq<char>) -> Seq<u32> {
    row_members(streams, key, streams.len() as int)
}

/// The first device of a kind, among the first `n` streams, with a node name.
pub open spec fn device_named(
    streams: Seq<(u32, StreamView)>,
    kind: StreamKind,
    name: Seq<char>,
    n: int,
) -> Option<u32>
    decreases n,
{
    if n <= 0 {
        None
    } else {
        match device_named(streams, kind, name, n - 1) {
            Some(id) => Some(id),
            None => if streams[n - 1].1.kind == kind && streams[n - 1].1.node_name == Some(name) {
                Some(streams[n - 1].0)
            } else {
                None
            },
        }
    }
}

/// The first stream, among the first `n`, of an application.
pub open spec fn app_named(streams: Seq<(u32, StreamView)>, key: Seq<char>, n: int) -> Option<u32>
    decreases n,
{
    if n <= 0 {
        None
    } else {
        match app_named(streams, key, n - 1) {
            Some(id) => Some(id),
            None => if streams[n - 1].1.identity() == Some(key) {
                Some(streams[n - 1].0)
            } else {
                None
            },
        }
    }
}

/// The first default device of a kind among the first `n` streams.
pub open spec fn default_at(streams: Seq<(u32, StreamView)>, kind: StreamKind, n: int) -> Option<int>
    decreases n,
{
    if n <= 0 {
        None
    } else {
        match default_at(streams, kind, n - 1) {
            Some(i) => Some(i),
            None => if streams[n - 1].1.kind == kind && streams[n - 1].1.is_default {
                Some(n - 1)
            } else {
                None
            },
        }
    }
}

/// The node name of the default device of a kind.
pub open spec fn default_name(streams: Seq<(u32, StreamView)>, kind: StreamKind) -> Option<Seq<char>> {
    match default_at(streams, kind, streams.len() as int) {
        Some(i) => streams[i].1.node_name,
        None => None,
    }
}

/// The node name of a sink, if the id is one.
pub open spec fn sink_name(streams: Seq<(u32, StreamView)>, id: u32) -> Option<Seq<char>> {
    match ordered::lookup(streams, id) {
        Some(s) if s.kind == StreamKind::Sink => s.node_name,
        _ => None,
    }
}

/// At least one output exists and every one of them is muted.
pub open spec fn outputs_muted(streams: Seq<(u32, StreamView)>) -> bool {
    &&& exists|i: int| 0 <= i < streams.len() && (#[trigger] streams[i]).1.kind == StreamKind::Sink
    &&& forall|i: int|
        0 <= i < streams.len() && (#[trigger] streams[i]).1.kind == StreamKind::Sink
            ==> streams[i].1.muted
}

/// Row-collapse key for an application stream. Streams sharing an identity
/// collapse into one row; those without identifying properties fall back to a
/// synthetic key of their own.
pub fn app_row_key(s: &Stream) -> (key: String)
    ensures
        key@ == s@.row_key(),
{
    match s.app_identity() {
        Some(key) => key,
        None => "node:".to_owned().concat(decimal_text(s.id as u64).as_str()),
    }
}

/// Node ids of every application stream in the row keyed by `key`.
pub fn members_of_app_row(state: &App, key: &str) -> (ids: Vec<u32>)
    ensures
        ids@ == members(state@.streams, key@),
{
    let mut ids: Vec<u32> = Vec::new();
    let mut i: usize = 0;
    while i < state.streams.entries.len()
        invariant
            i <= state.streams.entries@.len(),
            ids@ == row_members(state@.streams, key@, i as int),
        decreases state.streams.entries@.len() - i,
    {
        let s: &Stream = &state.streams.entries[i].1;
        assert(state@.streams[i as int].1 == s@);
        if s.kind == StreamKind::Application && same_text(app_row_key(s).as_str(), key) {
            ids.push(state.streams.entries[i].0);
        }
        i = i + 1;
    }
    ids
}

fn find_device(state: &App, kind: StreamKind, name: &str) -> (id: Option<u32>)
    ensures
        id == device_named(state@.streams, kind, name@, state@.streams.len() as int),
{
    let mut found: Option<u32> = None;
    let mut i: usize = 0;
    while i < state.streams.entries.len()
        invariant
            i <= state.streams.entries@.len(),
            found == device_named(state@.streams, kind, name@, i as int),
        decreases state.streams.entries@.len() - i,
    {
        let s: &Stream = &state.streams.entries[i].1;
        assert(state@.streams[i as int].1 == s@);
        if found.is_none() && s.kind == kind && opt_is(&s.node_name, name) {
            found = Some(state.streams.entries[i].0);
        }
        i = i + 1;
    }
    found
}

fn find_app(state: &App, key: &str) -> (id: Option<u32>)
    ensures
        id == app_named(state@.streams, key@, state@.streams.len() as int),
{
    let mut found: Option<u32> = None;
    let mut i: usize = 0;
    while i < state.streams.entries.len()
        invariant
            i <= state.streams.entries@.len(),
            found == app_named(state@.streams, key@, i as int),
        decreases state.streams.entries@.len() - i,
    {
        let s: &Stream = &state.streams.entries[i].1;
        assert(state@.streams[i as int].1 == s@);
        let identity: Option<String> = s.app_identity();
        if found.is_none() && opt_is(&identity, key) {
            found = Some(state.streams.entries[i].0);
        }
        i = i + 1;
    }
    found
}

/// Node name of the current default device of `kind`, or `None`.
fn current_default(state: &App, kind: StreamKind) -> (name: Option<String>)
    ensures
        text::opt(name) == default_name(state@.streams, kind),
{
    let mut found: Option<usize> = None;
    let mut i: usize = 0;
    while i < state.streams.entries.len()
        invariant
            i <= state.streams.entries@.len(),
            match found {
                Some(k) => k < state.streams.entries@.len() && default_at(
                    state@.streams,
                    kind,
                    i as int,
                ) == Some(k as int),
                None => default_at(state@.streams, kind, i as int) is None,
            },
        decreases state.streams.entries@.len() - i,
    {
        let s: &Stream = &state.streams.entries[i].1;
        assert(state@.streams[i as int].1 == s@);
        if found.is_none() && s.kind == kind && s.is_default {
            found = Some(i);
        }
        i = i + 1;
    }
    match found {
        Some(k) => clone_opt(&state.streams.entries[k].1.node_name),
        None => None,
    }
}

fn find_sink_name(state: &App, id: u32) -> (name: Option<String>)
    requires
        state.wf(),
    ensures
        text::opt(name) == sink_name(state@.streams, id),
{
    match state.streams.get(&id) {
        Some(s) => if s.kind == StreamKind::Sink {
            clone_opt(&s.node_name)
        } else {
            None
        },
        None => None,
    }
}

impl App {
    /// Whether `section`'s column group is currently shown, per the live
    /// section filter (which mirrors the active profile).
    pub fn shows_section(&self, section: Section) -> (shown: bool)
        ensures
            shown == self@.section_filter.showing(section),
    {
        self.section_filter.shows(section)
    }

    /// Whether the global-mute toggle reads as "on": at least one output sink
    /// exists and every one of them is muted. Derived from live state.
    pub fn all_outputs_muted(&self) -> (muted: bool)
        ensures
            muted == outputs_muted(self@.streams),
    {
        let mut any: bool = false;
        let mut i: usize = 0;
        while i < self.streams.entries.len()
            invariant
                i <= self.streams.entries@.len(),
                any == (exists|k: int|
                    0 <= k < i && (#[trigger] self@.streams[k]).1.kind == StreamKind::Sink),
                forall|k: int|
                    0 <= k < i && (#[trigger] self@.streams[k]).1.kind == StreamKind::Sink
                        ==> self@.streams[k].1.muted,
            decreases self.streams.entries@.len() - i,
        {
            let s: &Stream = &self.streams.entries[i].1;
            assert(self@.streams[i as int].1 == s@);
            if s.kind == StreamKind::Sink {
                any = true;
                if !s.muted {
                    return false;
                }
            }
            i = i + 1;
        }
        any
    }
}

/// True for short-lived event sounds (Notification/Event/Alarm pings), which
/// skip the tombstone grace window.
pub fn is_ephemeral(s: &Stream) -> (ephemeral: bool)
    ensures
        ephemeral == s@.ephemeral(),
{
    opt_is(&s.media_role, "Event") || opt_is(&s.media_role, "Notification") || opt_is(
        &s.media_role,
        "Alarm",
    )
}

// --- Changing one stream ------------------------------------------------------------

/// The state with one stream changed, where it is there.
pub open spec fn with_stream(st: AppView, id: u32, s: StreamView) -> AppView {
    AppView { streams: ordered::put::<u32, StreamView>(st.streams, id, s), ..st }
}

/// A stream with another gain and mute.
pub open spec fn leveled(s: StreamView, volume: Gain, muted: bool) -> StreamView {
    StreamView { volume, muted, ..s }
}

/// A stream found under an id is that id's.
pub proof fn stream_id(streams: Seq<(u32, StreamView)>, id: u32)
    requires
        streams_wf(streams),
    ensures
        ordered::lookup(streams, id) matches Some(s) ==> s.id == id,
    decreases streams.len(),
{
    if streams.len() > 0 && streams.last().0 != id {
        let rest = streams.drop_last();
        assert(streams_wf(rest)) by {
            assert forall|i: int| 0 <= i < rest.len() implies (#[trigger] rest[i]).0
                == rest[i].1.id by {
                assert(streams[i].0 == streams[i].1.id);
            }
        }
        stream_id(rest, id);
    }
}

/// Putting a stream under its own id keeps the streams in order.
pub proof fn put_stream_wf(streams: Seq<(u32, StreamView)>, s: StreamView)
    requires
        streams_wf(streams),
    ensures
        streams_wf(ordered::put::<u32, StreamView>(streams, s.id, s)),
{
    ordered::put_ascends::<u32, StreamView>(streams, s.id, s);
    put_stream_ids(streams, s);
}

proof fn put_stream_ids(streams: Seq<(u32, StreamView)>, s: StreamView)
    requires
        forall|i: int| 0 <= i < streams.len() ==> (#[trigger] streams[i]).0 == streams[i].1.id,
    ensures
        forall|i: int|
            0 <= i < ordered::put::<u32, StreamView>(streams, s.id, s).len() ==> (
            #[trigger] ordered::put::<u32, StreamView>(streams, s.id, s)[i]).0
                == ordered::put::<u32, StreamView>(streams, s.id, s)[i].1.id,
    decreases streams.len(),
{
    if streams.len() > 0 {
        let rest = streams.drop_last();
        assert forall|i: int| 0 <= i < rest.len() implies (#[trigger] rest[i]).0
            == rest[i].1.id by {
            assert(streams[i].0 == streams[i].1.id);
        }
        put_stream_ids(rest, s);
        assert(streams[streams.len() - 1].0 == streams[streams.len() - 1].1.id);
    }
}

/// Dropping a stream keeps the others in order.
pub proof fn without_stream_wf(streams: Seq<(u32, StreamView)>, id: u32)
    requires
        streams_wf(streams),
    ensures
        streams_wf(ordered::without(streams, id)),
{
    if exists|i: int| 0 <= i < streams.len() && (#[trigger] streams[i]).0 == id {
        let i = choose|i: int| 0 <= i < streams.len() && (#[trigger] streams[i]).0 == id;
        ordered::without_at::<u32, StreamView>(streams, i);
        let left = streams.remove(i);
        assert forall|a: int, b: int| 0 <= a < b < left.len() implies (#[trigger] left[a]).0 < (
        #[trigger] left[b]).0 by {
            let a2 = if a < i {
                a
            } else {
                a + 1
            };
            let b2 = if b < i {
                b
            } else {
                b + 1
            };
            assert(streams[a2].0 < streams[b2].0) by {
                assert(ordered::ascending::<u32, StreamView>(streams));
                assert(<u32 as ordered::OrderedKey>::precedes(streams[a2].0, streams[b2].0));
            }
        }
        assert forall|a: int| 0 <= a < left.len() implies (#[trigger] left[a]).0 == left[a].1.id by {
            let a2 = if a < i {
                a
            } else {
                a + 1
            };
            assert(streams[a2].0 == streams[a2].1.id);
        }
    } else {
        ordered::lookup_absent(streams, id);
    }
}

// --- Bookkeeping ----------------------------------------------------------------------

/// The state with the active profile marked as having uncommitted changes.
/// Nothing to mark when no profile is active.
pub open spec fn dirtied(st: AppView) -> AppView {
    if st.profiles.active is Some {
        AppView { dirty: true, ..st }
    } else {
        st
    }
}

/// Mark the active profile as having uncommitted changes. No-op when no profile
/// is active.
fn mark_dirty(state: &mut App)
    requires
        old(state).wf(),
    ensures
        final(state).wf(),
        final(state)@ == dirtied(old(state)@),
{
    if state.profiles.active.is_some() {
        state.dirty = true;
    }
}

/// The state with its live settings folded into the active profile.
pub open spec fn snapshotted(st: AppView) -> AppView {
    match st.profiles.active {
        Some(name) => AppView {
            profiles: st.profiles.with_profile(
                profile::snapshot_of(
                    name,
                    st.streams,
                    default_name(st.streams, StreamKind::Sink),
                    default_name(st.streams, StreamKind::Source),
                    st.section_filter,
                ),
            ),
            ..st
        },
        None => st,
    }
}

/// Fold live state (device settings + section filter) into the active profile.
/// No-op when no profile is active.
fn snapshot_active_profile(state: &mut App)
    requires
        old(state).wf(),
    ensures
        final(state).wf(),
        final(state)@ == snapshotted(old(state)@),
{
    let name: String = match &state.profiles.active {
        Some(name) => name.clone(),
        None => {
            return;
        },
    };
    let sink: Option<String> = current_default(state, StreamKind::Sink);
    let source: Option<String> = current_default(state, StreamKind::Source);
    let snap: Profile = Profile::snapshot(
        name,
        &state.streams,
        sink,
        source,
        state.section_filter,
    );
    state.profiles.insert_or_replace(snap);
}

/// Uncommitted state flushed: dirty settings are folded into the active profile
/// first, a dirty geometry is saved alone, so a resize before any stream
/// connects can't clobber saved presets with an empty snapshot.
pub open spec fn autosaved(w: Work) -> Work {
    if !w.state.dirty && !w.state.geometry_dirty {
        w
    } else {
        let st = if w.state.dirty {
            snapshotted(w.state)
        } else {
            w.state
        };
        w.with(AppView { dirty: false, geometry_dirty: false, ..st }).persist()
    }
}

/// Flush uncommitted state.
fn autosave(state: &mut App, fx: &mut Effects)
    requires
        old(state).wf(),
    ensures
        final(state).wf(),
        work(*final(state), *final(fx)) == autosaved(work(*old(state), *old(fx))),
{
    if !state.dirty && !state.geometry_dirty {
        return;
    }
    if state.dirty {
        snapshot_active_profile(state);
    }
    state.dirty = false;
    state.geometry_dirty = false;
    persist(state, fx);
}

/// The state with at least one profile, an active one among them, and the
/// active profile's columns on show.
pub open spec fn with_active_profile(st: AppView) -> AppView {
    let profiles = if st.profiles.profiles.len() == 0 {
        seq![ProfileView::blank("Default"@)]
    } else {
        st.profiles.profiles
    };
    let active = match st.profiles.active {
        Some(a) if profile::find_name(profiles, a) is Some => a,
        _ => profiles[0].name,
    };
    AppView {
        profiles: ProfileStoreView { profiles, active: Some(active) },
        section_filter: profiles[profile::find_name(profiles, active).unwrap()].section_filter,
        ..st
    }
}

/// Enforce the "always at least one profile, and it is active" invariant, then
/// mirror the active profile's section filter into live view state. Device
/// settings are never applied here.
fn ensure_active_profile(state: &mut App)
    requires
        old(state).wf(),
    ensures
        final(state).wf(),
        final(state)@ == with_active_profile(old(state)@),
{
    let ghost before = state@;
    if state.profiles.profiles.len() == 0 {
        state.profiles.profiles.push(Profile::blank("Default".to_owned()));
    }
    let ghost profiles = state@.profiles.profiles;
    assert(profiles =~= if before.profiles.profiles.len() == 0 {
        seq![ProfileView::blank("Default"@)]
    } else {
        before.profiles.profiles
    });
    let valid: bool = match &state.profiles.active {
        Some(a) => state.profiles.position(a.as_str()).is_some(),
        None => false,
    };
    if !valid {
        state.profiles.active = Some(state.profiles.profiles[0].name.clone());
    }
    proof {
        profile::position_of_holds(profiles, profiles[0].name, profiles.len() as int);
        assert(profiles[0].name == state.profiles.profiles@[0].name@);
    }
    match &state.profiles.active {
        Some(active) => match state.profiles.find(active.as_str()) {
            Some(p) => {
                state.section_filter = p.section_filter;
            },
            None => {},
        },
        None => {},
    }
}

/// There is a profile and one of them is active: what every state is in from
/// the start and stays in.
pub open spec fn one_active(st: AppView) -> bool {
    st.profiles.active matches Some(a) && profile::find_name(st.profiles.profiles, a) is Some
}

/// Enforcing the profile invariant establishes it.
pub proof fn active_profile_is_enforced(st: AppView)
    ensures
        one_active(with_active_profile(st)),
        with_active_profile(st).profiles.profiles.len() > 0,
{
    let profiles = with_active_profile(st).profiles.profiles;
    profile::position_of_holds(profiles, profiles[0].name, profiles.len() as int);
}

// --- Levels and routes -------------------------------------------------------------------

/// A mute, then on unmute the volume again. Bluetooth sinks zero their device
/// volume on mute and don't restore it on unmute, so the re-assert snaps them
/// back.
pub open spec fn mute_reasserted(w: Work, node_id: u32, mute: bool, volume: Gain) -> Work {
    let muted = w.send(CommandView::SetMute { node_id, mute });
    if mute {
        muted
    } else {
        muted.send(CommandView::SetVolume { node_id, volume })
    }
}

fn send_mute_reassert(fx: &mut Effects, node_id: u32, mute: bool, volume: Gain)
    ensures
        final(fx).saves == old(fx).saves,
        final(fx).overtaken == old(fx).overtaken,
        final(fx).connected == old(fx).connected,
        command_views(final(fx).commands@) == if !old(fx).connected {
            command_views(old(fx).commands@)
        } else {
            let muted = command_views(old(fx).commands@).push(
                CommandView::SetMute { node_id, mute },
            );
            if mute {
                muted
            } else {
                muted.push(CommandView::SetVolume { node_id, volume })
            }
        },
{
    fx.send(Command::SetMute { node_id, mute });
    if !mute {
        fx.send(Command::SetVolume { node_id, volume });
    }
}

/// One stream's gain set, and the sound server told unless the row is only
/// remembered: a remembered row has no live node, and what is set on it is
/// replayed when its app reconnects.
pub open spec fn volume_set(w: Work, id: u32, volume: Gain) -> Work {
    let next = match ordered::lookup(w.state.streams, id) {
        Some(s) => w.with(with_stream(w.state, id, StreamView { volume, ..s })),
        None => w,
    };
    if w.state.tombstoned.contains(id) {
        next
    } else {
        next.send(CommandView::SetVolume { node_id: id, volume })
    }
}

fn set_volume(state: &mut App, fx: &mut Effects, id: u32, volume: Gain)
    requires
        old(state).wf(),
    ensures
        final(state).wf(),
        work(*final(state), *final(fx)) == volume_set(work(*old(state), *old(fx)), id, volume),
{
    proof {
        stream_id(state@.streams, id);
        if let Some(s) = ordered::lookup(state@.streams, id) {
            put_stream_wf(state@.streams, StreamView { volume, ..s });
        }
    }
    match state.streams.get_mut(&id) {
        Some(s) => s.set_uniform_volume(volume),
        None => {},
    }
    if !state.tombstoned.contains(&id) {
        fx.send(Command::SetVolume { node_id: id, volume });
    }
}

/// One stream's mute set, where it is there, and the sound server told unless
/// the row is only remembered.
pub open spec fn mute_set(w: Work, id: u32, mute: bool) -> Work {
    match ordered::lookup(w.state.streams, id) {
        Some(s) => {
            let next = w.with(with_stream(w.state, id, StreamView { muted: mute, ..s }));
            if w.state.tombstoned.contains(id) {
                next
            } else {
                mute_reasserted(next, id, mute, s.volume)
            }
        },
        None => w,
    }
}

/// Set one stream's mute: flip the local flag, then push it. Remembered rows
/// get the local flip only.
fn set_mute(state: &mut App, fx: &mut Effects, id: u32, mute: bool)
    requires
        old(state).wf(),
    ensures
        final(state).wf(),
        work(*final(state), *final(fx)) == mute_set(work(*old(state), *old(fx)), id, mute),
{
    proof {
        stream_id(state@.streams, id);
        if let Some(s) = ordered::lookup(state@.streams, id) {
            put_stream_wf(state@.streams, StreamView { muted: mute, ..s });
        }
    }
    let tombstoned: bool = state.tombstoned.contains(&id);
    let volume: Gain = match state.streams.get_mut(&id) {
        Some(s) => {
            s.muted = mute;
            s.volume
        },
        None => {
            return;
        },
    };
    if !tombstoned {
        send_mute_reassert(fx, id, mute, volume);
    }
}

/// The mutes of the first `n` streams listed, set one after another.
pub open spec fn mutes_set(w: Work, ids: Seq<u32>, mute: bool, n: int) -> Work
    decreases n,
{
    if n <= 0 {
        w
    } else {
        mute_set(mutes_set(w, ids, mute, n - 1), ids[n - 1], mute)
    }
}

fn set_mutes(state: &mut App, fx: &mut Effects, ids: &Vec<u32>, mute: bool)
    requires
        old(state).wf(),
    ensures
        final(state).wf(),
        work(*final(state), *final(fx)) == mutes_set(
            work(*old(state), *old(fx)),
            ids@,
            mute,
            ids@.len() as int,
        ),
{
    let mut i: usize = 0;
    while i < ids.len()
        invariant
            i <= ids@.len(),
            state.wf(),
            work(*state, *fx) == mutes_set(work(*old(state), *old(fx)), ids@, mute, i as int),
        decreases ids@.len() - i,
    {
        set_mute(state, fx, ids[i], mute);
        i = i + 1;
    }
}

/// Every listed stream that is there is muted.
pub open spec fn all_muted(streams: Seq<(u32, StreamView)>, ids: Seq<u32>) -> bool {
    forall|i: int|
        0 <= i < ids.len() ==> (ordered::lookup(streams, #[trigger] ids[i]) matches Some(s)
            ==> s.muted)
}

/// A collapsed row's mute toggled: if every member is muted, unmute all;
/// otherwise mute all.
pub open spec fn group_mute_toggled(w: Work, ids: Seq<u32>) -> Work {
    mutes_set(w, ids, !all_muted(w.state.streams, ids), ids.len() as int)
}

fn apply_group_mute(state: &mut App, fx: &mut Effects, ids: &Vec<u32>)
    requires
        old(state).wf(),
    ensures
        final(state).wf(),
        work(*final(state), *final(fx)) == group_mute_toggled(work(*old(state), *old(fx)), ids@),
{
    let mut all: bool = true;
    let mut i: usize = 0;
    while i < ids.len() && all
        invariant
            i <= ids@.len(),
            state.wf(),
            all ==> forall|k: int|
                0 <= k < i ==> (ordered::lookup(state@.streams, #[trigger] ids@[k]) matches Some(s)
                    ==> s.muted),
            !all ==> !all_muted(state@.streams, ids@),
        decreases ids@.len() - i,
    {
        match state.streams.get(&ids[i]) {
            Some(s) => {
                if !s.muted {
                    all = false;
                    assert(ordered::lookup(state@.streams, ids@[i as int]) is Some);
                }
            },
            None => {},
        }
        i = i + 1;
    }
    set_mutes(state, fx, ids, !all);
}

/// The ids, ascending, of the outputs among the first `n` streams.
pub open spec fn output_ids(streams: Seq<(u32, StreamView)>, n: int) -> Seq<u32>
    decreases n,
{
    if n <= 0 {
        Seq::empty()
    } else if streams[n - 1].1.kind == StreamKind::Sink {
        output_ids(streams, n - 1).push(streams[n - 1].0)
    } else {
        output_ids(streams, n - 1)
    }
}

/// Every output muted if any was not, else every output unmuted.
pub open spec fn outputs_toggled(w: Work) -> Work {
    let ids = output_ids(w.state.streams, w.state.streams.len() as int);
    mutes_set(w, ids, !outputs_muted(w.state.streams), ids.len() as int)
}

fn toggle_outputs(state: &mut App, fx: &mut Effects)
    requires
        old(state).wf(),
    ensures
        final(state).wf(),
        work(*final(state), *final(fx)) == outputs_toggled(work(*old(state), *old(fx))),
{
    // If anything is unmuted, mute all outputs; else unmute all.
    let mute: bool = !state.all_outputs_muted();
    let mut ids: Vec<u32> = Vec::new();
    let mut i: usize = 0;
    while i < state.streams.entries.len()
        invariant
            i <= state.streams.entries@.len(),
            ids@ == output_ids(state@.streams, i as int),
        decreases state.streams.entries@.len() - i,
    {
        let s: &Stream = &state.streams.entries[i].1;
        assert(state@.streams[i as int].1 == s@);
        if s.kind == StreamKind::Sink {
            ids.push(state.streams.entries[i].0);
        }
        i = i + 1;
    }
    set_mutes(state, fx, &ids, mute);
}

/// The cubic gain under which a group counts as silent: a millionth.
pub const SILENCE: u32 = 0x3586_37bd;

/// The cubic gain a stream has, by the last of the first `n` reports on it.
pub open spec fn level_of(levels: Seq<(u32, Gain)>, id: u32, n: int) -> Gain
    decreases n,
{
    if n <= 0 {
        Gain { bits: 0 }
    } else if levels[n - 1].0 == id {
        levels[n - 1].1
    } else {
        level_of(levels, id, n - 1)
    }
}

/// The cubic gain of the loudest of the first `n` members.
pub open spec fn master_level(levels: Seq<(u32, Gain)>, ids: Seq<u32>, n: int) -> Gain
    decreases n,
{
    if n <= 0 {
        Gain { bits: 0 }
    } else {
        let rest = master_level(levels, ids, n - 1);
        let own = level_of(levels, ids[n - 1], levels.len() as int);
        if gain::above(own, rest.bits) {
            own
        } else {
            rest
        }
    }
}

/// The linear gain a member takes when its group is moved to `target`: members
/// keep their levels relative to the loudest one, up to the loudest gain there
/// is; a silent group moves there as one.
pub open spec fn member_gain(level: Gain, master: Gain, target: Gain) -> Gain {
    if gain::above(master, SILENCE) {
        gain::cubed(gain::limited(gain::product(level, gain::quotient(target, master))))
    } else {
        gain::cubed(target)
    }
}

/// The first `n` members of a group moved to `target`.
pub open spec fn volumes_set(
    w: Work,
    levels: Seq<(u32, Gain)>,
    ids: Seq<u32>,
    master: Gain,
    target: Gain,
    n: int,
) -> Work
    decreases n,
{
    if n <= 0 {
        w
    } else {
        let level = level_of(levels, ids[n - 1], levels.len() as int);
        volume_set(
            volumes_set(w, levels, ids, master, target, n - 1),
            ids[n - 1],
            member_gain(level, master, target),
        )
    }
}

fn find_level(levels: &Vec<(u32, Gain)>, id: u32) -> (level: Gain)
    ensures
        level == level_of(levels@, id, levels@.len() as int),
{
    let mut level = Gain { bits: 0 };
    let mut i: usize = 0;
    while i < levels.len()
        invariant
            i <= levels@.len(),
            level == level_of(levels@, id, i as int),
        decreases levels@.len() - i,
    {
        if levels[i].0 == id {
            level = levels[i].1;
        }
        i = i + 1;
    }
    level
}

fn find_master(levels: &Vec<(u32, Gain)>, ids: &Vec<u32>) -> (master: Gain)
    ensures
        master == master_level(levels@, ids@, ids@.len() as int),
{
    let mut master = Gain { bits: 0 };
    let mut i: usize = 0;
    while i < ids.len()
        invariant
            i <= ids@.len(),
            master == master_level(levels@, ids@, i as int),
        decreases ids@.len() - i,
    {
        let own = find_level(levels, ids[i]);
        if is_above(own, master.bits) {
            master = own;
        }
        i = i + 1;
    }
    master
}

fn apply_group_volume(
    state: &mut App,
    fx: &mut Effects,
    levels: &Vec<(u32, Gain)>,
    ids: &Vec<u32>,
    target: Gain,
)
    requires
        old(state).wf(),
    ensures
        final(state).wf(),
        work(*final(state), *final(fx)) == volumes_set(
            work(*old(state), *old(fx)),
            levels@,
            ids@,
            master_level(levels@, ids@, ids@.len() as int),
            target,
            ids@.len() as int,
        ),
{
    let master = find_master(levels, ids);
    let loud = is_above(master, SILENCE);
    let ratio: Gain = if loud {
        over(target, master)
    } else {
        target
    };
    let mut i: usize = 0;
    while i < ids.len()
        invariant
            i <= ids@.len(),
            state.wf(),
            loud == gain::above(master, SILENCE),
            ratio == if loud {
                gain::quotient(target, master)
            } else {
                target
            },
            work(*state, *fx) == volumes_set(
                work(*old(state), *old(fx)),
                levels@,
                ids@,
                master,
                target,
                i as int,
            ),
        decreases ids@.len() - i,
    {
        let level = find_level(levels, ids[i]);
        let cubic: Gain = if loud {
            limit(times(level, ratio))
        } else {
            target
        };
        set_volume(state, fx, ids[i], cubic_to_linear(cubic));
        i = i + 1;
    }
}

/// One stream pinned to a sink, or unpinned, and the sound server told unless
/// the row is only remembered.
pub open spec fn target_set(w: Work, id: u32, target: Option<Seq<char>>) -> Work {
    let next = match ordered::lookup(w.state.streams, id) {
        Some(s) => w.with(with_stream(w.state, id, StreamView { target_sink_name: target, ..s })),
        None => w,
    };
    if w.state.tombstoned.contains(id) {
        next
    } else {
        next.send(CommandView::SetStreamTarget { node_id: id, sink_node_name: target })
    }
}

/// Apply a per-stream output target to one app stream (or clear it when
/// `None`), then push it. Remembered rows get the local update only; the
/// reconnect path replays the pin.
fn set_app_target(state: &mut App, fx: &mut Effects, id: u32, target: &Option<String>)
    requires
        old(state).wf(),
    ensures
        final(state).wf(),
        work(*final(state), *final(fx)) == target_set(
            work(*old(state), *old(fx)),
            id,
            text::opt(*target),
        ),
{
    proof {
        stream_id(state@.streams, id);
        if let Some(s) = ordered::lookup(state@.streams, id) {
            put_stream_wf(
                state@.streams,
                StreamView { target_sink_name: text::opt(*target), ..s },
            );
        }
    }
    match state.streams.get_mut(&id) {
        Some(s) => {
            s.target_sink_name = clone_opt(target);
        },
        None => {},
    }
    if !state.tombstoned.contains(&id) {
        fx.send(Command::SetStreamTarget { node_id: id, sink_node_name: clone_opt(target) });
    }
}

/// The first `n` streams listed pinned to a sink, or unpinned.
pub open spec fn targets_set(w: Work, ids: Seq<u32>, target: Option<Seq<char>>, n: int) -> Work
    decreases n,
{
    if n <= 0 {
        w
    } else {
        target_set(targets_set(w, ids, target, n - 1), ids[n - 1], target)
    }
}

/// Apply a target (or clear it) to every stream listed.
fn apply_group_target(state: &mut App, fx: &mut Effects, ids: &Vec<u32>, target: &Option<String>)
    requires
        old(state).wf(),
    ensures
        final(state).wf(),
        work(*final(state), *final(fx)) == targets_set(
            work(*old(state), *old(fx)),
            ids@,
            text::opt(*target),
            ids@.len() as int,
        ),
{
    let mut i: usize = 0;
    while i < ids.len()
        invariant
            i <= ids@.len(),
            state.wf(),
            work(*state, *fx) == targets_set(
                work(*old(state), *old(fx)),
                ids@,
                text::opt(*target),
                i as int,
            ),
        decreases ids@.len() - i,
    {
        set_app_target(state, fx, ids[i], target);
        i = i + 1;
    }
}

/// The ids, ascending, of the pinned application streams among the first `n`.
pub open spec fn pinned_ids(streams: Seq<(u32, StreamView)>, n: int) -> Seq<u32>
    decreases n,
{
    if n <= 0 {
        Seq::empty()
    } else {
        let s = streams[n - 1].1;
        if s.kind == StreamKind::Application && s.target_sink_name is Some {
            pinned_ids(streams, n - 1).push(streams[n - 1].0)
        } else {
            pinned_ids(streams, n - 1)
        }
    }
}

fn list_pinned(state: &App) -> (ids: Vec<u32>)
    ensures
        ids@ == pinned_ids(state@.streams, state@.streams.len() as int),
{
    let mut ids: Vec<u32> = Vec::new();
    let mut i: usize = 0;
    while i < state.streams.entries.len()
        invariant
            i <= state.streams.entries@.len(),
            ids@ == pinned_ids(state@.streams, i as int),
        decreases state.streams.entries@.len() - i,
    {
        let s: &Stream = &state.streams.entries[i].1;
        assert(state@.streams[i as int].1 == s@);
        if s.kind == StreamKind::Application && s.target_sink_name.is_some() {
            ids.push(state.streams.entries[i].0);
        }
        i = i + 1;
    }
    ids
}

/// A device made the default for its direction: nothing unless it is a device
/// of that kind, with a name, and not the default already, and there is a sound
/// server to ask.
pub open spec fn default_made(w: Work, id: u32, kind: StreamKind) -> Work {
    match ordered::lookup(w.state.streams, id) {
        Some(s) if w.connected && s.kind == kind && !s.is_default && kind
            != StreamKind::Application => {
            match s.node_name {
                Some(node_name) => {
                    let sent = if kind == StreamKind::Sink {
                        w.send(CommandView::SetDefaultSink { node_name })
                    } else {
                        w.send(CommandView::SetDefaultSource { node_name })
                    };
                    sent.with(dirtied(w.state))
                },
                None => w,
            }
        },
        _ => w,
    }
}

/// Make stream `id` the system default for its direction. No-op if `id` isn't a
/// non-default device of `kind` or there is no sound server.
fn make_default(state: &mut App, fx: &mut Effects, id: u32, kind: StreamKind)
    requires
        old(state).wf(),
    ensures
        final(state).wf(),
        work(*final(state), *final(fx)) == default_made(work(*old(state), *old(fx)), id, kind),
{
    let target: Option<String> = match state.streams.get(&id) {
        Some(s) => if fx.connected && s.kind == kind && !s.is_default {
            clone_opt(&s.node_name)
        } else {
            None
        },
        None => None,
    };
    match target {
        Some(node_name) => match kind {
            StreamKind::Sink => {
                fx.send(Command::SetDefaultSink { node_name });
                mark_dirty(state);
            },
            StreamKind::Source => {
                fx.send(Command::SetDefaultSource { node_name });
                mark_dirty(state);
            },
            StreamKind::Application => {},
        },
        None => {},
    }
}

// --- Presets ---------------------------------------------------------------------------------

/// A device's preset applied to a stream, and the sound server told unless the
/// row is only remembered.
pub open spec fn device_applied(w: Work, id: u32, settings: DeviceSettings) -> Work {
    let next = match ordered::lookup(w.state.streams, id) {
        Some(s) => w.with(with_stream(w.state, id, leveled(s, settings.volume, settings.muted))),
        None => w,
    };
    if w.state.tombstoned.contains(id) {
        next
    } else {
        mute_reasserted(
            next.send(CommandView::SetVolume { node_id: id, volume: settings.volume }),
            id,
            settings.muted,
            settings.volume,
        )
    }
}

/// Push a saved device preset (volume + mute) onto a live sink or source.
/// Direction-agnostic; devices carry no per-stream target.
fn apply_device_settings(state: &mut App, fx: &mut Effects, id: u32, settings: &DeviceSettings)
    requires
        old(state).wf(),
    ensures
        final(state).wf(),
        work(*final(state), *final(fx)) == device_applied(
            work(*old(state), *old(fx)),
            id,
            *settings,
        ),
{
    proof {
        stream_id(state@.streams, id);
        if let Some(s) = ordered::lookup(state@.streams, id) {
            put_stream_wf(state@.streams, leveled(s, settings.volume, settings.muted));
        }
    }
    match state.streams.get_mut(&id) {
        Some(s) => {
            s.set_uniform_volume(settings.volume);
            s.muted = settings.muted;
        },
        None => {},
    }
    if !state.tombstoned.contains(&id) {
        // The volume, then the mute with the unmute re-assert.
        fx.send(Command::SetVolume { node_id: id, volume: settings.volume });
        send_mute_reassert(fx, id, settings.muted, settings.volume);
    }
}

/// An application's preset applied to a stream, and the sound server told unless
/// the row is only remembered.
pub open spec fn app_applied(w: Work, id: u32, settings: AppSettingsView) -> Work {
    let next = match ordered::lookup(w.state.streams, id) {
        Some(s) => w.with(
            with_stream(
                w.state,
                id,
                StreamView {
                    volume: settings.volume,
                    muted: settings.muted,
                    target_sink_name: settings.target_sink_name,
                    ..s
                },
            ),
        ),
        None => w,
    };
    if w.state.tombstoned.contains(id) {
        next
    } else {
        next.send(CommandView::SetVolume { node_id: id, volume: settings.volume }).send(
            CommandView::SetMute { node_id: id, mute: settings.muted },
        ).send(
            CommandView::SetStreamTarget {
                node_id: id,
                sink_node_name: settings.target_sink_name,
            },
        )
    }
}

fn apply_app_settings(state: &mut App, fx: &mut Effects, id: u32, settings: &AppSettings)
    requires
        old(state).wf(),
    ensures
        final(state).wf(),
        work(*final(state), *final(fx)) == app_applied(work(*old(state), *old(fx)), id, settings@),
{
    proof {
        stream_id(state@.streams, id);
        if let Some(s) = ordered::lookup(state@.streams, id) {
            put_stream_wf(
                state@.streams,
                StreamView {
                    volume: settings.volume,
                    muted: settings.muted,
                    target_sink_name: settings@.target_sink_name,
                    ..s
                },
            );
        }
    }
    match state.streams.get_mut(&id) {
        Some(s) => {
            s.set_uniform_volume(settings.volume);
            s.muted = settings.muted;
            s.target_sink_name = clone_opt(&settings.target_sink_name);
        },
        None => {},
    }
    if !state.tombstoned.contains(&id) {
        fx.send(Command::SetVolume { node_id: id, volume: settings.volume });
        fx.send(Command::SetMute { node_id: id, mute: settings.muted });
        fx.send(
            Command::SetStreamTarget {
                node_id: id,
                sink_node_name: clone_opt(&settings.target_sink_name),
            },
        );
    }
}

/// The first `n` device presets applied to the devices of those names.
pub open spec fn devices_applied(w: Work, kind: StreamKind, entries: DeviceEntries, n: int) -> Work
    decreases n,
{
    if n <= 0 {
        w
    } else {
        let rest = devices_applied(w, kind, entries, n - 1);
        match device_named(
            rest.state.streams,
            kind,
            entries[n - 1].0,
            rest.state.streams.len() as int,
        ) {
            Some(id) => device_applied(rest, id, entries[n - 1].1),
            None => rest,
        }
    }
}

/// Of the first `n` device presets, those whose device is not there.
pub open spec fn devices_waiting(
    w: Work,
    kind: StreamKind,
    entries: DeviceEntries,
    n: int,
) -> DeviceEntries
    decreases n,
{
    if n <= 0 {
        Seq::empty()
    } else {
        let rest = devices_applied(w, kind, entries, n - 1);
        let waiting = devices_waiting(w, kind, entries, n - 1);
        if device_named(
            rest.state.streams,
            kind,
            entries[n - 1].0,
            rest.state.streams.len() as int,
        ) is Some {
            waiting
        } else {
            ordered::put::<String, DeviceSettings>(waiting, entries[n - 1].0, entries[n - 1].1)
        }
    }
}

fn apply_devices(state: &mut App, fx: &mut Effects, kind: StreamKind, map: &DeviceMap) -> (waiting:
    DeviceMap)
    requires
        old(state).wf(),
    ensures
        final(state).wf(),
        waiting.wf(),
        work(*final(state), *final(fx)) == devices_applied(
            work(*old(state), *old(fx)),
            kind,
            map@,
            map@.len() as int,
        ),
        waiting@ == devices_waiting(work(*old(state), *old(fx)), kind, map@, map@.len() as int),
{
    let mut waiting: DeviceMap = OrderedMap::new();
    let mut i: usize = 0;
    while i < map.entries.len()
        invariant
            i <= map.entries@.len(),
            state.wf(),
            waiting.wf(),
            work(*state, *fx) == devices_applied(
                work(*old(state), *old(fx)),
                kind,
                map@,
                i as int,
            ),
            waiting@ == devices_waiting(work(*old(state), *old(fx)), kind, map@, i as int),
        decreases map.entries@.len() - i,
    {
        let name: &String = &map.entries[i].0;
        let settings: DeviceSettings = map.entries[i].1;
        assert(map@[i as int] == (name@, settings));
        match find_device(state, kind, name.as_str()) {
            Some(id) => apply_device_settings(state, fx, id, &settings),
            None => {
                waiting.insert(name.clone(), settings);
            },
        }
        i = i + 1;
    }
    waiting
}

/// The first `n` application presets applied to the applications' streams.
pub open spec fn apps_applied(w: Work, entries: AppEntries, n: int) -> Work
    decreases n,
{
    if n <= 0 {
        w
    } else {
        let rest = apps_applied(w, entries, n - 1);
        match app_named(rest.state.streams, entries[n - 1].0, rest.state.streams.len() as int) {
            Some(id) => app_applied(rest, id, entries[n - 1].1),
            None => rest,
        }
    }
}

/// Of the first `n` application presets, those whose application is not there.
pub open spec fn apps_waiting(w: Work, entries: AppEntries, n: int) -> AppEntries
    decreases n,
{
    if n <= 0 {
        Seq::empty()
    } else {
        let rest = apps_applied(w, entries, n - 1);
        let waiting = apps_waiting(w, entries, n - 1);
        if app_named(rest.state.streams, entries[n - 1].0, rest.state.streams.len() as int) is Some {
            waiting
        } else {
            ordered::put::<String, AppSettingsView>(waiting, entries[n - 1].0, entries[n - 1].1)
        }
    }
}

fn apply_apps(state: &mut App, fx: &mut Effects, map: &AppMap) -> (waiting: AppMap)
    requires
        old(state).wf(),
    ensures
        final(state).wf(),
        waiting.wf(),
        work(*final(state), *final(fx)) == apps_applied(
            work(*old(state), *old(fx)),
            map@,
            map@.len() as int,
        ),
        waiting@ == apps_waiting(work(*old(state), *old(fx)), map@, map@.len() as int),
{
    let mut waiting: AppMap = OrderedMap::new();
    let mut i: usize = 0;
    while i < map.entries.len()
        invariant
            i <= map.entries@.len(),
            state.wf(),
            waiting.wf(),
            work(*state, *fx) == apps_applied(work(*old(state), *old(fx)), map@, i as int),
            waiting@ == apps_waiting(work(*old(state), *old(fx)), map@, i as int),
        decreases map.entries@.len() - i,
    {
        let key: &String = &map.entries[i].0;
        let settings: &AppSettings = &map.entries[i].1;
        assert(map@[i as int] == (key@, settings@));
        match find_app(state, key.as_str()) {
            Some(id) => apply_app_settings(state, fx, id, settings),
            None => {
                waiting.insert(key.clone(), settings.clone());
            },
        }
        i = i + 1;
    }
    waiting
}

/// A preset default device made the default, where it is there.
pub open spec fn default_applied(w: Work, kind: StreamKind, name: Option<Seq<char>>) -> Work {
    match name {
        Some(node_name) => if device_named(
            w.state.streams,
            kind,
            node_name,
            w.state.streams.len() as int,
        ) is Some {
            if kind == StreamKind::Sink {
                w.send(CommandView::SetDefaultSink { node_name })
            } else {
                w.send(CommandView::SetDefaultSource { node_name })
            }
        } else {
            w
        },
        None => w,
    }
}

/// A preset default device that is not there.
pub open spec fn default_waiting(w: Work, kind: StreamKind, name: Option<Seq<char>>) -> Option<
    Seq<char>,
> {
    match name {
        Some(n) => if device_named(w.state.streams, kind, n, w.state.streams.len() as int)
            is Some {
            None
        } else {
            Some(n)
        },
        None => None,
    }
}

fn apply_default(state: &App, fx: &mut Effects, kind: StreamKind, name: &Option<String>) -> (waiting:
    Option<String>)
    requires
        kind != StreamKind::Application,
    ensures
        work(*state, *final(fx)) == default_applied(work(*state, *old(fx)), kind, text::opt(*name)),
        text::opt(waiting) == default_waiting(work(*state, *old(fx)), kind, text::opt(*name)),
{
    match name {
        Some(n) => {
            if find_device(state, kind, n.as_str()).is_some() {
                let node_name: String = n.clone();
                match kind {
                    StreamKind::Sink => fx.send(Command::SetDefaultSink { node_name }),
                    _ => fx.send(Command::SetDefaultSource { node_name }),
                }
                None
            } else {
                Some(n.clone())
            }
        },
        None => None,
    }
}

/// In-flight changes flushed to the previous profile before another takes over.
/// Re-applying the same profile is not a flush; it's a "revert to saved"
/// gesture.
pub open spec fn flushed(w: Work, name: Seq<char>) -> Work {
    if w.state.dirty && w.state.profiles.active is Some && w.state.profiles.active != Some(name) {
        autosaved(w)
    } else {
        w
    }
}

/// Flush in-flight changes to the previous profile first.
fn flush(state: &mut App, fx: &mut Effects, name: &str)
    requires
        old(state).wf(),
    ensures
        final(state).wf(),
        work(*final(state), *final(fx)) == flushed(work(*old(state), *old(fx)), name@),
{
    if state.dirty && state.profiles.active.is_some() && !opt_is(&state.profiles.active, name) {
        autosave(state, fx);
    }
}

/// The words for a profile that is not there.
pub open spec fn not_found(name: Seq<char>) -> Seq<char> {
    "profile '"@ + name + "' not found"@
}

fn not_found_text(name: &str) -> (s: String)
    ensures
        s@ == not_found(name@),
{
    "profile '".to_owned().concat(name).concat("' not found")
}

/// Every entry of a profile put onto live state, in order.
pub open spec fn presets_applied(w: Work, p: ProfileView) -> Work {
    let w1 = devices_applied(w, StreamKind::Sink, p.sinks, p.sinks.len() as int);
    let w2 = devices_applied(w1, StreamKind::Source, p.sources, p.sources.len() as int);
    let w3 = apps_applied(w2, p.apps, p.apps.len() as int);
    let w4 = default_applied(w3, StreamKind::Sink, p.default_sink);
    default_applied(w4, StreamKind::Source, p.default_source)
}

/// The entries of a profile that no stream was there for.
pub open spec fn presets_waiting(w: Work, p: ProfileView) -> PendingView {
    let w1 = devices_applied(w, StreamKind::Sink, p.sinks, p.sinks.len() as int);
    let w2 = devices_applied(w1, StreamKind::Source, p.sources, p.sources.len() as int);
    let w3 = apps_applied(w2, p.apps, p.apps.len() as int);
    let w4 = default_applied(w3, StreamKind::Sink, p.default_sink);
    PendingView {
        sinks: devices_waiting(w, StreamKind::Sink, p.sinks, p.sinks.len() as int),
        sources: devices_waiting(w1, StreamKind::Source, p.sources, p.sources.len() as int),
        apps: apps_waiting(w2, p.apps, p.apps.len() as int),
        default_sink: default_waiting(w3, StreamKind::Sink, p.default_sink),
        default_source: default_waiting(w4, StreamKind::Source, p.default_source),
    }
}

/// A profile applied: every entry of it goes onto live state, in order; the
/// unmatched ones wait for their stream.
pub open spec fn profile_applied(w: Work, name: Seq<char>) -> Work {
    let w0 = flushed(w, name);
    match profile::find_name(w0.state.profiles.profiles, name) {
        None => w0.say(not_found(name)),
        Some(at) => {
            let p = w0.state.profiles.profiles[at];
            let done = presets_applied(w0, p);
            done.with(
                AppView {
                    section_filter: p.section_filter,
                    pending: presets_waiting(w0, p),
                    profiles: ProfileStoreView { active: Some(p.name), ..done.state.profiles },
                    dirty: false,
                    ..done.state
                },
            ).persist()
        },
    }
}

fn apply_presets(state: &mut App, fx: &mut Effects, profile: &Profile) -> (waiting: Pending)
    requires
        old(state).wf(),
    ensures
        final(state).wf(),
        waiting@.wf(),
        work(*final(state), *final(fx)) == presets_applied(work(*old(state), *old(fx)), profile@),
        waiting@ == presets_waiting(work(*old(state), *old(fx)), profile@),
{
    let sinks: DeviceMap = apply_devices(state, fx, StreamKind::Sink, &profile.sinks);
    let sources: DeviceMap = apply_devices(state, fx, StreamKind::Source, &profile.sources);
    let apps: AppMap = apply_apps(state, fx, &profile.apps);
    let default_sink: Option<String> = apply_default(
        state,
        fx,
        StreamKind::Sink,
        &profile.default_sink,
    );
    let default_source: Option<String> = apply_default(
        state,
        fx,
        StreamKind::Source,
        &profile.default_source,
    );
    Pending { sinks, sources, apps, default_sink, default_source }
}

/// Push every entry of the named profile onto live state. Unmatched entries go
/// into `pending` and apply when the stream connects.
fn apply_profile(state: &mut App, fx: &mut Effects, name: &str)
    requires
        old(state).wf(),
    ensures
        final(state).wf(),
        work(*final(state), *final(fx)) == profile_applied(work(*old(state), *old(fx)), name@),
{
    flush(state, fx, name);
    let profile: Profile = match state.profiles.find(name) {
        Some(p) => p.clone(),
        None => {
            say(state, fx, not_found_text(name));
            return;
        },
    };
    let waiting: Pending = apply_presets(state, fx, &profile);
    state.section_filter = profile.section_filter;
    state.pending = waiting;
    state.profiles.active = Some(profile.name);
    state.dirty = false;
    persist(state, fx);
}

/// A waiting sink preset applied to the sink it waited for, and no longer
/// waiting, so a later reconnect doesn't reapply stale state.
pub open spec fn sink_consumed(w: Work, id: u32, name: Seq<char>) -> Work {
    let taken = w.with(
        AppView {
            pending: PendingView {
                sinks: ordered::without(w.state.pending.sinks, name),
                ..w.state.pending
            },
            ..w.state
        },
    );
    let applied = match ordered::lookup(w.state.pending.sinks, name) {
        Some(settings) => device_applied(taken, id, settings),
        None => taken,
    };
    if w.state.pending.default_sink == Some(name) {
        applied.with(
            AppView {
                pending: PendingView { default_sink: None, ..applied.state.pending },
                ..applied.state
            },
        ).send(CommandView::SetDefaultSink { node_name: name })
    } else {
        applied
    }
}

fn consume_sink(state: &mut App, fx: &mut Effects, id: u32, name: String)
    requires
        old(state).wf(),
    ensures
        final(state).wf(),
        work(*final(state), *final(fx)) == sink_consumed(work(*old(state), *old(fx)), id, name@),
{
    let waiting: Option<DeviceSettings> = state.pending.sinks.remove(&name);
    match waiting {
        Some(settings) => apply_device_settings(state, fx, id, &settings),
        None => {},
    }
    if opt_is(&state.pending.default_sink, name.as_str()) {
        state.pending.default_sink = None;
        fx.send(Command::SetDefaultSink { node_name: name });
    }
}

/// A waiting source preset applied to the source it waited for, and no longer
/// waiting, so a later reconnect doesn't reapply stale state.
pub open spec fn source_consumed(w: Work, id: u32, name: Seq<char>) -> Work {
    let taken = w.with(
        AppView {
            pending: PendingView {
                sources: ordered::without(w.state.pending.sources, name),
                ..w.state.pending
            },
            ..w.state
        },
    );
    let applied = match ordered::lookup(w.state.pending.sources, name) {
        Some(settings) => device_applied(taken, id, settings),
        None => taken,
    };
    if w.state.pending.default_source == Some(name) {
        applied.with(
            AppView {
                pending: PendingView { default_source: None, ..applied.state.pending },
                ..applied.state
            },
        ).send(CommandView::SetDefaultSource { node_name: name })
    } else {
        applied
    }
}

fn consume_source(state: &mut App, fx: &mut Effects, id: u32, name: String)
    requires
        old(state).wf(),
    ensures
        final(state).wf(),
        work(*final(state), *final(fx)) == source_consumed(work(*old(state), *old(fx)), id, name@),
{
    let waiting: Option<DeviceSettings> = state.pending.sources.remove(&name);
    match waiting {
        Some(settings) => apply_device_settings(state, fx, id, &settings),
        None => {},
    }
    if opt_is(&state.pending.default_source, name.as_str()) {
        state.pending.default_source = None;
        fx.send(Command::SetDefaultSource { node_name: name });
    }
}

/// A waiting application preset applied to the stream it waited for, and no
/// longer waiting.
pub open spec fn app_consumed(w: Work, id: u32, key: Seq<char>) -> Work {
    let taken = w.with(
        AppView {
            pending: PendingView {
                apps: ordered::without(w.state.pending.apps, key),
                ..w.state.pending
            },
            ..w.state
        },
    );
    match ordered::lookup(w.state.pending.apps, key) {
        Some(settings) => app_applied(taken, id, settings),
        None => taken,
    }
}

fn consume_app(state: &mut App, fx: &mut Effects, id: u32, key: String)
    requires
        old(state).wf(),
    ensures
        final(state).wf(),
        work(*final(state), *final(fx)) == app_consumed(work(*old(state), *old(fx)), id, key@),
{
    let waiting: Option<AppSettings> = state.pending.apps.remove(&key);
    match waiting {
        Some(settings) => apply_app_settings(state, fx, id, &settings),
        None => {},
    }
}

/// Whatever preset waited for a stream applied to it.
pub open spec fn pending_consumed(w: Work, id: u32) -> Work {
    match ordered::lookup(w.state.streams, id) {
        None => w,
        Some(s) => match s.kind {
            StreamKind::Sink => match s.node_name {
                None => w,
                Some(name) => sink_consumed(w, id, name),
            },
            StreamKind::Source => match s.node_name {
                None => w,
                Some(name) => source_consumed(w, id, name),
            },
            StreamKind::Application => match s.identity() {
                None => w,
                Some(key) => app_consumed(w, id, key),
            },
        },
    }
}

/// Apply any matching waiting entry to a freshly-added stream and remove it.
fn consume_pending_for_stream(state: &mut App, fx: &mut Effects, id: u32)
    requires
        old(state).wf(),
    ensures
        final(state).wf(),
        work(*final(state), *final(fx)) == pending_consumed(work(*old(state), *old(fx)), id),
{
    let (kind, node_name, identity) = match state.streams.get(&id) {
        Some(s) => (s.kind, clone_opt(&s.node_name), s.app_identity()),
        None => {
            return;
        },
    };
    match kind {
        StreamKind::Sink => match node_name {
            Some(name) => consume_sink(state, fx, id, name),
            None => {},
        },
        StreamKind::Source => match node_name {
            Some(name) => consume_source(state, fx, id, name),
            None => {},
        },
        StreamKind::Application => match identity {
            Some(key) => consume_app(state, fx, id, key),
            None => {},
        },
    }
}

// --- Streams coming and going ----------------------------------------------------------------

/// The remembered rows, ascending, that a fresh stream of an application takes
/// over, among the first `n` streams.
pub open spec fn stale_rows(st: AppView, id: u32, key: Seq<char>, n: int) -> Seq<u32>
    decreases n,
{
    if n <= 0 {
        Seq::empty()
    } else {
        let rest = stale_rows(st, id, key, n - 1);
        let (tid, s) = st.streams[n - 1];
        if st.tombstoned.contains(tid) && tid != id && s.identity() == Some(key) {
            rest.push(tid)
        } else {
            rest
        }
    }
}

/// The rows a fresh stream takes over. Event sounds take over none: they share
/// their parent app's identity, so a notification fired while a tab is idle
/// would otherwise wipe the idle row and then vanish itself.
pub open spec fn taken_over(st: AppView, s: StreamView) -> Seq<u32> {
    match s.identity() {
        Some(key) if !s.ephemeral() => stale_rows(st, s.id, key, st.streams.len() as int),
        _ => Seq::empty(),
    }
}

/// The state without the first `n` of the listed rows.
pub open spec fn evicted(st: AppView, ids: Seq<u32>, n: int) -> AppView
    decreases n,
{
    if n <= 0 {
        st
    } else {
        let rest = evicted(st, ids, n - 1);
        AppView {
            tombstoned: rest.tombstoned.remove(ids[n - 1]),
            streams: ordered::without(rest.streams, ids[n - 1]),
            app_order: rest.app_order.remove(ids[n - 1]),
            ..rest
        }
    }
}

/// The first place in the strip held by one of the first `n` listed rows.
pub open spec fn first_place(order: Map<u32, u64>, ids: Seq<u32>, n: int) -> Option<u64>
    decreases n,
{
    if n <= 0 {
        None
    } else {
        match first_place(order, ids, n - 1) {
            Some(seq) => Some(seq),
            None => if order.contains_key(ids[n - 1]) {
                Some(order[ids[n - 1]])
            } else {
                None
            },
        }
    }
}

/// A stream put in its place: a remembered row under its own id comes back to
/// life, and an application stream seen for the first time gets a place in the
/// strip, the one it inherits or a new one.
pub open spec fn placed(st: AppView, s: StreamView, inherited: Option<u64>) -> AppView {
    let there = AppView {
        tombstoned: st.tombstoned.remove(s.id),
        streams: ordered::put::<u32, StreamView>(st.streams, s.id, s),
        ..st
    };
    if s.kind == StreamKind::Application && !st.app_order.contains_key(s.id) {
        match inherited {
            Some(seq) => AppView { app_order: st.app_order.insert(s.id, seq), ..there },
            None => AppView {
                app_order: st.app_order.insert(s.id, st.app_seq),
                app_seq: if st.app_seq == u64::MAX {
                    0
                } else {
                    (st.app_seq + 1) as u64
                },
                ..there
            },
        }
    } else {
        there
    }
}

/// What a taken-over row had set, set again on the stream that took it over.
/// Only a pin is replayed; replaying none would clear the route the fresh
/// stream came back with.
pub open spec fn replayed(w: Work, id: u32, ghost_row: StreamView) -> Work {
    let next = match ordered::lookup(w.state.streams, id) {
        Some(s) => w.with(
            with_stream(
                w.state,
                id,
                StreamView {
                    volume: ghost_row.volume,
                    muted: ghost_row.muted,
                    target_sink_name: ghost_row.target_sink_name,
                    ..s
                },
            ),
        ),
        None => w,
    };
    let sent = next.send(CommandView::SetVolume { node_id: id, volume: ghost_row.volume }).send(
        CommandView::SetMute { node_id: id, mute: ghost_row.muted },
    );
    if ghost_row.target_sink_name is Some {
        sent.send(
            CommandView::SetStreamTarget {
                node_id: id,
                sink_node_name: ghost_row.target_sink_name,
            },
        )
    } else {
        sent
    }
}

/// A stream arriving or changing. A fresh app stream matching a remembered row
/// takes its place (one row, not two) and inherits its settings, so in-session
/// edits beat both the saved profile and what the sound server restored.
pub open spec fn stream_arrived(w: Work, s: StreamView) -> Work {
    let stale = taken_over(w.state, s);
    let cleared = evicted(w.state, stale, stale.len() as int);
    let here = w.with(
        placed(cleared, s, first_place(w.state.app_order, stale, stale.len() as int)),
    );
    let consumed = pending_consumed(here, s.id);
    if stale.len() > 0 {
        match ordered::lookup(w.state.streams, stale[0]) {
            Some(ghost_row) => replayed(consumed, s.id, ghost_row),
            None => consumed,
        }
    } else {
        consumed
    }
}

fn find_stale(state: &App, s: &Stream) -> (ids: Vec<u32>)
    ensures
        ids@ == taken_over(state@, s@),
{
    let mut ids: Vec<u32> = Vec::new();
    if is_ephemeral(s) {
        return ids;
    }
    let identity: Option<String> = s.app_identity();
    let key: String = match identity {
        Some(k) => k,
        None => {
            return ids;
        },
    };
    let mut i: usize = 0;
    while i < state.streams.entries.len()
        invariant
            i <= state.streams.entries@.len(),
            ids@ == stale_rows(state@, s.id, key@, i as int),
        decreases state.streams.entries@.len() - i,
    {
        let tid: u32 = state.streams.entries[i].0;
        let t: &Stream = &state.streams.entries[i].1;
        assert(state@.streams[i as int] == (tid, t@));
        let other: Option<String> = t.app_identity();
        if state.tombstoned.contains(&tid) && tid != s.id && opt_is(&other, key.as_str()) {
            ids.push(tid);
        }
        i = i + 1;
    }
    ids
}

/// Take the listed rows out, and say which place in the strip they leave.
fn evict(state: &mut App, ids: &Vec<u32>) -> (place: Option<u64>)
    requires
        old(state).wf(),
    ensures
        final(state).wf(),
        final(state)@ == evicted(old(state)@, ids@, ids@.len() as int),
        place == first_place(old(state)@.app_order, ids@, ids@.len() as int),
{
    let mut place: Option<u64> = None;
    let mut i: usize = 0;
    while i < ids.len()
        invariant
            i <= ids@.len(),
            place == first_place(old(state)@.app_order, ids@, i as int),
        decreases ids@.len() - i,
    {
        if place.is_none() {
            place = match state.app_order.get(&ids[i]) {
                Some(seq) => Some(*seq),
                None => None,
            };
        }
        i = i + 1;
    }
    let mut k: usize = 0;
    while k < ids.len()
        invariant
            k <= ids@.len(),
            state.wf(),
            state@ == evicted(old(state)@, ids@, k as int),
        decreases ids@.len() - k,
    {
        let tid: u32 = ids[k];
        proof {
            without_stream_wf(state@.streams, tid);
        }
        state.tombstoned.remove(&tid);
        let _ = state.streams.remove(&tid);
        state.app_order.remove(&tid);
        k = k + 1;
    }
    place
}

/// What a taken-over row hands on.
struct Inherited {
    volume: Gain,
    muted: bool,
    target: Option<String>,
}

fn place_stream(state: &mut App, s: Stream, place: Option<u64>)
    requires
        old(state).wf(),
    ensures
        final(state).wf(),
        final(state)@ == placed(old(state)@, s@, place),
{
    let id: u32 = s.id;
    let kind: StreamKind = s.kind;
    proof {
        put_stream_wf(state@.streams, s@);
    }
    state.tombstoned.remove(&id);
    state.streams.insert(id, s);
    // First-seen number so the strip orders by arrival, not node id. Inherit
    // from an evicted row, else mint fresh on first sight, else leave an
    // existing one alone.
    if kind == StreamKind::Application && !state.app_order.contains_key(&id) {
        let seq: u64 = match place {
            Some(seq) => seq,
            None => {
                let next: u64 = state.app_seq;
                state.app_seq = if next == u64::MAX {
                    0
                } else {
                    next + 1
                };
                next
            },
        };
        state.app_order.insert(id, seq);
    }
}

fn replay(state: &mut App, fx: &mut Effects, id: u32, row: Inherited)
    requires
        old(state).wf(),
    ensures
        final(state).wf(),
        forall|ghost_row: StreamView|
            ghost_row.volume == row.volume && ghost_row.muted == row.muted
                && ghost_row.target_sink_name == text::opt(row.target) ==> work(
                *final(state),
                *final(fx),
            ) == #[trigger] replayed(work(*old(state), *old(fx)), id, ghost_row),
{
    proof {
        stream_id(state@.streams, id);
        if let Some(s) = ordered::lookup(state@.streams, id) {
            put_stream_wf(
                state@.streams,
                StreamView {
                    volume: row.volume,
                    muted: row.muted,
                    target_sink_name: text::opt(row.target),
                    ..s
                },
            );
        }
    }
    // Apply locally first so the view doesn't wait for the round trip.
    match state.streams.get_mut(&id) {
        Some(s) => {
            s.set_uniform_volume(row.volume);
            s.muted = row.muted;
            s.target_sink_name = clone_opt(&row.target);
        },
        None => {},
    }
    fx.send(Command::SetVolume { node_id: id, volume: row.volume });
    fx.send(Command::SetMute { node_id: id, mute: row.muted });
    if row.target.is_some() {
        fx.send(Command::SetStreamTarget { node_id: id, sink_node_name: row.target });
    }
}

fn stream_added(state: &mut App, fx: &mut Effects, s: Stream)
    requires
        old(state).wf(),
    ensures
        final(state).wf(),
        work(*final(state), *final(fx)) == stream_arrived(work(*old(state), *old(fx)), s@),
{
    let id: u32 = s.id;
    let stale: Vec<u32> = find_stale(state, &s);
    let inherit: Option<Inherited> = if stale.len() > 0 {
        match state.streams.get(&stale[0]) {
            Some(g) => Some(
                Inherited {
                    volume: g.average_volume(),
                    muted: g.muted,
                    target: clone_opt(&g.target_sink_name),
                },
            ),
            None => None,
        }
    } else {
        None
    };
    let place: Option<u64> = evict(state, &stale);
    place_stream(state, s, place);
    // Waiting profile entries fulfill on a matching stream. What a taken-over
    // row hands on overrides this, so in-session edits beat the saved profile.
    consume_pending_for_stream(state, fx, id);
    match inherit {
        Some(row) => replay(state, fx, id, row),
        None => {},
    }
}

/// A stream going away. Sinks and sources drop immediately on unplug. App
/// streams are remembered unless they are event sounds, which would litter the
/// list with ghosts.
pub open spec fn stream_left(st: AppView, id: u32) -> AppView {
    match ordered::lookup(st.streams, id) {
        Some(s) if s.kind == StreamKind::Application && !s.ephemeral() => AppView {
            tombstoned: st.tombstoned.insert(id),
            ..st
        },
        _ => AppView {
            streams: ordered::without(st.streams, id),
            tombstoned: st.tombstoned.remove(id),
            app_order: st.app_order.remove(id),
            ..st
        },
    }
}

fn stream_removed(state: &mut App, id: u32)
    requires
        old(state).wf(),
    ensures
        final(state).wf(),
        final(state)@ == stream_left(old(state)@, id),
{
    proof {
        without_stream_wf(state@.streams, id);
    }
    let remember: bool = match state.streams.get(&id) {
        Some(s) => s.kind == StreamKind::Application && !is_ephemeral(s),
        None => false,
    };
    if remember {
        state.tombstoned.insert(id);
    } else {
        let _ = state.streams.remove(&id);
        state.tombstoned.remove(&id);
        state.app_order.remove(&id);
    }
}

// --- Profiles and their modal --------------------------------------------------------------------

/// A profile deleted. Nothing waits for a deleted active profile's streams any
/// more, and another becomes active.
pub open spec fn profile_deleted(w: Work, name: Seq<char>) -> Work {
    if profile::find_name(w.state.profiles.profiles, name) is Some {
        w.with(
            with_active_profile(
                AppView {
                    profiles: w.state.profiles.without_profile(name),
                    pending: if w.state.profiles.active == Some(name) {
                        PendingView::none()
                    } else {
                        w.state.pending
                    },
                    ..w.state
                },
            ),
        ).persist()
    } else {
        w
    }
}

fn delete_profile(state: &mut App, fx: &mut Effects, name: &str)
    requires
        old(state).wf(),
    ensures
        final(state).wf(),
        work(*final(state), *final(fx)) == profile_deleted(work(*old(state), *old(fx)), name@),
{
    let was_active: bool = opt_is(&state.profiles.active, name);
    if state.profiles.remove(name) {
        if was_active {
            state.pending = Pending::new();
        }
        ensure_active_profile(state);
        persist(state, fx);
    }
}

/// A new profile made from live state, and active.
pub open spec fn profile_created(w: Work, name: Seq<char>) -> Work {
    let st = w.state;
    w.with(
        AppView {
            profiles: ProfileStoreView {
                active: Some(name),
                ..st.profiles.with_profile(
                    profile::snapshot_of(
                        name,
                        st.streams,
                        default_name(st.streams, StreamKind::Sink),
                        default_name(st.streams, StreamKind::Source),
                        st.section_filter,
                    ),
                )
            },
            pending: PendingView::none(),
            dirty: false,
            ..st
        },
    ).persist()
}

fn create_profile(state: &mut App, fx: &mut Effects, name: String)
    requires
        old(state).wf(),
    ensures
        final(state).wf(),
        work(*final(state), *final(fx)) == profile_created(work(*old(state), *old(fx)), name@),
{
    let sink: Option<String> = current_default(state, StreamKind::Sink);
    let source: Option<String> = current_default(state, StreamKind::Source);
    let snap: Profile = Profile::snapshot(
        name.clone(),
        &state.streams,
        sink,
        source,
        state.section_filter,
    );
    state.profiles.insert_or_replace(snap);
    state.profiles.active = Some(name);
    state.pending = Pending::new();
    state.dirty = false;
    persist(state, fx);
}

/// The words for a name already taken.
pub open spec fn name_taken(name: Seq<char>) -> Seq<char> {
    "a profile named '"@ + name + "' already exists"@
}

/// A rename confirmed, the modal closed: it opens again with the reason when the
/// name is blank or taken.
pub open spec fn rename_confirmed(closed: Work, old_name: Seq<char>, name: Seq<char>) -> Work {
    let trimmed = text::trimmed(name);
    let refused = |error: Seq<char>|
        closed.with(
            AppView {
                modal: Some(ModalState::RenameProfile { old_name, name, error: Some(error) }),
                ..closed.state
            },
        );
    if trimmed.len() == 0 {
        refused("name cannot be empty"@)
    } else if trimmed == old_name {
        // No-op rename, just close.
        closed
    } else if profile::find_name(closed.state.profiles.profiles, trimmed) is Some {
        refused(name_taken(trimmed))
    } else if profile::find_name(closed.state.profiles.profiles, old_name) is Some {
        closed.with(
            AppView {
                profiles: closed.state.profiles.renamed(old_name, trimmed),
                ..closed.state
            },
        ).persist()
    } else {
        closed.say(not_found(old_name))
    }
}

/// A confirmed modal turned into its action (create/rename/delete). Validation
/// failures surface inline and keep the modal open.
pub open spec fn modal_confirmed(w: Work) -> Work {
    let closed = w.with(AppView { modal: None, ..w.state });
    match w.state.modal {
        None => w,
        Some(ModalState::CreateProfile { name, error }) => {
            let trimmed = text::trimmed(name);
            if trimmed.len() == 0 {
                w.with(
                    AppView {
                        modal: Some(
                            ModalState::CreateProfile {
                                name,
                                error: Some("name cannot be empty"@),
                            },
                        ),
                        ..w.state
                    },
                )
            } else {
                profile_created(closed, trimmed)
            }
        },
        Some(ModalState::RenameProfile { old_name, name, error }) => rename_confirmed(
            closed,
            old_name,
            name,
        ),
        Some(ModalState::DeleteProfile { name }) => profile_deleted(closed, name),
    }
}

fn confirm_rename(state: &mut App, fx: &mut Effects, old_name: String, name: String)
    requires
        old(state).wf(),
        old(state)@.modal is None,
    ensures
        final(state).wf(),
        work(*final(state), *final(fx)) == rename_confirmed(
            work(*old(state), *old(fx)),
            old_name@,
            name@,
        ),
{
    let trimmed: String = trim(name.as_str());
    if trimmed.as_str().is_empty() {
        state.modal = Some(
            Modal::RenameProfile {
                old_name,
                name,
                error: Some("name cannot be empty".to_owned()),
            },
        );
        return;
    }
    if same_text(trimmed.as_str(), old_name.as_str()) {
        // No-op rename, just close.
        return;
    }
    if state.profiles.position(trimmed.as_str()).is_some() {
        let error: String = "a profile named '".to_owned().concat(trimmed.as_str()).concat(
            "' already exists",
        );
        state.modal = Some(Modal::RenameProfile { old_name, name, error: Some(error) });
        return;
    }
    if !state.profiles.rename(old_name.as_str(), trimmed) {
        say(state, fx, not_found_text(old_name.as_str()));
        return;
    }
    persist(state, fx);
}

/// Turn a confirmed modal into its action (create/rename/delete).
fn confirm_modal(state: &mut App, fx: &mut Effects)
    requires
        old(state).wf(),
    ensures
        final(state).wf(),
        work(*final(state), *final(fx)) == modal_confirmed(work(*old(state), *old(fx))),
{
    let modal: Modal = match state.modal.take() {
        Some(m) => m,
        None => {
            return;
        },
    };
    match modal {
        Modal::CreateProfile { name, error } => {
            let trimmed: String = trim(name.as_str());
            if trimmed.as_str().is_empty() {
                state.modal = Some(
                    Modal::CreateProfile { name, error: Some("name cannot be empty".to_owned()) },
                );
            } else {
                create_profile(state, fx, trimmed);
            }
        },
        Modal::RenameProfile { old_name, name, error } => {
            confirm_rename(state, fx, old_name, name);
        },
        Modal::DeleteProfile { name } => {
            delete_profile(state, fx, name.as_str());
        },
    }
}

// --- The reducer -----------------------------------------------------------------------------

/// A row expanded or collapsed. Only multi-member groups have anything to
/// expand into.
pub open spec fn expansion_toggled(st: AppView, key: Seq<char>) -> AppView {
    if members(st.streams, key).len() <= 1 || st.expanded_groups.contains(key) {
        AppView { expanded_groups: st.expanded_groups.remove(key), ..st }
    } else {
        AppView { expanded_groups: st.expanded_groups.insert(key), ..st }
    }
}

/// The palette opened or closed, empty either way. A modal owns focus, so the
/// palette does not open over one.
pub open spec fn palette_toggled(st: AppView) -> AppView {
    if st.modal is Some && !st.palette_open {
        st
    } else {
        AppView {
            palette_open: !st.palette_open,
            palette_query: Seq::empty(),
            palette_selected: 0,
            palette_scroll: 0,
            ..st
        }
    }
}

/// The row above the selected one, wrapping to the last one shown of `rows`.
pub open spec fn row_above(selected: usize, rows: usize) -> usize {
    if rows == 0 {
        0
    } else if selected == 0 {
        (command_palette::listed(rows as int) - 1) as usize
    } else {
        (selected - 1) as usize
    }
}

/// The row below the selected one, wrapping to the first.
pub open spec fn row_below(selected: usize, rows: usize) -> usize {
    if rows == 0 || selected >= command_palette::listed(rows as int) - 1 {
        0
    } else {
        (selected + 1) as usize
    }
}

/// A modal with another name typed into it, and no error showing.
pub open spec fn modal_named(modal: Option<ModalState>, value: Seq<char>) -> Option<ModalState> {
    match modal {
        Some(ModalState::CreateProfile { name, error }) => Some(
            ModalState::CreateProfile { name: value, error: None },
        ),
        Some(ModalState::RenameProfile { old_name, name, error }) => Some(
            ModalState::RenameProfile { old_name, name: value, error: None },
        ),
        _ => modal,
    }
}

/// A report from the sound server taken in.
pub open spec fn worker_step(w: Work, event: WorkerEvent) -> Work {
    match event {
        WorkerEvent::StreamAdded(s) => stream_arrived(w, s@),
        WorkerEvent::StreamUpdated(s) => stream_arrived(w, s@),
        WorkerEvent::StreamRemoved(id) => w.with(stream_left(w.state, id)),
        WorkerEvent::Error(msg) => w.say(msg@),
    }
}

/// User changes noted as uncommitted.
pub open spec fn noted(w: Work) -> Work {
    w.with(dirtied(w.state))
}

/// A slider moved. Sliders are perceptual; the sound server wants linear gains.
pub open spec fn volume_changed(w: Work, id: u32, cubic: Gain) -> Work {
    noted(volume_set(w, id, gain::cubed(cubic)))
}

/// A stream's mute toggled.
pub open spec fn mute_toggled(w: Work, id: u32) -> Work {
    match ordered::lookup(w.state.streams, id) {
        Some(s) => noted(mute_set(w, id, !s.muted)),
        None => noted(w),
    }
}

/// A collapsed row's slider moved.
pub open spec fn group_volume_changed(
    w: Work,
    key: Seq<char>,
    cubic: Gain,
    levels: Seq<(u32, Gain)>,
) -> Work {
    let ids = members(w.state.streams, key);
    if ids.len() == 0 {
        w
    } else {
        let master = master_level(levels, ids, ids.len() as int);
        noted(volumes_set(w, levels, ids, master, gain::limited(cubic), ids.len() as int))
    }
}

/// A collapsed row's mute toggled.
pub open spec fn group_mute_changed(w: Work, key: Seq<char>) -> Work {
    let ids = members(w.state.streams, key);
    if ids.len() == 0 {
        w
    } else {
        noted(group_mute_toggled(w, ids))
    }
}

/// A collapsed row pinned to a sink, where the sink is there.
pub open spec fn group_pinned(w: Work, key: Seq<char>, sink_id: u32) -> Work {
    let ids = members(w.state.streams, key);
    match sink_name(w.state.streams, sink_id) {
        Some(name) => noted(targets_set(w, ids, Some(name), ids.len() as int)),
        None => w,
    }
}

/// A collapsed row unpinned.
pub open spec fn group_unpinned(w: Work, key: Seq<char>) -> Work {
    let ids = members(w.state.streams, key);
    noted(targets_set(w, ids, None, ids.len() as int))
}

/// A column group shown or hidden.
pub open spec fn section_toggled(w: Work, section: Section) -> Work {
    noted(
        w.with(
            AppView { section_filter: w.state.section_filter.toggled(section), ..w.state },
        ),
    )
}

/// The sink a stream is pinned to.
pub open spec fn pin_of(streams: Seq<(u32, StreamView)>, id: u32) -> Option<Seq<char>> {
    match ordered::lookup(streams, id) {
        Some(s) => s.target_sink_name,
        None => None,
    }
}

/// A stream pinned to a sink, where the sink is there and not the one it is
/// pinned to already.
pub open spec fn stream_pinned(w: Work, app_id: u32, sink_id: u32) -> Work {
    match sink_name(w.state.streams, sink_id) {
        Some(name) => if pin_of(w.state.streams, app_id) == Some(name) {
            w
        } else {
            noted(target_set(w, app_id, Some(name)))
        },
        None => w,
    }
}

/// Every pin cleared.
pub open spec fn pins_reset(w: Work) -> Work {
    let ids = pinned_ids(w.state.streams, w.state.streams.len() as int);
    noted(targets_set(w, ids, None, ids.len() as int))
}

/// A profile dropped before or after another, saved when that moved it.
pub open spec fn profile_moved(w: Work, name: Seq<char>, target: Seq<char>, before: bool) -> Work {
    let next = w.with(
        AppView {
            profiles: ProfileStoreView {
                profiles: w.state.profiles.reordered(name, target, before),
                ..w.state.profiles
            },
            ..w.state
        },
    );
    if w.state.profiles.reorder_moves(name, target, before) {
        next.persist()
    } else {
        next
    }
}

/// The state with another modal on show.
pub open spec fn showing_modal(st: AppView, modal: Option<ModalState>) -> AppView {
    AppView { modal, ..st }
}

/// The rename modal, for a profile that is there.
pub open spec fn rename_opened(st: AppView, name: Seq<char>) -> AppView {
    if profile::find_name(st.profiles.profiles, name) is Some {
        showing_modal(
            st,
            Some(ModalState::RenameProfile { old_name: name, name, error: None }),
        )
    } else {
        st
    }
}

/// The delete-confirm modal, for a profile that is there.
pub open spec fn delete_opened(st: AppView, name: Seq<char>) -> AppView {
    if profile::find_name(st.profiles.profiles, name) is Some {
        showing_modal(st, Some(ModalState::DeleteProfile { name }))
    } else {
        st
    }
}

/// The window resized, to be saved when that changed anything.
pub open spec fn resized(st: AppView, geometry: Geometry) -> AppView {
    if st.geometry != geometry {
        AppView { geometry, geometry_dirty: true, ..st }
    } else {
        st
    }
}

/// Another query typed into the palette.
pub open spec fn queried(st: AppView, query: Seq<char>) -> AppView {
    AppView { palette_query: query, palette_selected: 0, ..st }
}

/// Another palette row highlighted.
pub open spec fn selected(st: AppView, row: usize) -> AppView {
    AppView { palette_selected: row, ..st }
}

/// The palette's list shown from another row on.
pub open spec fn scrolled(st: AppView, row: usize) -> AppView {
    AppView { palette_scroll: row, ..st }
}

/// What a message makes of the state, and what it wants done beyond it.
pub open spec fn step(w: Work, message: Message) -> Work {
    match message {
        Message::Worker(event) => worker_step(w, event),
        Message::VolumeChanged(id, cubic) => volume_changed(w, id, cubic),
        Message::MuteToggled(id) => mute_toggled(w, id),
        Message::GroupVolumeChanged { key, cubic, levels } => group_volume_changed(
            w,
            key@,
            cubic,
            levels@,
        ),
        Message::GroupMuteToggled(key) => group_mute_changed(w, key@),
        Message::GroupSetStreamTarget { key, sink_id } => group_pinned(w, key@, sink_id),
        Message::GroupClearStreamTarget(key) => group_unpinned(w, key@),
        Message::GroupToggleExpanded(key) => w.with(expansion_toggled(w.state, key@)),
        Message::MprisChanged => w,
        Message::MakeDefault(id) => default_made(w, id, StreamKind::Sink),
        Message::MakeDefaultSource(id) => default_made(w, id, StreamKind::Source),
        Message::ToggleSection(section) => section_toggled(w, section),
        Message::MuteAllToggled => noted(outputs_toggled(w)),
        Message::SetStreamTarget { app_id, sink_id } => stream_pinned(w, app_id, sink_id),
        Message::ClearStreamTarget(app_id) => noted(target_set(w, app_id, None)),
        Message::ResetAllStreamTargets => pins_reset(w),
        Message::ApplyProfile(name) => profile_applied(w, name@),
        Message::DeleteProfile(name) => profile_deleted(w, name@),
        Message::ReorderProfile { name, target, before } => profile_moved(
            w,
            name@,
            target@,
            before,
        ),
        Message::OpenCreateProfileModal => w.with(
            showing_modal(
                w.state,
                Some(ModalState::CreateProfile { name: Seq::empty(), error: None }),
            ),
        ),
        Message::OpenRenameProfileModal(name) => w.with(rename_opened(w.state, name@)),
        Message::OpenDeleteProfileModal(name) => w.with(delete_opened(w.state, name@)),
        Message::ModalNameChanged(value) => w.with(
            showing_modal(w.state, modal_named(w.state.modal, value@)),
        ),
        Message::ModalConfirm => modal_confirmed(w),
        Message::ModalDismiss => w.with(showing_modal(w.state, None)),
        Message::AutoSaveTick => autosaved(w),
        Message::GeometryChanged { width, height, maximized } => w.with(
            resized(w.state, Geometry { width, height, maximized }),
        ),
        Message::TogglePalette => w.with(palette_toggled(w.state)),
        Message::PaletteQueryChanged(query) => w.with(queried(w.state, query@)),
        Message::PaletteSelectPrev { rows } => w.with(
            selected(w.state, row_above(w.state.palette_selected, rows)),
        ),
        Message::PaletteSelectNext { rows } => w.with(
            selected(w.state, row_below(w.state.palette_selected, rows)),
        ),
        Message::PaletteScrollTo(row) => w.with(scrolled(w.state, row)),
    }
}

fn update_worker(state: &mut App, event: WorkerEvent, fx: &mut Effects)
    requires
        old(state).wf(),
    ensures
        final(state).wf(),
        work(*final(state), *final(fx)) == worker_step(work(*old(state), *old(fx)), event),
{
    match event {
        WorkerEvent::StreamAdded(s) => stream_added(state, fx, s),
        WorkerEvent::StreamUpdated(s) => stream_added(state, fx, s),
        WorkerEvent::StreamRemoved(id) => stream_removed(state, id),
        WorkerEvent::Error(msg) => {
            say(state, fx, msg);
        },
    }
}

fn name_modal(state: &mut App, value: String)
    requires
        old(state).wf(),
    ensures
        final(state).wf(),
        final(state)@ == showing_modal(old(state)@, modal_named(old(state)@.modal, value@)),
{
    state.modal = match state.modal.take() {
        Some(Modal::CreateProfile { name, error }) => Some(
            Modal::CreateProfile { name: value, error: None },
        ),
        Some(Modal::RenameProfile { old_name, name, error }) => Some(
            Modal::RenameProfile { old_name, name: value, error: None },
        ),
        other => other,
    };
}

fn toggle_expanded(state: &mut App, key: String)
    requires
        old(state).wf(),
    ensures
        final(state).wf(),
        final(state)@ == expansion_toggled(old(state)@, key@),
{
    let count: usize = members_of_app_row(state, key.as_str()).len();
    if count <= 1 || state.expanded_groups.contains(key.as_str()) {
        state.expanded_groups.remove(key.as_str());
    } else {
        state.expanded_groups.insert(key);
    }
}

fn change_volume(state: &mut App, fx: &mut Effects, id: u32, cubic: Gain)
    requires
        old(state).wf(),
    ensures
        final(state).wf(),
        work(*final(state), *final(fx)) == volume_changed(work(*old(state), *old(fx)), id, cubic),
{
    set_volume(state, fx, id, cubic_to_linear(cubic));
    mark_dirty(state);
}

fn toggle_mute(state: &mut App, fx: &mut Effects, id: u32)
    requires
        old(state).wf(),
    ensures
        final(state).wf(),
        work(*final(state), *final(fx)) == mute_toggled(work(*old(state), *old(fx)), id),
{
    let mute: bool = match state.streams.get(&id) {
        Some(s) => !s.muted,
        None => {
            mark_dirty(state);
            return;
        },
    };
    set_mute(state, fx, id, mute);
    mark_dirty(state);
}

fn change_group_volume(
    state: &mut App,
    fx: &mut Effects,
    key: &str,
    cubic: Gain,
    levels: &Vec<(u32, Gain)>,
)
    requires
        old(state).wf(),
    ensures
        final(state).wf(),
        work(*final(state), *final(fx)) == group_volume_changed(
            work(*old(state), *old(fx)),
            key@,
            cubic,
            levels@,
        ),
{
    let ids: Vec<u32> = members_of_app_row(state, key);
    if ids.len() == 0 {
        return;
    }
    apply_group_volume(state, fx, levels, &ids, limit(cubic));
    mark_dirty(state);
}

fn toggle_group_mute(state: &mut App, fx: &mut Effects, key: &str)
    requires
        old(state).wf(),
    ensures
        final(state).wf(),
        work(*final(state), *final(fx)) == group_mute_changed(work(*old(state), *old(fx)), key@),
{
    let ids: Vec<u32> = members_of_app_row(state, key);
    if ids.len() == 0 {
        return;
    }
    apply_group_mute(state, fx, &ids);
    mark_dirty(state);
}

fn pin_group(state: &mut App, fx: &mut Effects, key: &str, sink_id: u32)
    requires
        old(state).wf(),
    ensures
        final(state).wf(),
        work(*final(state), *final(fx)) == group_pinned(work(*old(state), *old(fx)), key@, sink_id),
{
    let name: Option<String> = find_sink_name(state, sink_id);
    if name.is_none() {
        return;
    }
    let ids: Vec<u32> = members_of_app_row(state, key);
    apply_group_target(state, fx, &ids, &name);
    mark_dirty(state);
}

fn unpin_group(state: &mut App, fx: &mut Effects, key: &str)
    requires
        old(state).wf(),
    ensures
        final(state).wf(),
        work(*final(state), *final(fx)) == group_unpinned(work(*old(state), *old(fx)), key@),
{
    let ids: Vec<u32> = members_of_app_row(state, key);
    apply_group_target(state, fx, &ids, &None);
    mark_dirty(state);
}

fn toggle_section(state: &mut App, fx: &mut Effects, section: Section)
    requires
        old(state).wf(),
    ensures
        final(state).wf(),
        work(*final(state), *final(fx)) == section_toggled(work(*old(state), *old(fx)), section),
{
    state.section_filter.toggle(section);
    mark_dirty(state);
}

fn toggle_all_outputs(state: &mut App, fx: &mut Effects)
    requires
        old(state).wf(),
    ensures
        final(state).wf(),
        work(*final(state), *final(fx)) == noted(outputs_toggled(work(*old(state), *old(fx)))),
{
    toggle_outputs(state, fx);
    mark_dirty(state);
}

fn pin_stream(state: &mut App, fx: &mut Effects, app_id: u32, sink_id: u32)
    requires
        old(state).wf(),
    ensures
        final(state).wf(),
        work(*final(state), *final(fx)) == stream_pinned(work(*old(state), *old(fx)), app_id, sink_id),
{
    let name: Option<String> = find_sink_name(state, sink_id);
    if name.is_none() {
        return;
    }
    // The pin it already has is no news.
    let held: bool = match state.streams.get(&app_id) {
        Some(s) => same_opt(&s.target_sink_name, &name),
        None => false,
    };
    if held {
        return;
    }
    // Optimistic local update so the view stays snappy; the sound server echoes
    // the write back later.
    set_app_target(state, fx, app_id, &name);
    mark_dirty(state);
}

fn unpin_stream(state: &mut App, fx: &mut Effects, app_id: u32)
    requires
        old(state).wf(),
    ensures
        final(state).wf(),
        work(*final(state), *final(fx)) == noted(target_set(work(*old(state), *old(fx)), app_id, None)),
{
    set_app_target(state, fx, app_id, &None);
    mark_dirty(state);
}

fn reset_pins(state: &mut App, fx: &mut Effects)
    requires
        old(state).wf(),
    ensures
        final(state).wf(),
        work(*final(state), *final(fx)) == pins_reset(work(*old(state), *old(fx))),
{
    let ids: Vec<u32> = list_pinned(state);
    apply_group_target(state, fx, &ids, &None);
    mark_dirty(state);
}

fn move_profile(state: &mut App, fx: &mut Effects, name: &str, target: &str, before: bool)
    requires
        old(state).wf(),
    ensures
        final(state).wf(),
        work(*final(state), *final(fx)) == profile_moved(work(*old(state), *old(fx)), name@, target@, before),
{
    if state.profiles.reorder(name, target, before) {
        persist(state, fx);
    }
}

fn open_create(state: &mut App)
    requires
        old(state).wf(),
    ensures
        final(state).wf(),
        final(state)@ == showing_modal(
            old(state)@,
            Some(ModalState::CreateProfile { name: Seq::empty(), error: None }),
        ),
{
    state.modal = Some(Modal::CreateProfile { name: String::new(), error: None });
}

fn open_rename(state: &mut App, old_name: String)
    requires
        old(state).wf(),
    ensures
        final(state).wf(),
        final(state)@ == rename_opened(old(state)@, old_name@),
{
    if state.profiles.position(old_name.as_str()).is_some() {
        state.modal = Some(Modal::RenameProfile { name: old_name.clone(), old_name, error: None });
    }
}

fn open_delete(state: &mut App, name: String)
    requires
        old(state).wf(),
    ensures
        final(state).wf(),
        final(state)@ == delete_opened(old(state)@, name@),
{
    if state.profiles.position(name.as_str()).is_some() {
        state.modal = Some(Modal::DeleteProfile { name });
    }
}

fn dismiss_modal(state: &mut App)
    requires
        old(state).wf(),
    ensures
        final(state).wf(),
        final(state)@ == showing_modal(old(state)@, None),
{
    state.modal = None;
}

fn resize(state: &mut App, next: Geometry)
    requires
        old(state).wf(),
    ensures
        final(state).wf(),
        final(state)@ == resized(old(state)@, next),
{
    if state.geometry != next {
        state.geometry = next;
        state.geometry_dirty = true;
    }
}

fn toggle_palette(state: &mut App)
    requires
        old(state).wf(),
    ensures
        final(state).wf(),
        final(state)@ == palette_toggled(old(state)@),
{
    // A modal owns focus; don't stack the palette on top of it.
    if state.modal.is_some() && !state.palette_open {
        return;
    }
    state.palette_open = !state.palette_open;
    state.palette_query = String::new();
    state.palette_selected = 0;
    state.palette_scroll = 0;
}

fn query_palette(state: &mut App, query: String)
    requires
        old(state).wf(),
    ensures
        final(state).wf(),
        final(state)@ == queried(old(state)@, query@),
{
    state.palette_query = query;
    state.palette_selected = 0;
}

fn select_above(state: &mut App, rows: usize)
    requires
        old(state).wf(),
    ensures
        final(state).wf(),
        final(state)@ == selected(old(state)@, row_above(old(state)@.palette_selected, rows)),
{
    state.palette_selected = if rows == 0 {
        0
    } else if state.palette_selected == 0 {
        listed_of(rows) - 1
    } else {
        state.palette_selected - 1
    };
}

fn select_below(state: &mut App, rows: usize)
    requires
        old(state).wf(),
    ensures
        final(state).wf(),
        final(state)@ == selected(old(state)@, row_below(old(state)@.palette_selected, rows)),
{
    state.palette_selected = if rows == 0 || state.palette_selected >= listed_of(rows) - 1 {
        0
    } else {
        state.palette_selected + 1
    };
}

fn scroll_palette(state: &mut App, row: usize)
    requires
        old(state).wf(),
    ensures
        final(state).wf(),
        final(state)@ == scrolled(old(state)@, row),
{
    state.palette_scroll = row;
}

/// Reduce a message into the state. What it wants done beyond the state is
/// added to `fx`.
pub fn update(state: &mut App, message: Message, fx: &mut Effects)
    requires
        old(state).wf(),
    ensures
        final(state).wf(),
        work(*final(state), *final(fx)) == step(work(*old(state), *old(fx)), message),
{
    match message {
        Message::Worker(event) => update_worker(state, event, fx),
        Message::VolumeChanged(id, cubic) => change_volume(state, fx, id, cubic),
        Message::MuteToggled(id) => toggle_mute(state, fx, id),
        Message::GroupVolumeChanged { key, cubic, levels } => change_group_volume(
            state,
            fx,
            key.as_str(),
            cubic,
            &levels,
        ),
        Message::GroupMuteToggled(key) => toggle_group_mute(state, fx, key.as_str()),
        Message::GroupSetStreamTarget { key, sink_id } => pin_group(
            state,
            fx,
            key.as_str(),
            sink_id,
        ),
        Message::GroupClearStreamTarget(key) => unpin_group(state, fx, key.as_str()),
        Message::GroupToggleExpanded(key) => toggle_expanded(state, key),
        Message::MprisChanged => {},
        Message::MakeDefault(id) => make_default(state, fx, id, StreamKind::Sink),
        Message::MakeDefaultSource(id) => make_default(state, fx, id, StreamKind::Source),
        Message::ToggleSection(section) => toggle_section(state, fx, section),
        Message::MuteAllToggled => toggle_all_outputs(state, fx),
        Message::SetStreamTarget { app_id, sink_id } => pin_stream(state, fx, app_id, sink_id),
        Message::ClearStreamTarget(app_id) => unpin_stream(state, fx, app_id),
        Message::ResetAllStreamTargets => reset_pins(state, fx),
        Message::ApplyProfile(name) => apply_profile(state, fx, name.as_str()),
        Message::DeleteProfile(name) => delete_profile(state, fx, name.as_str()),
        Message::ReorderProfile { name, target, before } => move_profile(
            state,
            fx,
            name.as_str(),
            target.as_str(),
            before,
        ),
        Message::OpenCreateProfileModal => open_create(state),
        Message::OpenRenameProfileModal(name) => open_rename(state, name),
        Message::OpenDeleteProfileModal(name) => open_delete(state, name),
        Message::ModalNameChanged(value) => name_modal(state, value),
        Message::ModalConfirm => confirm_modal(state, fx),
        Message::ModalDismiss => dismiss_modal(state),
        Message::AutoSaveTick => autosave(state, fx),
        Message::GeometryChanged { width, height, maximized } => resize(
            state,
            Geometry { width, height, maximized },
        ),
        Message::TogglePalette => toggle_palette(state),
        Message::PaletteQueryChanged(query) => query_palette(state, query),
        Message::PaletteSelectPrev { rows } => select_above(state, rows),
        Message::PaletteSelectNext { rows } => select_below(state, rows),
        Message::PaletteScrollTo(row) => scroll_palette(state, row),
    }
}

// --- Starting up -----------------------------------------------------------------------------

/// A state with no streams and these profiles, before one of them is active.
pub open spec fn fresh(
    geometry: Geometry,
    profiles: ProfileStoreView,
    status: Option<Seq<char>>,
) -> AppView {
    AppView {
        streams: Seq::empty(),
        tombstoned: Set::empty(),
        expanded_groups: Set::empty(),
        app_order: Map::empty(),
        app_seq: 0,
        status,
        profiles,
        pending: PendingView::none(),
        modal: None,
        dirty: false,
        geometry,
        geometry_dirty: false,
        palette_open: false,
        palette_query: Seq::empty(),
        palette_selected: 0,
        palette_scroll: 0,
        section_filter: SectionFilter::all(),
    }
}

fn fresh_state(geometry: Geometry, profiles: ProfileStore, status: Option<String>) -> (app: App)
    requires
        profiles@.wf(),
    ensures
        app.wf(),
        app@ == fresh(geometry, profiles@, text::opt(status)),
{
    App {
        streams: OrderedMap::new(),
        tombstoned: HashSet::new(),
        expanded_groups: TextSet::new(),
        app_order: BTreeMap::new(),
        app_seq: 0,
        status,
        profiles,
        pending: Pending::new(),
        modal: None,
        dirty: false,
        geometry,
        geometry_dirty: false,
        palette_open: false,
        palette_query: String::new(),
        palette_selected: 0,
        palette_scroll: 0,
        section_filter: SectionFilter::default(),
    }
}

/// A state with nothing in it: no streams and no profiles.
pub fn empty() -> (app: App)
    ensures
        app.wf(),
        app@ == fresh(
            (Geometry { width: 560, height: 720, maximized: false }),
            (ProfileStoreView { profiles: Seq::empty(), active: None }),
            None,
        ),
{
    fresh_state(Geometry::default(), ProfileStore::new(), None)
}

/// The state to start with: what was saved last, and why it could not be read
/// where it could not. Device settings are not applied: the sound server already
/// restores per-app volumes, and re-asserting them would surprise the user. Pure
/// view state (the section filter) is restored.
pub fn boot(geometry: Geometry, profiles: ProfileStore, load_error: Option<String>) -> (app: App)
    requires
        profiles@.wf(),
    ensures
        app.wf(),
        app@ == with_active_profile(
            fresh(
                geometry,
                profiles@,
                match load_error {
                    Some(e) => Some("load state: "@ + e@),
                    None => None,
                },
            ),
        ),
{
    let status: Option<String> = match load_error {
        Some(e) => Some("load state: ".to_owned().concat(e.as_str())),
        None => None,
    };
    let mut app: App = fresh_state(geometry, profiles, status);
    ensure_active_profile(&mut app);
    app
}

/// Say in the status line why the state could not be saved.
pub fn save_failed(state: &mut App, error: &str)
    requires
        old(state).wf(),
    ensures
        final(state).wf(),
        final(state)@ == (AppView { status: Some("save state: "@ + error@), ..old(state)@ }),
{
    state.status = Some("save state: ".to_owned().concat(error));
}

} // verus!
