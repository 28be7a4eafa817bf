//! The view snapshot: state projected into render-ready rows and overlays.
//!
//! Everything the renderer draws comes from here, owned (no borrow of state) so
//! layout and paint can run after the snapshot is built. It is rebuilt on state
//! change, not on every meter tick; meter ticks update retained meter values
//! and touch only the meter rectangles.

use crate::command_palette;
use crate::command_palette::{listed_of, VISIBLE_ROWS};
use crate::domain::{Gain, Section, SectionFilter, Stream, StreamKind, StreamView};
use crate::gain;
use crate::gain::is_above;
use crate::ordered;
use crate::ordered::OrderedMap;
use crate::profile::ProfileStoreView;
use crate::state::{App, AppView, Modal, ModalState};
use crate::text;
use crate::text::{chars_of, clone_opt, decimal_text, opt_is, same_text};
use crate::ui::layout::{RowId, RowIdView};
use crate::view::app_group;
use crate::view::app_group::{
    cubic_for, group_app_streams, render_plan, RenderedAppRow, RenderedModel, RouteEntries,
};
use crate::view::rows::{LevelEntries, Levels};
use std::collections::HashSet;
use vstd::prelude::*;
use vstd::string::*;

verus! {

broadcast use vstd::std_specs::hash::group_hash_axioms;

/// The bits of the cubic volume above which the slider fill switches to the
/// warning color: 1.10.
pub const VOLUME_WARNING_THRESHOLD: u32 = 0x3f8c_cccd;

/// A sink or source column.
#[derive(Debug, PartialEq, Eq)]
pub struct DeviceRowView {
    pub id: RowId,
    pub node_id: u32,
    pub label: String,
    pub sublabel: String,
    /// Slider position, cubic gain (0 = silent, 1 = unity).
    pub cubic: Gain,
    pub muted: bool,
    pub is_default: bool,
    /// Cubic above the warning threshold; the fill turns to the warning color.
    pub warning: bool,
}

#[verifier::ext_equal]
pub struct DeviceRowModel {
    pub id: RowIdView,
    pub node_id: u32,
    pub label: Seq<char>,
    pub sublabel: Seq<char>,
    pub cubic: Gain,
    pub muted: bool,
    pub is_default: bool,
    pub warning: bool,
}

impl View for DeviceRowView {
    type V = DeviceRowModel;

    open spec fn view(&self) -> DeviceRowModel {
        DeviceRowModel {
            id: self.id@,
            node_id: self.node_id,
            label: self.label@,
            sublabel: self.sublabel@,
            cubic: self.cubic,
            muted: self.muted,
            is_default: self.is_default,
            warning: self.warning,
        }
    }
}

/// An application column: a collapsed group or an expanded member sub-row.
#[derive(Debug, PartialEq, Eq)]
pub struct AppRowView {
    pub id: RowId,
    pub is_member: bool,
    pub label: String,
    /// The name the fallback icon tints and initials from.
    pub icon_key: String,
    /// The resolved freedesktop icon file, drawn when it decodes.
    pub icon_path: Option<String>,
    pub cubic: Gain,
    pub muted: bool,
    pub tombstoned: bool,
    pub warning: bool,
    pub member_count: usize,
    pub is_expanded: bool,
    pub can_expand: bool,
    /// The sink this row is pinned to, or None for autoroute. A group resolves
    /// to Some only when every member shares one pin.
    pub target_sink: Option<u32>,
}

#[verifier::ext_equal]
pub struct AppRowModel {
    pub id: RowIdView,
    pub is_member: bool,
    pub label: Seq<char>,
    pub icon_key: Seq<char>,
    pub icon_path: Option<Seq<char>>,
    pub cubic: Gain,
    pub muted: bool,
    pub tombstoned: bool,
    pub warning: bool,
    pub member_count: usize,
    pub is_expanded: bool,
    pub can_expand: bool,
    pub target_sink: Option<u32>,
}

impl View for AppRowView {
    type V = AppRowModel;

    open spec fn view(&self) -> AppRowModel {
        AppRowModel {
            id: self.id@,
            is_member: self.is_member,
            label: self.label@,
            icon_key: self.icon_key@,
            icon_path: text::opt(self.icon_path),
            cubic: self.cubic,
            muted: self.muted,
            tombstoned: self.tombstoned,
            warning: self.warning,
            member_count: self.member_count,
            is_expanded: self.is_expanded,
            can_expand: self.can_expand,
            target_sink: self.target_sink,
        }
    }
}

/// A sink the app target picker can pin to.
#[derive(Debug, PartialEq, Eq)]
pub struct SinkOption {
    pub id: u32,
    pub label: String,
    /// One-character button label, from the device form ("HEADSET" -> 'H').
    pub short: char,
}

#[verifier::ext_equal]
pub struct SinkOptionModel {
    pub id: u32,
    pub label: Seq<char>,
    pub short: char,
}

impl View for SinkOption {
    type V = SinkOptionModel;

    open spec fn view(&self) -> SinkOptionModel {
        SinkOptionModel { id: self.id, label: self.label@, short: self.short }
    }
}

/// One row in the profile selector menu.
#[derive(Debug, PartialEq, Eq)]
pub struct ProfileRowView {
    pub name: String,
    pub active: bool,
}

#[verifier::ext_equal]
pub struct ProfileRowModel {
    pub name: Seq<char>,
    pub active: bool,
}

impl View for ProfileRowView {
    type V = ProfileRowModel;

    open spec fn view(&self) -> ProfileRowModel {
        ProfileRowModel { name: self.name@, active: self.active }
    }
}

/// The profile selector: its rows and the active profile. Whether the menu is
/// dropped open is transient UI state, not part of the snapshot.
#[derive(Debug, PartialEq, Eq)]
pub struct ProfileMenuView {
    pub rows: Vec<ProfileRowView>,
    pub active: Option<String>,
}

#[verifier::ext_equal]
pub struct ProfileMenuModel {
    pub rows: Seq<ProfileRowModel>,
    pub active: Option<Seq<char>>,
}

pub open spec fn profile_rows(rows: Seq<ProfileRowView>) -> Seq<ProfileRowModel> {
    Seq::new(rows.len(), |i: int| rows[i]@)
}

impl View for ProfileMenuView {
    type V = ProfileMenuModel;

    open spec fn view(&self) -> ProfileMenuModel {
        ProfileMenuModel { rows: profile_rows(self.rows@), active: text::opt(self.active) }
    }
}

/// The command palette overlay.
#[derive(Debug, PartialEq, Eq)]
pub struct PaletteView {
    pub open: bool,
    pub query: String,
    /// The labels of the commands that match the query.
    pub rows: Vec<String>,
    pub selected: usize,
    /// First row the panel shows. Layout narrows the window to what fits and
    /// keeps the selection inside it.
    pub scroll: usize,
}

#[verifier::ext_equal]
pub struct PaletteModel {
    pub open: bool,
    pub query: Seq<char>,
    pub rows: Seq<Seq<char>>,
    pub selected: usize,
    pub scroll: usize,
}

impl View for PaletteView {
    type V = PaletteModel;

    open spec fn view(&self) -> PaletteModel {
        PaletteModel {
            open: self.open,
            query: self.query@,
            rows: text::texts(self.rows@),
            selected: self.selected,
            scroll: self.scroll,
        }
    }
}

/// A create / rename / delete modal.
#[derive(Debug, PartialEq, Eq)]
pub struct ModalView {
    pub title: String,
    pub body: String,
    pub input_visible: bool,
    pub input_value: String,
    pub error: Option<String>,
    pub confirm_label: String,
    pub destructive: bool,
}

#[verifier::ext_equal]
pub struct ModalModel {
    pub title: Seq<char>,
    pub body: Seq<char>,
    pub input_visible: bool,
    pub input_value: Seq<char>,
    pub error: Option<Seq<char>>,
    pub confirm_label: Seq<char>,
    pub destructive: bool,
}

impl View for ModalView {
    type V = ModalModel;

    open spec fn view(&self) -> ModalModel {
        ModalModel {
            title: self.title@,
            body: self.body@,
            input_visible: self.input_visible,
            input_value: self.input_value@,
            error: text::opt(self.error),
            confirm_label: self.confirm_label@,
            destructive: self.destructive,
        }
    }
}

pub open spec fn modal_model(modal: Option<ModalView>) -> Option<ModalModel> {
    match modal {
        Some(m) => Some(m@),
        None => None,
    }
}

/// The rows a node's peak feeds.
#[derive(Debug, PartialEq, Eq)]
pub struct MeterRoute {
    pub rows: Vec<RowId>,
}

impl View for MeterRoute {
    type V = Seq<RowIdView>;

    open spec fn view(&self) -> Seq<RowIdView> {
        Seq::new(self.rows@.len(), |i: int| self.rows@[i]@)
    }
}

/// The whole render-ready projection.
pub struct ViewSnapshot {
    pub sinks: Vec<DeviceRowView>,
    pub sources: Vec<DeviceRowView>,
    pub app_rows: Vec<AppRowView>,
    pub sink_options: Vec<SinkOption>,
    pub filter: SectionFilter,
    pub show_sinks: bool,
    pub show_sources: bool,
    pub show_apps: bool,
    pub profile: ProfileMenuView,
    pub palette: PaletteView,
    pub modal: Option<ModalView>,
    pub status: Option<String>,
    /// PipeWire node id to the rows its peak feeds (a device row, or an app
    /// group row plus its member sub-row when expanded).
    pub meter_routes: OrderedMap<u32, MeterRoute>,
}

#[verifier::ext_equal]
pub struct SnapshotModel {
    pub sinks: Seq<DeviceRowModel>,
    pub sources: Seq<DeviceRowModel>,
    pub app_rows: Seq<AppRowModel>,
    pub sink_options: Seq<SinkOptionModel>,
    pub filter: SectionFilter,
    pub show_sinks: bool,
    pub show_sources: bool,
    pub show_apps: bool,
    pub profile: ProfileMenuModel,
    pub palette: PaletteModel,
    pub modal: Option<ModalModel>,
    pub status: Option<Seq<char>>,
    pub meter_routes: MeterRoutes,
}

pub type MeterRoutes = Seq<(u32, Seq<RowIdView>)>;

pub open spec fn device_rows(rows: Seq<DeviceRowView>) -> Seq<DeviceRowModel> {
    Seq::new(rows.len(), |i: int| rows[i]@)
}

pub open spec fn app_rows(rows: Seq<AppRowView>) -> Seq<AppRowModel> {
    Seq::new(rows.len(), |i: int| rows[i]@)
}

pub open spec fn options(rows: Seq<SinkOption>) -> Seq<SinkOptionModel> {
    Seq::new(rows.len(), |i: int| rows[i]@)
}

impl View for ViewSnapshot {
    type V = SnapshotModel;

    open spec fn view(&self) -> SnapshotModel {
        SnapshotModel {
            sinks: device_rows(self.sinks@),
            sources: device_rows(self.sources@),
            app_rows: app_rows(self.app_rows@),
            sink_options: options(self.sink_options@),
            filter: self.filter,
            show_sinks: self.show_sinks,
            show_sources: self.show_sources,
            show_apps: self.show_apps,
            profile: self.profile@,
            palette: self.palette@,
            modal: modal_model(self.modal),
            status: text::opt(self.status),
            meter_routes: self.meter_routes@,
        }
    }
}

// --- Devices ----------------------------------------------------------------------------

/// The streams of one kind among the first `n`.
pub open spec fn of_kind(streams: Seq<(u32, StreamView)>, kind: StreamKind, n: int) -> Seq<
    StreamView,
>
    decreases n,
{
    if n <= 0 {
        Seq::empty()
    } else if streams[n - 1].1.kind == kind {
        of_kind(streams, kind, n - 1).push(streams[n - 1].1)
    } else {
        of_kind(streams, kind, n - 1)
    }
}

/// What orders a device in the strip: its form, then its id.
pub open spec fn device_rank(s: StreamView) -> (u8, u32) {
    (
        match s.form {
            Some(f) => f.rank,
            None => u8::MAX,
        },
        s.id,
    )
}

pub open spec fn device_before(a: StreamView, b: StreamView) -> bool {
    let (x, y) = (device_rank(a), device_rank(b));
    x.0 < y.0 || (x.0 == y.0 && x.1 < y.1)
}

/// Ordered devices with one more in its place.
pub open spec fn device_placed(list: Seq<StreamView>, s: StreamView) -> Seq<StreamView>
    decreases list.len(),
{
    if list.len() == 0 || !device_before(s, list.last()) {
        list.push(s)
    } else {
        device_placed(list.drop_last(), s).push(list.last())
    }
}

/// The first `n` devices in order.
pub open spec fn device_order(list: Seq<StreamView>, n: int) -> Seq<StreamView>
    decreases n,
{
    if n <= 0 {
        Seq::empty()
    } else {
        device_placed(device_order(list, n - 1), list[n - 1])
    }
}

/// The devices of one kind, in the order of their columns.
pub open spec fn devices(streams: Seq<(u32, StreamView)>, kind: StreamKind) -> Seq<StreamView> {
    let list = of_kind(streams, kind, streams.len() as int);
    device_order(list, list.len() as int)
}

/// A gain above the warning threshold.
pub open spec fn too_loud(g: Gain) -> bool {
    gain::above(g, VOLUME_WARNING_THRESHOLD)
}

pub open spec fn device_id(s: StreamView) -> RowIdView {
    if s.kind == StreamKind::Sink {
        RowIdView::Sink(s.id)
    } else {
        RowIdView::Source(s.id)
    }
}

/// A device's column.
pub open spec fn device_model(s: StreamView, levels: LevelEntries) -> DeviceRowModel {
    let cubic = app_group::cubic_of(levels, s.id);
    DeviceRowModel {
        id: device_id(s),
        node_id: s.id,
        label: s.display_name(),
        sublabel: match s.form {
            Some(f) => f.label,
            None => Seq::empty(),
        },
        cubic,
        muted: s.muted,
        is_default: s.is_default,
        warning: too_loud(cubic),
    }
}

pub open spec fn device_models(list: Seq<StreamView>, levels: LevelEntries) -> Seq<DeviceRowModel> {
    Seq::new(list.len(), |i: int| device_model(list[i], levels))
}

/// The first letter or number of a text.
pub open spec fn first_alnum(s: Seq<char>) -> Option<char>
    decreases s.len(),
{
    if s.len() == 0 {
        None
    } else if text::is_alnum(s[0]) {
        Some(s[0])
    } else {
        first_alnum(s.drop_first())
    }
}

/// What the app target picker offers for a sink: the first letter or number of
/// its heading, else of its name, stands on the button.
pub open spec fn option_model(row: DeviceRowModel) -> SinkOptionModel {
    SinkOptionModel {
        id: row.node_id,
        label: row.label,
        short: match first_alnum(row.sublabel + row.label) {
            Some(c) => c,
            None => '?',
        },
    }
}

pub open spec fn option_models(rows: Seq<DeviceRowModel>) -> Seq<SinkOptionModel> {
    Seq::new(rows.len(), |i: int| option_model(rows[i]))
}

proof fn device_placed_at(list: Seq<StreamView>, s: StreamView, at: int)
    requires
        0 <= at <= list.len(),
        forall|k: int| at <= k < list.len() ==> device_before(s, #[trigger] list[k]),
        at > 0 ==> !device_before(s, list[at - 1]),
    ensures
        device_placed(list, s) == list.insert(at, s),
    decreases list.len(),
{
    if at == list.len() {
        assert(list.push(s) =~= list.insert(at, s));
    } else {
        let rest = list.drop_last();
        assert(list.last() == list[list.len() - 1]);
        assert forall|k: int| at <= k < rest.len() implies device_before(
            s,
            #[trigger] rest[k],
        ) by {
            assert(rest[k] == list[k]);
        }
        device_placed_at(rest, s, at);
        assert(rest.insert(at, s).push(list.last()) =~= list.insert(at, s));
    }
}

/// The streams of one kind, ascending by id.
fn streams_of<'a>(state: &'a App, kind: StreamKind) -> (list: Vec<&'a Stream>)
    ensures
        app_group::stream_views(list@) == of_kind(
            state@.streams,
            kind,
            state@.streams.len() as int,
        ),
{
    let ghost streams = state@.streams;
    let mut list: Vec<&'a Stream> = Vec::new();
    let mut i: usize = 0;
    assert(app_group::stream_views(list@) =~= Seq::<StreamView>::empty());
    while i < state.streams.entries.len()
        invariant
            i <= state.streams.entries@.len(),
            streams == state@.streams,
            streams.len() == state.streams.entries@.len(),
            app_group::stream_views(list@) == of_kind(streams, kind, i as int),
        decreases state.streams.entries@.len() - i,
    {
        let s: &'a Stream = &state.streams.entries[i].1;
        assert(streams[i as int].1 == s@);
        if s.kind == kind {
            let ghost before = app_group::stream_views(list@);
            list.push(s);
            assert(app_group::stream_views(list@) =~= before.push(s@));
        }
        i = i + 1;
    }
    list
}

fn ranks_first(a: &Stream, b: &Stream) -> (first: bool)
    ensures
        first == device_before(a@, b@),
{
    let x: u8 = match &a.form {
        Some(f) => f.rank,
        None => u8::MAX,
    };
    let y: u8 = match &b.form {
        Some(f) => f.rank,
        None => u8::MAX,
    };
    x < y || (x == y && a.id < b.id)
}

/// The devices of one kind, in the order of their columns.
fn sorted_devices<'a>(state: &'a App, kind: StreamKind) -> (out: Vec<&'a Stream>)
    ensures
        app_group::stream_views(out@) == devices(state@.streams, kind),
{
    let list = streams_of(state, kind);
    let ghost all = app_group::stream_views(list@);
    let mut out: Vec<&'a Stream> = Vec::new();
    let mut i: usize = 0;
    assert(app_group::stream_views(out@) =~= Seq::<StreamView>::empty());
    while i < list.len()
        invariant
            i <= list@.len(),
            all == app_group::stream_views(list@),
            app_group::stream_views(out@) == device_order(all, i as int),
        decreases list@.len() - i,
    {
        let s: &'a Stream = list[i];
        assert(all[i as int] == s@);
        let ghost sorted = app_group::stream_views(out@);
        let mut at: usize = out.len();
        while at > 0 && ranks_first(s, out[at - 1])
            invariant
                at <= out@.len(),
                sorted == app_group::stream_views(out@),
                forall|k: int| at <= k < sorted.len() ==> device_before(s@, #[trigger] sorted[k]),
            decreases at,
        {
            assert(sorted[at - 1] == out@[at - 1]@);
            at = at - 1;
        }
        proof {
            if at > 0 {
                assert(sorted[at - 1] == out@[at - 1]@);
            }
            device_placed_at(sorted, s@, at as int);
        }
        out.insert(at, s);
        assert(app_group::stream_views(out@) =~= sorted.insert(at as int, s@));
        i = i + 1;
    }
    out
}

fn device_row(s: &Stream, levels: &Levels) -> (row: DeviceRowView)
    requires
        levels.wf(),
    ensures
        row@ == device_model(s@, levels@),
{
    let cubic = cubic_for(levels, s.id);
    let id = if s.kind == StreamKind::Sink {
        RowId::Sink(s.id)
    } else {
        RowId::Source(s.id)
    };
    let sublabel = match &s.form {
        Some(f) => f.label.clone(),
        None => String::new(),
    };
    proof {
        reveal_strlit("");
        assert(s@.form is None ==> sublabel@ =~= Seq::<char>::empty());
    }
    DeviceRowView {
        id,
        node_id: s.id,
        label: s.display_name().to_owned(),
        sublabel,
        cubic,
        muted: s.muted,
        is_default: s.is_default,
        warning: is_above(cubic, VOLUME_WARNING_THRESHOLD),
    }
}

fn rows_for(list: &Vec<&Stream>, levels: &Levels) -> (rows: Vec<DeviceRowView>)
    requires
        levels.wf(),
    ensures
        device_rows(rows@) == device_models(app_group::stream_views(list@), levels@),
{
    let ghost all = app_group::stream_views(list@);
    let mut rows: Vec<DeviceRowView> = Vec::new();
    let mut i: usize = 0;
    while i < list.len()
        invariant
            i <= list@.len() == all.len(),
            all == app_group::stream_views(list@),
            levels.wf(),
            rows@.len() == i,
            forall|k: int| 0 <= k < i ==> (#[trigger] rows@[k])@ == device_model(all[k], levels@),
        decreases list@.len() - i,
    {
        assert(all[i as int] == list@[i as int]@);
        rows.push(device_row(list[i], levels));
        i = i + 1;
    }
    assert(device_rows(rows@) =~= device_models(all, levels@));
    rows
}

fn short_label(row: &DeviceRowView) -> (short: char)
    ensures
        short == option_model(row@).short,
{
    let v = chars_of(row.sublabel.clone().concat(row.label.as_str()).as_str());
    let mut i: usize = 0;
    assert(v@.skip(0) =~= v@);
    while i < v.len()
        invariant
            i <= v@.len(),
            v@ == row@.sublabel + row@.label,
            first_alnum(v@) == first_alnum(v@.skip(i as int)),
        decreases v@.len() - i,
    {
        let c: char = v[i];
        assert(v@.skip(i as int)[0] == c);
        assert(v@.skip(i as int).drop_first() =~= v@.skip(i + 1));
        if c.is_alphanumeric() {
            return c;
        }
        i = i + 1;
    }
    '?'
}

fn options_for(rows: &Vec<DeviceRowView>) -> (out: Vec<SinkOption>)
    ensures
        options(out@) == option_models(device_rows(rows@)),
{
    let ghost all = device_rows(rows@);
    let mut out: Vec<SinkOption> = Vec::new();
    let mut i: usize = 0;
    while i < rows.len()
        invariant
            i <= rows@.len() == all.len(),
            all == device_rows(rows@),
            out@.len() == i,
            forall|k: int| 0 <= k < i ==> (#[trigger] out@[k])@ == option_model(all[k]),
        decreases rows@.len() - i,
    {
        let row: &DeviceRowView = &rows[i];
        assert(all[i as int] == row@);
        out.push(
            SinkOption { id: row.node_id, label: row.label.clone(), short: short_label(row) },
        );
        i = i + 1;
    }
    assert(options(out@) =~= option_models(all));
    out
}

// --- Applications -------------------------------------------------------------------------

/// The sink a node name belongs to, among the first `n`; the last one where
/// several share it.
pub open spec fn sink_named(sinks: Seq<StreamView>, name: Seq<char>, n: int) -> Option<u32>
    decreases n,
{
    if n <= 0 {
        None
    } else if sinks[n - 1].node_name == Some(name) {
        Some(sinks[n - 1].id)
    } else {
        sink_named(sinks, name, n - 1)
    }
}

/// The sink a pin stands for; none where its device is gone.
pub open spec fn pinned(sinks: Seq<StreamView>, target: Option<Seq<char>>) -> Option<u32> {
    match target {
        Some(name) => sink_named(sinks, name, sinks.len() as int),
        None => None,
    }
}

/// What a member sub-column is called. Every member shares the group's app
/// name, so that would label them all alike; media.name names the individual
/// stream where it says anything, and the node id does where it says nothing.
pub open spec fn member_name(s: StreamView) -> Seq<char> {
    let own = "Stream "@ + text::decimal(s.id as nat);
    match s.media_name {
        Some(n) => if n.len() > 0 && n != "Playback"@ {
            n
        } else {
            own
        },
        None => own,
    }
}

/// An app column.
pub open spec fn app_model(
    row: RenderedModel,
    levels: LevelEntries,
    tombstoned: Set<u32>,
    sinks: Seq<StreamView>,
) -> AppRowModel {
    match row {
        RenderedModel::Group { group, expanded } => {
            let info = app_group::info(group, levels, tombstoned, expanded);
            AppRowModel {
                id: RowIdView::AppGroup(info.key),
                is_member: false,
                label: info.display_name,
                icon_key: if group.members.len() == 0 {
                    Seq::empty()
                } else {
                    group.members[app_group::leader(
                        group.members,
                        group.members.len() as int,
                    )].display_name()
                },
                icon_path: info.icon_path,
                cubic: info.master_cubic,
                muted: info.all_muted,
                tombstoned: info.all_tombstoned,
                warning: too_loud(info.master_cubic),
                member_count: info.member_count,
                is_expanded: info.is_expanded,
                can_expand: info.member_count > 1,
                target_sink: pinned(sinks, info.effective_target),
            }
        },
        RenderedModel::Member { stream } => {
            let cubic = app_group::cubic_of(levels, stream.id);
            AppRowModel {
                id: RowIdView::AppMember(stream.id),
                is_member: true,
                label: member_name(stream),
                icon_key: stream.display_name(),
                icon_path: stream.icon_path(),
                cubic,
                muted: stream.muted,
                tombstoned: tombstoned.contains(stream.id),
                warning: too_loud(cubic),
                member_count: 1,
                is_expanded: false,
                can_expand: false,
                target_sink: pinned(sinks, stream.target_sink_name),
            }
        },
    }
}

pub open spec fn app_models(
    rows: Seq<RenderedModel>,
    levels: LevelEntries,
    tombstoned: Set<u32>,
    sinks: Seq<StreamView>,
) -> Seq<AppRowModel> {
    Seq::new(rows.len(), |i: int| app_model(rows[i], levels, tombstoned, sinks))
}

fn find_sink(sinks: &Vec<&Stream>, target: &Option<String>) -> (id: Option<u32>)
    ensures
        id == pinned(app_group::stream_views(sinks@), text::opt(*target)),
{
    let name: &String = match target {
        Some(name) => name,
        None => {
            return None;
        },
    };
    let ghost all = app_group::stream_views(sinks@);
    let mut i: usize = sinks.len();
    while i > 0
        invariant
            i <= sinks@.len() == all.len(),
            all == app_group::stream_views(sinks@),
            text::opt(*target) == Some(name@),
            sink_named(all, name@, all.len() as int) == sink_named(all, name@, i as int),
        decreases i,
    {
        assert(all[i - 1] == sinks@[i - 1]@);
        if opt_is(&sinks[i - 1].node_name, name.as_str()) {
            return Some(sinks[i - 1].id);
        }
        i = i - 1;
    }
    None
}

/// The name of one member's own row: what it plays if that says anything, else its id.
pub fn member_label(s: &Stream) -> (label: String)
    ensures
        label@ == member_name(s@),
{
    match &s.media_name {
        Some(n) => {
            if !n.as_str().is_empty() && !same_text(n.as_str(), "Playback") {
                return n.clone();
            }
        },
        None => {},
    }
    "Stream ".to_owned().concat(decimal_text(s.id as u64).as_str())
}

fn app_row(
    row: &RenderedAppRow,
    levels: &Levels,
    tombstoned: &HashSet<u32>,
    sinks: &Vec<&Stream>,
) -> (out: AppRowView)
    requires
        levels.wf(),
    ensures
        out@ == app_model(row@, levels@, tombstoned@, app_group::stream_views(sinks@)),
{
    match row {
        RenderedAppRow::Group { group, expanded } => {
            let info = group.to_info(tombstoned, *expanded, levels);
            let icon_key = group.icon_name();
            let target_sink = find_sink(sinks, &info.effective_target);
            AppRowView {
                id: RowId::AppGroup(info.key),
                is_member: false,
                label: info.display_name,
                icon_key,
                icon_path: info.icon_path,
                cubic: info.master_cubic,
                muted: info.all_muted,
                tombstoned: info.all_tombstoned,
                warning: is_above(info.master_cubic, VOLUME_WARNING_THRESHOLD),
                member_count: info.member_count,
                is_expanded: info.is_expanded,
                can_expand: info.member_count > 1,
                target_sink,
            }
        },
        RenderedAppRow::Member { stream } => {
            let cubic = cubic_for(levels, stream.id);
            AppRowView {
                id: RowId::AppMember(stream.id),
                is_member: true,
                label: member_label(stream),
                icon_key: stream.display_name().to_owned(),
                icon_path: stream.icon_path(),
                cubic,
                muted: stream.muted,
                tombstoned: tombstoned.contains(&stream.id),
                warning: is_above(cubic, VOLUME_WARNING_THRESHOLD),
                member_count: 1,
                is_expanded: false,
                can_expand: false,
                target_sink: find_sink(sinks, &stream.target_sink_name),
            }
        },
    }
}

// --- Profiles, palette and modal ------------------------------------------------------------

/// The profile selector's menu.
pub open spec fn menu_model(profiles: ProfileStoreView) -> ProfileMenuModel {
    ProfileMenuModel {
        rows: Seq::new(
            profiles.profiles.len(),
            |i: int|
                ProfileRowModel {
                    name: profiles.profiles[i].name,
                    active: profiles.active == Some(profiles.profiles[i].name),
                },
        ),
        active: profiles.active,
    }
}

/// The palette over the commands that match its query, as many of them as it
/// lists: the selection stays on one of them, and the list does not scroll past its
/// end.
pub open spec fn palette_model(st: AppView, commands: Seq<Seq<char>>) -> PaletteModel {
    if st.palette_open {
        let n = command_palette::listed(commands.len() as int);
        PaletteModel {
            open: true,
            query: st.palette_query,
            rows: commands.take(n),
            selected: if n == 0 {
                0
            } else if st.palette_selected < n - 1 {
                st.palette_selected
            } else {
                (n - 1) as usize
            },
            scroll: if n <= VISIBLE_ROWS {
                0
            } else if st.palette_scroll < n - VISIBLE_ROWS {
                st.palette_scroll
            } else {
                (n - VISIBLE_ROWS) as usize
            },
        }
    } else {
        PaletteModel {
            open: false,
            query: Seq::empty(),
            rows: Seq::empty(),
            selected: 0,
            scroll: 0,
        }
    }
}

/// What a modal shows.
pub open spec fn dialog(modal: Option<ModalState>) -> Option<ModalModel> {
    match modal {
        None => None,
        Some(ModalState::CreateProfile { name, error }) => Some(
            ModalModel {
                title: "Create profile"@,
                body: Seq::empty(),
                input_visible: true,
                input_value: name,
                error,
                confirm_label: "Create"@,
                destructive: false,
            },
        ),
        Some(ModalState::RenameProfile { old_name, name, error }) => Some(
            ModalModel {
                title: "Rename profile"@,
                body: Seq::empty(),
                input_visible: true,
                input_value: name,
                error,
                confirm_label: "Rename"@,
                destructive: false,
            },
        ),
        Some(ModalState::DeleteProfile { name }) => Some(
            ModalModel {
                title: "Delete profile"@,
                body: "Delete the profile \u{201c}"@ + name + "\u{201d}?"@,
                input_visible: false,
                input_value: Seq::empty(),
                error: None,
                confirm_label: "Delete"@,
                destructive: true,
            },
        ),
    }
}

fn profile_menu(state: &App) -> (menu: ProfileMenuView)
    ensures
        menu@ == menu_model(state@.profiles),
{
    let profiles = &state.profiles.profiles;
    let mut rows: Vec<ProfileRowView> = Vec::new();
    let mut i: usize = 0;
    let ghost all = menu_model(state@.profiles).rows;
    while i < profiles.len()
        invariant
            i <= profiles@.len() == all.len(),
            profiles == state.profiles.profiles,
            all == menu_model(state@.profiles).rows,
            rows@.len() == i,
            forall|k: int| 0 <= k < i ==> (#[trigger] rows@[k])@ == all[k],
        decreases profiles@.len() - i,
    {
        let name = &profiles[i].name;
        assert(state@.profiles.profiles[i as int].name == name@);
        rows.push(
            ProfileRowView {
                name: name.clone(),
                active: opt_is(&state.profiles.active, name.as_str()),
            },
        );
        i = i + 1;
    }
    assert(profile_rows(rows@) =~= all);
    ProfileMenuView { rows, active: clone_opt(&state.profiles.active) }
}

fn palette(state: &App, commands: Vec<String>) -> (view: PaletteView)
    ensures
        view@ == palette_model(state@, text::texts(commands@)),
{
    if !state.palette_open {
        let rows: Vec<String> = Vec::new();
        let query = String::new();
        proof {
            reveal_strlit("");
            assert(query@ =~= Seq::<char>::empty());
            assert(text::texts(rows@) =~= Seq::<Seq<char>>::empty());
        }
        return PaletteView { open: false, query, rows, selected: 0, scroll: 0 };
    }
    let n: usize = listed_of(commands.len());
    let ghost all = text::texts(commands@);
    let mut rows = commands;
    rows.truncate(n);
    assert(text::texts(rows@) =~= all.take(n as int));
    let selected: usize = if n == 0 {
        0
    } else if state.palette_selected < n - 1 {
        state.palette_selected
    } else {
        n - 1
    };
    let scroll: usize = if n <= VISIBLE_ROWS {
        0
    } else if state.palette_scroll < n - VISIBLE_ROWS {
        state.palette_scroll
    } else {
        n - VISIBLE_ROWS
    };
    PaletteView { open: true, query: state.palette_query.clone(), rows, selected, scroll }
}

fn modal(state: &App) -> (view: Option<ModalView>)
    ensures
        modal_model(view) == dialog(state@.modal),
{
    proof {
        reveal_strlit("");
        assert(""@ =~= Seq::<char>::empty());
    }
    match &state.modal {
        None => None,
        Some(Modal::CreateProfile { name, error }) => Some(
            ModalView {
                title: "Create profile".to_owned(),
                body: "".to_owned(),
                input_visible: true,
                input_value: name.clone(),
                error: clone_opt(error),
                confirm_label: "Create".to_owned(),
                destructive: false,
            },
        ),
        Some(Modal::RenameProfile { old_name: _, name, error }) => Some(
            ModalView {
                title: "Rename profile".to_owned(),
                body: "".to_owned(),
                input_visible: true,
                input_value: name.clone(),
                error: clone_opt(error),
                confirm_label: "Rename".to_owned(),
                destructive: false,
            },
        ),
        Some(Modal::DeleteProfile { name }) => Some(
            ModalView {
                title: "Delete profile".to_owned(),
                body: "Delete the profile \u{201c}".to_owned().concat(name.as_str()).concat(
                    "\u{201d}?",
                ),
                input_visible: false,
                input_value: "".to_owned(),
                error: None,
                confirm_label: "Delete".to_owned(),
                destructive: true,
            },
        ),
    }
}

// --- Meter routes -----------------------------------------------------------------------------

/// Routes with the first `n` devices' put in: each feeds its own column.
pub open spec fn device_routes(routes: MeterRoutes, list: Seq<StreamView>, n: int) -> MeterRoutes
    decreases n,
{
    if n <= 0 {
        routes
    } else {
        ordered::put::<u32, Seq<RowIdView>>(
            device_routes(routes, list, n - 1),
            list[n - 1].id,
            seq![device_id(list[n - 1])],
        )
    }
}

/// The rows an app stream feeds: its group's, and its own while that is there.
pub open spec fn app_route(id: u32, route: app_group::RouteModel) -> Seq<RowIdView> {
    let group = seq![RowIdView::AppGroup(route.group_key)];
    if route.has_member_row {
        group.push(RowIdView::AppMember(id))
    } else {
        group
    }
}

/// Routes with the first `n` app streams' put in.
pub open spec fn app_routes(routes: MeterRoutes, apps: RouteEntries, n: int) -> MeterRoutes
    decreases n,
{
    if n <= 0 {
        routes
    } else {
        ordered::put::<u32, Seq<RowIdView>>(
            app_routes(routes, apps, n - 1),
            apps[n - 1].0,
            app_route(apps[n - 1].0, apps[n - 1].1),
        )
    }
}

fn route_devices(routes: &mut OrderedMap<u32, MeterRoute>, list: &Vec<&Stream>)
    requires
        old(routes).wf(),
    ensures
        final(routes).wf(),
        final(routes)@ == device_routes(
            old(routes)@,
            app_group::stream_views(list@),
            list@.len() as int,
        ),
{
    let ghost all = app_group::stream_views(list@);
    let mut i: usize = 0;
    while i < list.len()
        invariant
            i <= list@.len(),
            all == app_group::stream_views(list@),
            routes.wf(),
            routes@ == device_routes(old(routes)@, all, i as int),
        decreases list@.len() - i,
    {
        let s: &Stream = list[i];
        assert(all[i as int] == s@);
        let id = if s.kind == StreamKind::Sink {
            RowId::Sink(s.id)
        } else {
            RowId::Source(s.id)
        };
        let mut rows: Vec<RowId> = Vec::new();
        rows.push(id);
        let route = MeterRoute { rows };
        assert(route@ =~= seq![device_id(s@)]);
        routes.insert(s.id, route);
        i = i + 1;
    }
}

fn route_apps(
    routes: &mut OrderedMap<u32, MeterRoute>,
    apps: &OrderedMap<u32, app_group::AppPeakRoute>,
)
    requires
        old(routes).wf(),
    ensures
        final(routes).wf(),
        final(routes)@ == app_routes(old(routes)@, apps@, apps@.len() as int),
{
    let mut i: usize = 0;
    while i < apps.entries.len()
        invariant
            i <= apps.entries@.len() == apps@.len(),
            routes.wf(),
            routes@ == app_routes(old(routes)@, apps@, i as int),
        decreases apps.entries@.len() - i,
    {
        let id: u32 = apps.entries[i].0;
        let app = &apps.entries[i].1;
        assert(apps@[i as int] == (id, app@));
        let mut rows: Vec<RowId> = Vec::new();
        rows.push(RowId::AppGroup(app.group_key.clone()));
        if app.has_member_row {
            rows.push(RowId::AppMember(id));
        }
        let route = MeterRoute { rows };
        assert(route@ =~= app_route(id, app@));
        routes.insert(id, route);
        i = i + 1;
    }
}

// --- The whole -------------------------------------------------------------------------------------

/// The state of the mixer as a renderer draws it.
pub open spec fn snapshot_of(st: AppView, levels: LevelEntries, commands: Seq<Seq<char>>) ->
    SnapshotModel {
    let sinks = devices(st.streams, StreamKind::Sink);
    let sources = devices(st.streams, StreamKind::Source);
    let apps = of_kind(st.streams, StreamKind::Application, st.streams.len() as int);
    let groups = app_group::columns(apps, st.app_order);
    let n = groups.len() as int;
    let rendered = app_group::plan_rows(groups, st.expanded_groups, n);
    let routes = app_group::plan_routes(groups, st.expanded_groups, n);
    let device_rows = device_routes(
        device_routes(Seq::empty(), sinks, sinks.len() as int),
        sources,
        sources.len() as int,
    );
    SnapshotModel {
        sinks: device_models(sinks, levels),
        sources: device_models(sources, levels),
        app_rows: app_models(rendered, levels, st.tombstoned, sinks),
        sink_options: option_models(device_models(sinks, levels)),
        filter: st.section_filter,
        show_sinks: st.section_filter.showing(Section::Outputs) && sinks.len() > 0,
        show_sources: st.section_filter.showing(Section::Inputs) && sources.len() > 0,
        show_apps: st.section_filter.showing(Section::Apps) && rendered.len() > 0,
        profile: menu_model(st.profiles),
        palette: palette_model(st, commands),
        modal: dialog(st.modal),
        status: st.status,
        meter_routes: app_routes(device_rows, routes, routes.len() as int),
    }
}

/// Project state into a snapshot. `levels` supplies where each gain puts its
/// fader and the titles players give single-stream app rows; `commands` are the
/// labels of the commands that match the palette's query.
pub fn build_snapshot(state: &App, levels: &Levels, commands: Vec<String>) -> (snap: ViewSnapshot)
    requires
        state.wf(),
        levels.wf(),
    ensures
        snap@ == snapshot_of(state@, levels@, text::texts(commands@)),
        snap.meter_routes.wf(),
{
    let sinks = sorted_devices(state, StreamKind::Sink);
    let sources = sorted_devices(state, StreamKind::Source);
    let apps = streams_of(state, StreamKind::Application);
    let ghost sink_views = app_group::stream_views(sinks@);
    assert(sink_views.len() == sinks@.len());
    assert(app_group::stream_views(sources@).len() == sources@.len());

    let mut meter_routes: OrderedMap<u32, MeterRoute> = OrderedMap::new();
    assert(meter_routes@ =~= Seq::<(u32, Seq<RowIdView>)>::empty());
    route_devices(&mut meter_routes, &sinks);
    route_devices(&mut meter_routes, &sources);

    let sink_rows = rows_for(&sinks, levels);
    let source_rows = rows_for(&sources, levels);
    let sink_options = options_for(&sink_rows);
    assert(device_rows(sink_rows@).len() == sink_rows@.len());
    assert(device_rows(source_rows@).len() == source_rows@.len());

    // App grouping and the peak routing plan.
    let groups = group_app_streams(&apps, &state.app_order);
    assert(app_group::group_views(groups@).len() == groups@.len());
    let (rendered, routes) = render_plan(&groups, &state.expanded_groups);
    route_apps(&mut meter_routes, &routes);
    let ghost rows = app_group::rendered_views(rendered@);

    let mut app_list: Vec<AppRowView> = Vec::new();
    let mut i: usize = 0;
    while i < rendered.len()
        invariant
            i <= rendered@.len() == rows.len(),
            rows == app_group::rendered_views(rendered@),
            sink_views == app_group::stream_views(sinks@),
            levels.wf(),
            app_list@.len() == i,
            forall|k: int|
                0 <= k < i ==> (#[trigger] app_list@[k])@ == app_model(
                    rows[k],
                    levels@,
                    state@.tombstoned,
                    sink_views,
                ),
        decreases rendered@.len() - i,
    {
        assert(rows[i as int] == rendered@[i as int]@);
        app_list.push(app_row(&rendered[i], levels, &state.tombstoned, &sinks));
        i = i + 1;
    }
    assert(app_rows(app_list@) =~= app_models(rows, levels@, state@.tombstoned, sink_views));

    let show_sinks = state.shows_section(Section::Outputs) && sink_rows.len() > 0;
    let show_sources = state.shows_section(Section::Inputs) && source_rows.len() > 0;
    let show_apps = state.shows_section(Section::Apps) && app_list.len() > 0;
    ViewSnapshot {
        sinks: sink_rows,
        sources: source_rows,
        app_rows: app_list,
        sink_options,
        filter: state.section_filter,
        show_sinks,
        show_sources,
        show_apps,
        profile: profile_menu(state),
        palette: palette(state, commands),
        modal: modal(state),
        status: clone_opt(&state.status),
        meter_routes,
    }
}

} // verus!
