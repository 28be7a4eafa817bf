//! What holds of the mixer's state whatever happens to it.

use crate::command_palette;
use crate::domain::{Gain, Section, StreamKind, StreamView, MAX_VOLUME};
use crate::gain;
use crate::ordered;
use crate::profile;
use crate::profile::{AppEntries, DeviceEntries, PendingView, ProfileStoreView, ProfileView};
use crate::state;
use crate::state::{AppView, Message, ModalState, Work, WorkerEvent};
use vstd::prelude::*;

verus! {

// --- What level and route changes leave alone --------------------------------------

/// Two states that differ in their streams at most.
pub open spec fn same_but_streams(a: AppView, b: AppView) -> bool {
    a == (AppView { streams: a.streams, ..b })
}

proof fn volumes_keep_rest(
    w: Work,
    levels: Seq<(u32, Gain)>,
    ids: Seq<u32>,
    master: Gain,
    target: Gain,
    n: int,
)
    ensures
        same_but_streams(state::volumes_set(w, levels, ids, master, target, n).state, w.state),
        state::volumes_set(w, levels, ids, master, target, n).saves == w.saves,
    decreases n,
{
    if n > 0 {
        volumes_keep_rest(w, levels, ids, master, target, n - 1);
    }
}

proof fn mutes_keep_rest(w: Work, ids: Seq<u32>, mute: bool, n: int)
    ensures
        same_but_streams(state::mutes_set(w, ids, mute, n).state, w.state),
        state::mutes_set(w, ids, mute, n).saves == w.saves,
    decreases n,
{
    if n > 0 {
        mutes_keep_rest(w, ids, mute, n - 1);
    }
}

proof fn targets_keep_rest(w: Work, ids: Seq<u32>, target: Option<Seq<char>>, n: int)
    ensures
        same_but_streams(state::targets_set(w, ids, target, n).state, w.state),
        state::targets_set(w, ids, target, n).saves == w.saves,
    decreases n,
{
    if n > 0 {
        targets_keep_rest(w, ids, target, n - 1);
    }
}

proof fn devices_keep_rest(w: Work, kind: StreamKind, entries: DeviceEntries, n: int)
    ensures
        same_but_streams(state::devices_applied(w, kind, entries, n).state, w.state),
        state::devices_applied(w, kind, entries, n).saves == w.saves,
    decreases n,
{
    if n > 0 {
        devices_keep_rest(w, kind, entries, n - 1);
    }
}

proof fn apps_keep_rest(w: Work, entries: AppEntries, n: int)
    ensures
        same_but_streams(state::apps_applied(w, entries, n).state, w.state),
        state::apps_applied(w, entries, n).saves == w.saves,
    decreases n,
{
    if n > 0 {
        apps_keep_rest(w, entries, n - 1);
    }
}

proof fn eviction_keeps_rest(st: AppView, ids: Seq<u32>, n: int)
    ensures
        ({
            let after = state::evicted(st, ids, n);
            after == (AppView {
                streams: after.streams,
                tombstoned: after.tombstoned,
                app_order: after.app_order,
                ..st
            })
        }),
    decreases n,
{
    if n > 0 {
        eviction_keeps_rest(st, ids, n - 1);
    }
}

/// A report from the sound server leaves the profiles and the uncommitted flag
/// as they are and asks for no save: changes made by other tools never bleed
/// into a profile.
pub proof fn reports_never_dirty(w: Work, event: WorkerEvent)
    ensures
        state::worker_step(w, event).state.profiles == w.state.profiles,
        state::worker_step(w, event).state.dirty == w.state.dirty,
        state::worker_step(w, event).saves == w.saves,
{
    match event {
        WorkerEvent::StreamAdded(s) => {
            arrival_keeps_profiles(w, s@);
        },
        WorkerEvent::StreamUpdated(s) => {
            arrival_keeps_profiles(w, s@);
        },
        _ => {},
    }
}

proof fn arrival_keeps_profiles(w: Work, s: StreamView)
    ensures
        state::stream_arrived(w, s).state.profiles == w.state.profiles,
        state::stream_arrived(w, s).state.dirty == w.state.dirty,
        state::stream_arrived(w, s).saves == w.saves,
{
    let stale = state::taken_over(w.state, s);
    eviction_keeps_rest(w.state, stale, stale.len() as int);
}

// --- Profiles -------------------------------------------------------------------------

proof fn find_is_some(profiles: Seq<ProfileView>, name: Seq<char>, i: int)
    requires
        0 <= i < profiles.len(),
        profiles[i].name == name,
    ensures
        profile::find_name(profiles, name) is Some,
{
    profile::position_of_holds(profiles, name, profiles.len() as int);
}

proof fn found_holds(profiles: Seq<ProfileView>, name: Seq<char>)
    requires
        profile::find_name(profiles, name) is Some,
    ensures
        ({
            let i = profile::find_name(profiles, name).unwrap();
            0 <= i < profiles.len() && profiles[i].name == name
        }),
{
    profile::position_of_holds(profiles, name, profiles.len() as int);
}

/// Folding settings into a profile leaves every name that was there.
proof fn with_profile_keeps_names(store: ProfileStoreView, p: ProfileView, name: Seq<char>)
    ensures
        profile::find_name(store.profiles, name) is Some ==> profile::find_name(
            store.with_profile(p).profiles,
            name,
        ) is Some,
        profile::find_name(store.with_profile(p).profiles, p.name) is Some,
        store.with_profile(p).active == store.active,
{
    let after = store.with_profile(p).profiles;
    match profile::find_name(store.profiles, p.name) {
        Some(i) => {
            found_holds(store.profiles, p.name);
            find_is_some(after, p.name, i);
            if profile::find_name(store.profiles, name) is Some {
                found_holds(store.profiles, name);
                let k = profile::find_name(store.profiles, name).unwrap();
                if k == i {
                    find_is_some(after, name, i);
                } else {
                    find_is_some(after, name, k);
                }
            }
        },
        None => {
            find_is_some(after, p.name, after.len() - 1);
            if profile::find_name(store.profiles, name) is Some {
                found_holds(store.profiles, name);
                find_is_some(after, name, profile::find_name(store.profiles, name).unwrap());
            }
        },
    }
}

proof fn snapshot_keeps_active(st: AppView)
    requires
        state::one_active(st),
    ensures
        state::one_active(state::snapshotted(st)),
{
    let name = st.profiles.active.unwrap();
    let snap = profile::snapshot_of(
        name,
        st.streams,
        state::default_name(st.streams, StreamKind::Sink),
        state::default_name(st.streams, StreamKind::Source),
        st.section_filter,
    );
    with_profile_keeps_names(st.profiles, snap, name);
}

proof fn autosave_keeps_active(w: Work)
    requires
        state::one_active(w.state),
    ensures
        state::one_active(state::autosaved(w).state),
{
    snapshot_keeps_active(w.state);
}

proof fn apply_keeps_active(w: Work, name: Seq<char>)
    requires
        state::one_active(w.state),
    ensures
        state::one_active(state::profile_applied(w, name).state),
{
    autosave_keeps_active(w);
    let w0 = state::flushed(w, name);
    match profile::find_name(w0.state.profiles.profiles, name) {
        None => {},
        Some(at) => {
            found_holds(w0.state.profiles.profiles, name);
            let p = w0.state.profiles.profiles[at];
            let w1 = state::devices_applied(w0, StreamKind::Sink, p.sinks, p.sinks.len() as int);
            let w2 = state::devices_applied(
                w1,
                StreamKind::Source,
                p.sources,
                p.sources.len() as int,
            );
            devices_keep_rest(w0, StreamKind::Sink, p.sinks, p.sinks.len() as int);
            devices_keep_rest(w1, StreamKind::Source, p.sources, p.sources.len() as int);
            apps_keep_rest(w2, p.apps, p.apps.len() as int);
        },
    }
}

proof fn delete_keeps_active(w: Work, name: Seq<char>)
    requires
        state::one_active(w.state),
    ensures
        state::one_active(state::profile_deleted(w, name).state),
{
    if profile::find_name(w.state.profiles.profiles, name) is Some {
        let st = AppView {
            profiles: w.state.profiles.without_profile(name),
            pending: if w.state.profiles.active == Some(name) {
                PendingView::none()
            } else {
                w.state.pending
            },
            ..w.state
        };
        state::active_profile_is_enforced(st);
    }
}

proof fn create_keeps_active(w: Work, name: Seq<char>)
    ensures
        state::one_active(state::profile_created(w, name).state),
{
    let st = w.state;
    let snap = profile::snapshot_of(
        name,
        st.streams,
        state::default_name(st.streams, StreamKind::Sink),
        state::default_name(st.streams, StreamKind::Source),
        st.section_filter,
    );
    with_profile_keeps_names(st.profiles, snap, name);
}

proof fn rename_keeps_active(store: ProfileStoreView, old_name: Seq<char>, name: Seq<char>)
    requires
        store.active matches Some(a) && profile::find_name(store.profiles, a) is Some,
        profile::find_name(store.profiles, old_name) is Some,
    ensures
        ({
            let after = store.renamed(old_name, name);
            after.active matches Some(a) && profile::find_name(after.profiles, a) is Some
        }),
{
    let i = profile::find_name(store.profiles, old_name).unwrap();
    found_holds(store.profiles, old_name);
    let after = store.renamed(old_name, name);
    let a = store.active.unwrap();
    found_holds(store.profiles, a);
    let k = profile::find_name(store.profiles, a).unwrap();
    if a == old_name {
        find_is_some(after.profiles, name, i);
    } else {
        find_is_some(after.profiles, a, k);
    }
}

proof fn reorder_keeps_active(store: ProfileStoreView, name: Seq<char>, target: Seq<char>, before: bool)
    requires
        store.active matches Some(a) && profile::find_name(store.profiles, a) is Some,
    ensures
        profile::find_name(store.reordered(name, target, before), store.active.unwrap()) is Some,
{
    let a = store.active.unwrap();
    found_holds(store.profiles, a);
    let k = profile::find_name(store.profiles, a).unwrap();
    let after = store.reordered(name, target, before);
    match (profile::find_name(store.profiles, name), profile::find_name(store.profiles, target)) {
        (Some(i), Some(j)) if i != j => {
            found_holds(store.profiles, name);
            found_holds(store.profiles, target);
            let j2 = if i < j {
                j - 1
            } else {
                j
            };
            let at = if before {
                j2
            } else {
                j2 + 1
            };
            if k == i {
                find_is_some(after, a, at);
            } else {
                let k2 = if k < i {
                    k
                } else {
                    k - 1
                };
                let k3 = if k2 < at {
                    k2
                } else {
                    k2 + 1
                };
                assert(after[k3] == store.profiles[k]);
                find_is_some(after, a, k3);
            }
        },
        _ => {},
    }
}

proof fn volume_keeps_active(w: Work, id: u32, volume: Gain)
    requires
        state::one_active(w.state),
    ensures
        state::one_active(state::volume_changed(w, id, volume).state),
{
}

proof fn mute_keeps_active(w: Work, id: u32)
    requires
        state::one_active(w.state),
    ensures
        state::one_active(state::mute_toggled(w, id).state),
{
}

proof fn group_volume_keeps_active(
    w: Work,
    key: Seq<char>,
    cubic: Gain,
    levels: Seq<(u32, Gain)>,
)
    requires
        state::one_active(w.state),
    ensures
        state::one_active(state::group_volume_changed(w, key, cubic, levels).state),
{
    let ids = state::members(w.state.streams, key);
    let n = ids.len() as int;
    let master = state::master_level(levels, ids, n);
    volumes_keep_rest(w, levels, ids, master, gain::limited(cubic), n);
}

proof fn group_mute_keeps_active(w: Work, key: Seq<char>)
    requires
        state::one_active(w.state),
    ensures
        state::one_active(state::group_mute_changed(w, key).state),
{
    let ids = state::members(w.state.streams, key);
    mutes_keep_rest(w, ids, !state::all_muted(w.state.streams, ids), ids.len() as int);
}

proof fn group_pin_keeps_active(w: Work, key: Seq<char>, sink_id: u32)
    requires
        state::one_active(w.state),
    ensures
        state::one_active(state::group_pinned(w, key, sink_id).state),
{
    let ids = state::members(w.state.streams, key);
    let target = state::sink_name(w.state.streams, sink_id);
    targets_keep_rest(w, ids, target, ids.len() as int);
}

proof fn group_unpin_keeps_active(w: Work, key: Seq<char>)
    requires
        state::one_active(w.state),
    ensures
        state::one_active(state::group_unpinned(w, key).state),
{
    let ids = state::members(w.state.streams, key);
    targets_keep_rest(w, ids, None, ids.len() as int);
}

proof fn default_keeps_active(w: Work, id: u32, kind: StreamKind)
    requires
        state::one_active(w.state),
    ensures
        state::one_active(state::default_made(w, id, kind).state),
{
}

proof fn outputs_keep_active(w: Work)
    requires
        state::one_active(w.state),
    ensures
        state::one_active(state::noted(state::outputs_toggled(w)).state),
{
    let ids = state::output_ids(w.state.streams, w.state.streams.len() as int);
    mutes_keep_rest(w, ids, !state::outputs_muted(w.state.streams), ids.len() as int);
}

proof fn pin_keeps_active(w: Work, app_id: u32, sink_id: u32)
    requires
        state::one_active(w.state),
    ensures
        state::one_active(state::stream_pinned(w, app_id, sink_id).state),
{
}

proof fn unpin_keeps_active(w: Work, app_id: u32)
    requires
        state::one_active(w.state),
    ensures
        state::one_active(state::noted(state::target_set(w, app_id, None)).state),
{
}

proof fn reset_keeps_active(w: Work)
    requires
        state::one_active(w.state),
    ensures
        state::one_active(state::pins_reset(w).state),
{
    let ids = state::pinned_ids(w.state.streams, w.state.streams.len() as int);
    targets_keep_rest(w, ids, None, ids.len() as int);
}

proof fn move_keeps_active(w: Work, name: Seq<char>, target: Seq<char>, before: bool)
    requires
        state::one_active(w.state),
    ensures
        state::one_active(state::profile_moved(w, name, target, before).state),
{
    reorder_keeps_active(w.state.profiles, name, target, before);
}

proof fn confirm_keeps_active(w: Work)
    requires
        state::one_active(w.state),
    ensures
        state::one_active(state::modal_confirmed(w).state),
{
    let closed = w.with(AppView { modal: None, ..w.state });
    match w.state.modal {
        Some(ModalState::CreateProfile { name, error }) => {
            create_keeps_active(closed, crate::text::trimmed(name));
        },
        Some(ModalState::RenameProfile { old_name, name, error }) => {
            if profile::find_name(w.state.profiles.profiles, old_name) is Some {
                rename_keeps_active(w.state.profiles, old_name, crate::text::trimmed(name));
            }
        },
        Some(ModalState::DeleteProfile { name }) => delete_keeps_active(closed, name),
        None => {},
    }
}

/// There is always a profile and one of them is always active: whatever the
/// message, a state with an active profile steps to one with an active profile.
#[verifier::rlimit(60)]
pub proof fn a_profile_stays_active(w: Work, message: Message)
    requires
        state::one_active(w.state),
    ensures
        state::one_active(state::step(w, message).state),
{
    match message {
        Message::Worker(event) => reports_never_dirty(w, event),
        Message::VolumeChanged(id, volume) => volume_keeps_active(w, id, volume),
        Message::MuteToggled(id) => mute_keeps_active(w, id),
        Message::GroupVolumeChanged { key, cubic, levels } => group_volume_keeps_active(
            w,
            key@,
            cubic,
            levels@,
        ),
        Message::GroupMuteToggled(key) => group_mute_keeps_active(w, key@),
        Message::GroupSetStreamTarget { key, sink_id } => group_pin_keeps_active(w, key@, sink_id),
        Message::GroupClearStreamTarget(key) => group_unpin_keeps_active(w, key@),
        Message::MakeDefault(id) => default_keeps_active(w, id, StreamKind::Sink),
        Message::MakeDefaultSource(id) => default_keeps_active(w, id, StreamKind::Source),
        Message::MuteAllToggled => outputs_keep_active(w),
        Message::SetStreamTarget { app_id, sink_id } => pin_keeps_active(w, app_id, sink_id),
        Message::ClearStreamTarget(app_id) => unpin_keeps_active(w, app_id),
        Message::ResetAllStreamTargets => reset_keeps_active(w),
        Message::ApplyProfile(name) => apply_keeps_active(w, name@),
        Message::DeleteProfile(name) => delete_keeps_active(w, name@),
        Message::ReorderProfile { name, target, before } => move_keeps_active(
            w,
            name@,
            target@,
            before,
        ),
        Message::ModalConfirm => confirm_keeps_active(w),
        Message::AutoSaveTick => autosave_keeps_active(w),
        _ => {},
    }
}

// --- Saving ----------------------------------------------------------------------------

/// A save tick leaves nothing uncommitted, so a second one does nothing more.
pub proof fn autosave_settles(w: Work)
    ensures
        !state::autosaved(w).state.dirty,
        !state::autosaved(w).state.geometry_dirty,
        state::autosaved(state::autosaved(w)) == state::autosaved(w),
        w.state.dirty || w.state.geometry_dirty ==> state::autosaved(w).saves.len() == w.saves.len()
            + 1,
{
}

/// A pure resize saves the geometry and leaves every profile as it was, so a
/// window resized before any stream connects cannot clobber saved presets.
pub proof fn resize_saves_no_presets(w: Work)
    requires
        !w.state.dirty,
    ensures
        state::autosaved(w).state.profiles == w.state.profiles,
{
}

// --- Remembered rows -----------------------------------------------------------------------

/// A row that is only remembered has no live node, so changing it sends no
/// command; what is set on it stays with the row.
pub proof fn remembered_rows_send_nothing(
    w: Work,
    id: u32,
    volume: Gain,
    mute: bool,
    target: Option<Seq<char>>,
)
    requires
        w.state.tombstoned.contains(id),
    ensures
        state::volume_set(w, id, volume).commands == w.commands,
        state::mute_set(w, id, mute).commands == w.commands,
        state::target_set(w, id, target).commands == w.commands,
        state::volume_set(w, id, volume).state.tombstoned == w.state.tombstoned,
        state::mute_set(w, id, mute).state.tombstoned == w.state.tombstoned,
        state::target_set(w, id, target).state.tombstoned == w.state.tombstoned,
{
}

/// An application's stream that goes away leaves its row, its settings and its
/// place in the strip behind; an event sound leaves nothing.
pub proof fn apps_are_remembered(st: AppView, id: u32)
    ensures
        ordered::lookup(st.streams, id) matches Some(s) && s.kind == StreamKind::Application
            && !s.ephemeral() ==> state::stream_left(st, id).streams == st.streams
            && state::stream_left(st, id).app_order == st.app_order && state::stream_left(
            st,
            id,
        ).tombstoned.contains(id),
        !(ordered::lookup(st.streams, id) matches Some(s) && s.kind == StreamKind::Application
            && !s.ephemeral()) ==> ordered::lookup(state::stream_left(st, id).streams, id) is None
            && !state::stream_left(st, id).tombstoned.contains(id) && !state::stream_left(
            st,
            id,
        ).app_order.contains_key(id),
{
    ordered::lookup_of_without(st.streams, id, id);
}

/// An event sound takes over no remembered row, even one of its own application.
pub proof fn event_sounds_evict_nothing(st: AppView, s: StreamView)
    requires
        s.ephemeral(),
    ensures
        state::taken_over(st, s) == Seq::<u32>::empty(),
{
}

/// Every row a fresh stream takes over was remembered, belongs to the same
/// application and is not the stream itself.
pub proof fn taken_over_rows_match(st: AppView, s: StreamView, n: int, i: int)
    requires
        s.identity() is Some,
        0 <= n <= st.streams.len(),
        0 <= i < state::stale_rows(st, s.id, s.identity().unwrap(), n).len(),
    ensures
        ({
            let id = state::stale_rows(st, s.id, s.identity().unwrap(), n)[i];
            &&& st.tombstoned.contains(id)
            &&& id != s.id
            &&& exists|k: int|
                0 <= k < n && (#[trigger] st.streams[k]).0 == id && st.streams[k].1.identity()
                    == s.identity()
        }),
    decreases n,
{
    let key = s.identity().unwrap();
    let rest = state::stale_rows(st, s.id, key, n - 1);
    if i < rest.len() {
        taken_over_rows_match(st, s, n - 1, i);
    } else {
        assert(st.streams[n - 1].0 == state::stale_rows(st, s.id, key, n)[i]);
    }
}

proof fn evicted_streams_gone(st: AppView, ids: Seq<u32>, n: int, k: int)
    requires
        0 <= k < n <= ids.len(),
    ensures
        ordered::lookup(state::evicted(st, ids, n).streams, ids[k]) is None,
        !state::evicted(st, ids, n).tombstoned.contains(ids[k]),
        !state::evicted(st, ids, n).app_order.contains_key(ids[k]),
    decreases n,
{
    let rest = state::evicted(st, ids, n - 1);
    ordered::lookup_of_without(rest.streams, ids[n - 1], ids[k]);
    if k < n - 1 {
        evicted_streams_gone(st, ids, n - 1, k);
    }
}

/// A stream that reclaims a remembered row takes that row's place in the strip
/// and the row is gone: one row, not two, and it does not jump.
pub proof fn reclaimed_rows_keep_their_place(w: Work, s: StreamView)
    requires
        s.kind == StreamKind::Application,
        state::taken_over(w.state, s).len() > 0,
        !w.state.app_order.contains_key(s.id),
        w.state.app_order.contains_key(state::taken_over(w.state, s)[0]),
        state::taken_over(w.state, s)[0] != s.id,
    ensures
        ({
            let gone = state::taken_over(w.state, s);
            let here = state::placed(
                state::evicted(w.state, gone, gone.len() as int),
                s,
                state::first_place(w.state.app_order, gone, gone.len() as int),
            );
            &&& here.app_order.contains_key(s.id)
            &&& here.app_order[s.id] == w.state.app_order[gone[0]]
            &&& here.app_seq == w.state.app_seq
            &&& !here.app_order.contains_key(gone[0])
            &&& !here.tombstoned.contains(gone[0])
        }),
{
    let gone = state::taken_over(w.state, s);
    let n = gone.len() as int;
    eviction_keeps_rest(w.state, gone, n);
    evicted_streams_gone(w.state, gone, n, 0);
    first_place_is_first(w.state.app_order, gone, n);
    eviction_adds_no_place(w.state, gone, n, s.id);
}

proof fn first_place_is_first(order: Map<u32, u64>, ids: Seq<u32>, n: int)
    requires
        1 <= n <= ids.len(),
        order.contains_key(ids[0]),
    ensures
        state::first_place(order, ids, n) == Some(order[ids[0]]),
    decreases n,
{
    if n > 1 {
        first_place_is_first(order, ids, n - 1);
    } else {
        assert(state::first_place(order, ids, 0) is None);
    }
}

proof fn eviction_adds_no_place(st: AppView, ids: Seq<u32>, n: int, id: u32)
    requires
        !st.app_order.contains_key(id),
    ensures
        !state::evicted(st, ids, n).app_order.contains_key(id),
    decreases n,
{
    if n > 0 {
        eviction_adds_no_place(st, ids, n - 1, id);
    }
}

// --- Waiting presets ---------------------------------------------------------------------------

/// A waiting preset is applied once: when its device or application arrives it
/// stops waiting.
pub proof fn presets_wait_once(w: Work, id: u32, name: Seq<char>)
    ensures
        ordered::lookup(state::sink_consumed(w, id, name).state.pending.sinks, name) is None,
        ordered::lookup(state::source_consumed(w, id, name).state.pending.sources, name) is None,
        ordered::lookup(state::app_consumed(w, id, name).state.pending.apps, name) is None,
        state::sink_consumed(w, id, name).state.pending.default_sink != Some(name),
        state::source_consumed(w, id, name).state.pending.default_source != Some(name),
{
    ordered::lookup_of_without(w.state.pending.sinks, name, name);
    ordered::lookup_of_without(w.state.pending.sources, name, name);
    ordered::lookup_of_without(w.state.pending.apps, name, name);
}

// --- Gestures that undo themselves -------------------------------------------------------------

/// Toggling a section twice shows what was shown, and no other section moves in
/// between.
pub proof fn section_toggles_undo(w: Work, section: Section, other: Section)
    ensures
        ({
            let once = state::step(w, Message::ToggleSection(section));
            let twice = state::step(once, Message::ToggleSection(section));
            &&& twice.state.section_filter == w.state.section_filter
            &&& other != section ==> once.state.section_filter.showing(other)
                == w.state.section_filter.showing(other)
        }),
{
    crate::domain::section_toggle_undoes_itself(w.state.section_filter, section, other);
}

/// The palette always opens and closes empty, with the first row highlighted.
pub proof fn palette_toggles_empty(w: Work)
    requires
        w.state.modal is None || w.state.palette_open,
    ensures
        ({
            let once = state::step(w, Message::TogglePalette).state;
            &&& once.palette_open == !w.state.palette_open
            &&& once.palette_query == Seq::<char>::empty()
            &&& once.palette_selected == 0
        }),
{
}

/// The palette never opens over a modal.
pub proof fn palette_waits_for_modal(w: Work)
    requires
        w.state.modal is Some,
        !w.state.palette_open,
    ensures
        state::step(w, Message::TogglePalette) == w,
{
}

/// Moving the highlight stays within the list and moving it back returns to
/// where it was.
pub proof fn highlight_wraps(selected: usize, rows: usize)
    requires
        selected < command_palette::listed(rows as int),
    ensures
        state::row_above(selected, rows) < command_palette::listed(rows as int),
        state::row_below(selected, rows) < command_palette::listed(rows as int),
        state::row_above(state::row_below(selected, rows), rows) == selected,
        state::row_below(state::row_above(selected, rows), rows) == selected,
{
}

/// Expanding a multi-member group and collapsing it again restores the set of
/// expanded groups.
pub proof fn expansion_undoes_itself(st: AppView, key: Seq<char>)
    requires
        state::members(st.streams, key).len() > 1,
    ensures
        state::expansion_toggled(st, key).expanded_groups.contains(key)
            == !st.expanded_groups.contains(key),
        state::expansion_toggled(state::expansion_toggled(st, key), key).expanded_groups
            == st.expanded_groups,
{
    let once = state::expansion_toggled(st, key);
    let twice = state::expansion_toggled(once, key);
    assert(once.streams == st.streams);
    assert(twice.expanded_groups =~= st.expanded_groups);
}

/// A group of one never expands.
pub proof fn single_groups_stay_collapsed(st: AppView, key: Seq<char>)
    requires
        state::members(st.streams, key).len() <= 1,
    ensures
        !state::expansion_toggled(st, key).expanded_groups.contains(key),
{
}

// --- Muting every output -----------------------------------------------------------------------

/// What is muted among the streams after the listed ones' mutes are set.
proof fn mutes_reach_listed(w: Work, ids: Seq<u32>, mute: bool, n: int, id: u32)
    requires
        state::streams_wf(w.state.streams),
        0 <= n <= ids.len(),
    ensures
        state::streams_wf(state::mutes_set(w, ids, mute, n).state.streams),
        ({
            let before = ordered::lookup(w.state.streams, id);
            let after = ordered::lookup(state::mutes_set(w, ids, mute, n).state.streams, id);
            match before {
                Some(s) => after == Some(
                    if exists|k: int| 0 <= k < n && ids[k] == id {
                        StreamView { muted: mute, ..s }
                    } else {
                        s
                    },
                ),
                None => after is None,
            }
        }),
    decreases n,
{
    if n > 0 {
        mutes_reach_listed(w, ids, mute, n - 1, id);
        let rest = state::mutes_set(w, ids, mute, n - 1);
        let last = ids[n - 1];
        mutes_reach_listed(w, ids, mute, n - 1, last);
        if let Some(s) = ordered::lookup(rest.state.streams, last) {
            state::stream_id(rest.state.streams, last);
            state::put_stream_wf(rest.state.streams, StreamView { muted: mute, ..s });
            ordered::lookup_of_put::<u32, StreamView>(
                rest.state.streams,
                last,
                StreamView { muted: mute, ..s },
                id,
            );
        }
        if last == id {
            assert(ids[n - 1] == id);
        }
        if exists|k: int| 0 <= k < n && ids[k] == id {
            let k = choose|k: int| 0 <= k < n && ids[k] == id;
            if last != id {
                assert(0 <= k < n - 1 && ids[k] == id);
            }
        }
    }
}

proof fn outputs_are_listed(streams: Seq<(u32, StreamView)>, n: int, i: int)
    requires
        0 <= i < n <= streams.len(),
        streams[i].1.kind == StreamKind::Sink,
    ensures
        exists|k: int|
            0 <= k < state::output_ids(streams, n).len() && state::output_ids(streams, n)[k]
                == streams[i].0,
    decreases n,
{
    let all = state::output_ids(streams, n);
    if i == n - 1 {
        assert(all[all.len() - 1] == streams[i].0);
    } else {
        outputs_are_listed(streams, n - 1, i);
        let rest = state::output_ids(streams, n - 1);
        let k = choose|k: int| 0 <= k < rest.len() && rest[k] == streams[i].0;
        assert(all[k] == streams[i].0);
    }
}

proof fn listed_are_outputs(streams: Seq<(u32, StreamView)>, n: int, k: int)
    requires
        0 <= n <= streams.len(),
        0 <= k < state::output_ids(streams, n).len(),
    ensures
        exists|i: int|
            0 <= i < n && (#[trigger] streams[i]).0 == state::output_ids(streams, n)[k]
                && streams[i].1.kind == StreamKind::Sink,
    decreases n,
{
    let rest = state::output_ids(streams, n - 1);
    if k < rest.len() {
        listed_are_outputs(streams, n - 1, k);
    } else {
        assert(streams[n - 1].0 == state::output_ids(streams, n)[k]);
    }
}

/// The global mute sets every output to one and the same state, the opposite of
/// how the toggle read, and touches nothing but outputs.
pub proof fn global_mute_reaches_every_output(w: Work, i: int)
    requires
        state::streams_wf(w.state.streams),
        0 <= i < w.state.streams.len(),
    ensures
        ({
            let (id, s) = w.state.streams[i];
            let mute = !state::outputs_muted(w.state.streams);
            ordered::lookup(state::outputs_toggled(w).state.streams, id) == Some(
                if s.kind == StreamKind::Sink {
                    StreamView { muted: mute, ..s }
                } else {
                    s
                },
            )
        }),
{
    let streams = w.state.streams;
    let n = streams.len() as int;
    let ids = state::output_ids(streams, n);
    let mute = !state::outputs_muted(streams);
    let (id, s) = streams[i];
    mutes_reach_listed(w, ids, mute, ids.len() as int, id);
    ordered::lookup_at::<u32, StreamView>(streams, i);
    if s.kind == StreamKind::Sink {
        outputs_are_listed(streams, n, i);
    } else if exists|k: int| 0 <= k < ids.len() && ids[k] == id {
        let k = choose|k: int| 0 <= k < ids.len() && ids[k] == id;
        listed_are_outputs(streams, n, k);
        let j = choose|j: int|
            0 <= j < n && (#[trigger] streams[j]).0 == ids[k] && streams[j].1.kind
                == StreamKind::Sink;
        ordered::lookup_at::<u32, StreamView>(streams, j);
        assert(false);
    }
}

/// A group moved to where its loudest member stands keeps every member where it
/// is.
pub proof fn a_group_moved_nowhere_keeps_its_balance(level: Gain, master: Gain)
    requires
        gain::whole(level),
        gain::whole(master),
        level.bits <= MAX_VOLUME,
        master.bits > state::SILENCE,
    ensures
        state::member_gain(level, master, master) == gain::cubed(level),
{
    gain::unity_is_neutral(level);
    gain::unity_is_neutral(master);
}

/// No member of a group that is moved gets louder than the loudest gain there is
/// or below silence, and the members of a silent one all get as loud.
pub proof fn a_group_moves_within_bounds(level: Gain, master: Gain, target: Gain)
    ensures
        exists|cubic: Gain|
            !gain::above(cubic, MAX_VOLUME) && !gain::below_nothing(cubic) && state::member_gain(
                level,
                master,
                gain::limited(target),
            ) == #[trigger] gain::cubed(cubic),
        !gain::above(master, state::SILENCE) ==> state::member_gain(level, master, target) == gain::cubed(
            target,
        ),
{
    let t = gain::limited(target);
    let moved = gain::limited(gain::product(level, gain::quotient(t, master)));
    let cubic = if gain::above(master, state::SILENCE) {
        moved
    } else {
        t
    };
    assert(!gain::above(cubic, MAX_VOLUME) && !gain::below_nothing(cubic));
    assert(state::member_gain(level, master, t) == gain::cubed(cubic));
}

/// Pinning a stream to the sink it is pinned to changes nothing, asks the server
/// for nothing and leaves nothing to save.
pub proof fn pinning_again_is_no_change(w: Work, app_id: u32, sink_id: u32)
    requires
        w.state.wf(),
        ordered::lookup(w.state.streams, app_id) is Some,
    ensures
        ({
            let once = state::stream_pinned(w, app_id, sink_id);
            state::stream_pinned(once, app_id, sink_id) == once
        }),
{
    if let Some(s) = ordered::lookup(w.state.streams, app_id) {
        let name = state::sink_name(w.state.streams, sink_id);
        let pinned = StreamView { target_sink_name: name, ..s };
        ordered::lookup_of_put::<u32, StreamView>(w.state.streams, app_id, pinned, app_id);
        ordered::lookup_of_put::<u32, StreamView>(w.state.streams, app_id, pinned, sink_id);
    }
}

// --- Dialogs, the palette and the window ----------------------------------------------------

/// Whether nothing happened but to what the window itself shows: no stream, no profile, no
/// section and no word to the sound server or the disk.
pub open spec fn only_the_window_changed(before: Work, after: Work) -> bool {
    &&& after.commands == before.commands
    &&& after.saves == before.saves
    &&& after.state.streams == before.state.streams
    &&& after.state.profiles == before.state.profiles
    &&& after.state.section_filter == before.state.section_filter
    &&& after.state.dirty == before.state.dirty
}

/// A dialog is about the profile it was opened for, and a rename starts from that name; one
/// for a new profile starts blank. Dismissed, it is gone.
pub proof fn a_dialog_is_about_the_profile_named(w: Work, name: String, i: int)
    requires
        0 <= i < w.state.profiles.profiles.len(),
        w.state.profiles.profiles[i].name == name@,
    ensures
        state::step(w, Message::OpenRenameProfileModal(name)).state.modal == Some(
            ModalState::RenameProfile { old_name: name@, name: name@, error: None },
        ),
        state::step(w, Message::OpenDeleteProfileModal(name)).state.modal == Some(
            ModalState::DeleteProfile { name: name@ },
        ),
        state::step(w, Message::OpenCreateProfileModal).state.modal == Some(
            ModalState::CreateProfile { name: Seq::empty(), error: None },
        ),
        state::step(w, Message::ModalDismiss).state.modal is None,
        only_the_window_changed(w, state::step(w, Message::OpenRenameProfileModal(name))),
        only_the_window_changed(w, state::step(w, Message::OpenDeleteProfileModal(name))),
        only_the_window_changed(w, state::step(w, Message::OpenCreateProfileModal)),
        only_the_window_changed(w, state::step(w, Message::ModalDismiss)),
{
    let all = w.state.profiles.profiles;
    profile::position_of_holds(all, name@, all.len() as int);
}

/// What is typed into a dialog is the name it holds, and whatever it complained of is
/// forgotten; which profile it is about stays.
pub proof fn typing_into_a_dialog_is_its_name(w: Work, typed: String)
    ensures
        ({
            let after = state::step(w, Message::ModalNameChanged(typed));
            &&& only_the_window_changed(w, after)
            &&& w.state.modal matches Some(ModalState::CreateProfile { name, error })
                ==> after.state.modal == Some(
                ModalState::CreateProfile { name: typed@, error: None },
            )
            &&& w.state.modal matches Some(ModalState::RenameProfile { old_name, name, error })
                ==> after.state.modal == Some(
                ModalState::RenameProfile { old_name, name: typed@, error: None },
            )
            &&& w.state.modal matches Some(ModalState::DeleteProfile { name })
                ==> after.state.modal == w.state.modal
            &&& w.state.modal is None ==> after.state.modal is None
        }),
{
}

/// In the palette the highlight goes down and up by one, round at the ends of what is
/// listed, and back to the first row for another query; the list is shown from where it
/// was scrolled to.
pub proof fn the_palette_moves_by_a_row(w: Work, rows: usize, query: String, row: usize)
    requires
        w.state.palette_selected < command_palette::listed(rows as int),
    ensures
        ({
            let at = w.state.palette_selected;
            let n = command_palette::listed(rows as int);
            let down = state::step(w, Message::PaletteSelectNext { rows });
            let up = state::step(w, Message::PaletteSelectPrev { rows });
            let typed = state::step(w, Message::PaletteQueryChanged(query));
            let scrolled = state::step(w, Message::PaletteScrollTo(row));
            &&& only_the_window_changed(w, down)
            &&& only_the_window_changed(w, up)
            &&& only_the_window_changed(w, typed)
            &&& only_the_window_changed(w, scrolled)
            &&& at + 1 < n ==> down.state.palette_selected == at + 1
            &&& at + 1 == n ==> down.state.palette_selected == 0
            &&& at > 0 ==> up.state.palette_selected == at - 1
            &&& at == 0 ==> up.state.palette_selected == n - 1
            &&& typed.state.palette_query == query@
            &&& typed.state.palette_selected == 0
            &&& scrolled.state.palette_scroll == row
            &&& scrolled.state.palette_selected == at
        }),
{
}

/// A window's size and whether it is maximised are kept, and the next tick saves them; a
/// size that is no news saves nothing.
pub proof fn a_resize_is_saved(w: Work, width: u32, height: u32, maximized: bool)
    requires
        !w.state.dirty,
        !w.state.geometry_dirty,
    ensures
        ({
            let now = state::step(w, Message::GeometryChanged { width, height, maximized });
            let g = now.state.geometry;
            let saved = state::step(now, Message::AutoSaveTick);
            let was = w.state.geometry;
            &&& only_the_window_changed(w, now)
            &&& g.width == width && g.height == height && g.maximized == maximized
            &&& was != g ==> saved.saves.len() == w.saves.len() + 1 && saved.saves.last().window
                == g
            &&& was == g ==> saved.saves == w.saves
        }),
{
}

/// What the sound server complains of is what the status line says, and nothing else
/// changes.
pub proof fn a_complaint_is_shown(w: Work, complaint: String)
    ensures
        ({
            let after = state::step(w, Message::Worker(WorkerEvent::Error(complaint)));
            &&& only_the_window_changed(w, after)
            &&& after.state.status == Some(complaint@)
        }),
{
}

/// A row that stands for several streams opens and closes when asked, and no other does.
pub proof fn a_row_opens_and_closes_when_asked(w: Work, key: String, other: Seq<char>)
    requires
        state::members(w.state.streams, key@).len() > 1,
    ensures
        ({
            let after = state::step(w, Message::GroupToggleExpanded(key));
            &&& only_the_window_changed(w, after)
            &&& after.state.expanded_groups.contains(other) == if other == key@ {
                !w.state.expanded_groups.contains(other)
            } else {
                w.state.expanded_groups.contains(other)
            }
        }),
{
}

} // verus!
