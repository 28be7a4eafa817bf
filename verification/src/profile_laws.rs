//! What a profile keeps of the streams, and what applying it gives back.

use crate::domain::{StreamKind, StreamView};
use crate::ordered;
use crate::profile;
use crate::profile::{
    AppEntries, AppSettingsView, DeviceEntries, DeviceSettings, ProfileView,
};
use crate::server_laws;
use crate::server_laws::Asked;
use crate::state;
use crate::state::{AppView, CommandView, Message, ModalState, Work};
use crate::text;
use vstd::prelude::*;

verus! {

// --- Finding who a preset is for ------------------------------------------------------------

/// Whether place `i` holds the first device of a kind with a name.
pub open spec fn first_device(
    streams: Seq<(u32, StreamView)>,
    kind: StreamKind,
    name: Seq<char>,
    i: int,
) -> bool {
    &&& 0 <= i < streams.len()
    &&& streams[i].1.kind == kind
    &&& streams[i].1.node_name == Some(name)
    &&& forall|k: int|
        0 <= k < i ==> !((#[trigger] streams[k]).1.kind == kind && streams[k].1.node_name == Some(
            name,
        ))
}

/// Whether place `i` holds the first stream of an application.
pub open spec fn first_of_app(streams: Seq<(u32, StreamView)>, key: Seq<char>, i: int) -> bool {
    &&& 0 <= i < streams.len()
    &&& streams[i].1.identity() == Some(key)
    &&& forall|k: int| 0 <= k < i ==> (#[trigger] streams[k]).1.identity() != Some(key)
}

proof fn device_is_found(
    streams: Seq<(u32, StreamView)>,
    kind: StreamKind,
    name: Seq<char>,
    n: int,
)
    requires
        0 <= n <= streams.len(),
    ensures
        match state::device_named(streams, kind, name, n) {
            Some(id) => exists|i: int|
                i < n && #[trigger] first_device(streams, kind, name, i) && streams[i].0 == id,
            None => forall|k: int|
                0 <= k < n ==> !((#[trigger] streams[k]).1.kind == kind && streams[k].1.node_name
                    == Some(name)),
        },
    decreases n,
{
    if n > 0 {
        device_is_found(streams, kind, name, n - 1);
        if state::device_named(streams, kind, name, n - 1) is None {
            if streams[n - 1].1.kind == kind && streams[n - 1].1.node_name == Some(name) {
                assert(first_device(streams, kind, name, n - 1));
            }
        } else {
            let i = choose|i: int|
                i < n - 1 && #[trigger] first_device(streams, kind, name, i);
            assert(first_device(streams, kind, name, i) && i < n);
        }
    }
}

proof fn app_is_found(streams: Seq<(u32, StreamView)>, key: Seq<char>, n: int)
    requires
        0 <= n <= streams.len(),
    ensures
        match state::app_named(streams, key, n) {
            Some(id) => exists|i: int|
                i < n && #[trigger] first_of_app(streams, key, i) && streams[i].0 == id,
            None => forall|k: int| 0 <= k < n ==> (#[trigger] streams[k]).1.identity() != Some(key),
        },
    decreases n,
{
    if n > 0 {
        app_is_found(streams, key, n - 1);
        if state::app_named(streams, key, n - 1) is None {
            if streams[n - 1].1.identity() == Some(key) {
                assert(first_of_app(streams, key, n - 1));
            }
        } else {
            let i = choose|i: int| i < n - 1 && #[trigger] first_of_app(streams, key, i);
            assert(first_of_app(streams, key, i) && i < n);
        }
    }
}

/// Setting streams does not change who is found under a name.
proof fn device_is_found_alike(
    a: Seq<(u32, StreamView)>,
    b: Seq<(u32, StreamView)>,
    kind: StreamKind,
    name: Seq<char>,
    n: int,
)
    requires
        server_laws::same_ones(a, b),
        0 <= n <= a.len(),
    ensures
        state::device_named(a, kind, name, n) == state::device_named(b, kind, name, n),
    decreases n,
{
    if n > 0 {
        device_is_found_alike(a, b, kind, name, n - 1);
        assert(a[n - 1].0 == b[n - 1].0);
    }
}

proof fn app_is_found_alike(
    a: Seq<(u32, StreamView)>,
    b: Seq<(u32, StreamView)>,
    key: Seq<char>,
    n: int,
)
    requires
        server_laws::same_ones(a, b),
        0 <= n <= a.len(),
    ensures
        state::app_named(a, key, n) == state::app_named(b, key, n),
    decreases n,
{
    if n > 0 {
        app_is_found_alike(a, b, key, n - 1);
        assert(a[n - 1].0 == b[n - 1].0);
    }
}

pub open spec fn device_id(w: Work, kind: StreamKind, name: Seq<char>) -> Option<u32> {
    state::device_named(w.state.streams, kind, name, w.state.streams.len() as int)
}

pub open spec fn app_id(w: Work, key: Seq<char>) -> Option<u32> {
    state::app_named(w.state.streams, key, w.state.streams.len() as int)
}

proof fn found_by_one_name(w: Work, kind: StreamKind, a: Seq<char>, b: Seq<char>)
    requires
        state::streams_wf(w.state.streams),
        device_id(w, kind, a) is Some,
        device_id(w, kind, a) == device_id(w, kind, b),
    ensures
        a == b,
{
    let streams = w.state.streams;
    device_is_found(streams, kind, a, streams.len() as int);
    device_is_found(streams, kind, b, streams.len() as int);
    let i = choose|i: int|
        i < streams.len() && #[trigger] first_device(streams, kind, a, i) && Some(streams[i].0)
            == device_id(w, kind, a);
    let j = choose|j: int|
        j < streams.len() && #[trigger] first_device(streams, kind, b, j) && Some(streams[j].0)
            == device_id(w, kind, b);
    ordered::lookup_at::<u32, StreamView>(streams, i);
    ordered::lookup_at::<u32, StreamView>(streams, j);
}

proof fn found_by_one_key(w: Work, a: Seq<char>, b: Seq<char>)
    requires
        state::streams_wf(w.state.streams),
        app_id(w, a) is Some,
        app_id(w, a) == app_id(w, b),
    ensures
        a == b,
{
    let streams = w.state.streams;
    app_is_found(streams, a, streams.len() as int);
    app_is_found(streams, b, streams.len() as int);
    let i = choose|i: int|
        i < streams.len() && #[trigger] first_of_app(streams, a, i) && Some(streams[i].0)
            == app_id(w, a);
    let j = choose|j: int|
        j < streams.len() && #[trigger] first_of_app(streams, b, j) && Some(streams[j].0)
            == app_id(w, b);
    ordered::lookup_at::<u32, StreamView>(streams, i);
    ordered::lookup_at::<u32, StreamView>(streams, j);
}

// --- What presets do ---------------------------------------------------------------------------

/// A stream that none of the device presets is for stays as it is.
proof fn devices_leave(w: Work, kind: StreamKind, entries: DeviceEntries, n: int, id: u32)
    requires
        state::streams_wf(w.state.streams),
        0 <= n <= entries.len(),
        forall|k: int|
            0 <= k < n ==> device_id(w, kind, (#[trigger] entries[k]).0) != Some(id),
    ensures
        server_laws::only_streams_set(state::devices_applied(w, kind, entries, n), w),
        ordered::lookup(state::devices_applied(w, kind, entries, n).state.streams, id)
            == ordered::lookup(w.state.streams, id),
        server_laws::asked(state::devices_applied(w, kind, entries, n).commands, id)
            == server_laws::asked(w.commands, id),
    decreases n,
{
    if n > 0 {
        devices_leave(w, kind, entries, n - 1, id);
        let rest = state::devices_applied(w, kind, entries, n - 1);
        let name = entries[n - 1].0;
        device_is_found_alike(
            rest.state.streams,
            w.state.streams,
            kind,
            name,
            w.state.streams.len() as int,
        );
        if let Some(at) = device_id(rest, kind, name) {
            server_laws::device_is_set(rest, at, entries[n - 1].1, id);
            server_laws::same_ones_on(state::devices_applied(w, kind, entries, n), rest, w);
        }
    }
}

/// The stream a device preset is for ends up with it, and the server is asked for it.
proof fn devices_reach(w: Work, kind: StreamKind, entries: DeviceEntries, n: int, k: int, id: u32)
    requires
        state::streams_wf(w.state.streams),
        ordered::ascending::<String, DeviceSettings>(entries),
        0 <= k < n <= entries.len(),
        device_id(w, kind, entries[k].0) == Some(id),
        ordered::lookup(w.state.streams, id) is Some,
    ensures
        server_laws::only_streams_set(state::devices_applied(w, kind, entries, n), w),
        ordered::lookup(state::devices_applied(w, kind, entries, n).state.streams, id) == Some(
            StreamView {
                volume: entries[k].1.volume,
                muted: entries[k].1.muted,
                ..ordered::lookup(w.state.streams, id)->Some_0
            },
        ),
        server_laws::asked(state::devices_applied(w, kind, entries, n).commands, id)
            == if server_laws::reaches(w, id, id) {
            Asked {
                volume: Some(entries[k].1.volume),
                mute: Some(entries[k].1.muted),
                ..server_laws::asked(w.commands, id)
            }
        } else {
            server_laws::asked(w.commands, id)
        },
    decreases n,
{
    let rest = state::devices_applied(w, kind, entries, n - 1);
    let name = entries[n - 1].0;
    if k < n - 1 {
        devices_reach(w, kind, entries, n - 1, k, id);
        device_is_found_alike(
            rest.state.streams,
            w.state.streams,
            kind,
            name,
            w.state.streams.len() as int,
        );
        assert(<String as ordered::OrderedKey>::precedes(entries[k].0, entries[n - 1].0));
        <String as ordered::OrderedKey>::precedes_irreflexive(name);
        if let Some(at) = device_id(rest, kind, name) {
            if at == id {
                found_by_one_name(w, kind, entries[k].0, name);
            }
            server_laws::device_is_set(rest, at, entries[n - 1].1, id);
            server_laws::same_ones_on(state::devices_applied(w, kind, entries, n), rest, w);
        }
    } else {
        assert forall|j: int| 0 <= j < n - 1 implies device_id(
            w,
            kind,
            (#[trigger] entries[j]).0,
        ) != Some(id) by {
            if device_id(w, kind, entries[j].0) == Some(id) {
                found_by_one_name(w, kind, entries[k].0, entries[j].0);
                assert(<String as ordered::OrderedKey>::precedes(entries[j].0, entries[k].0));
                <String as ordered::OrderedKey>::precedes_irreflexive(name);
            }
        }
        devices_leave(w, kind, entries, n - 1, id);
        device_is_found_alike(
            rest.state.streams,
            w.state.streams,
            kind,
            name,
            w.state.streams.len() as int,
        );
        server_laws::device_is_set(rest, id, entries[n - 1].1, id);
        server_laws::same_ones_on(state::devices_applied(w, kind, entries, n), rest, w);
    }
}

proof fn apps_leave(w: Work, entries: AppEntries, n: int, id: u32)
    requires
        state::streams_wf(w.state.streams),
        0 <= n <= entries.len(),
        forall|k: int| 0 <= k < n ==> app_id(w, (#[trigger] entries[k]).0) != Some(id),
    ensures
        server_laws::only_streams_set(state::apps_applied(w, entries, n), w),
        ordered::lookup(state::apps_applied(w, entries, n).state.streams, id) == ordered::lookup(
            w.state.streams,
            id,
        ),
        server_laws::asked(state::apps_applied(w, entries, n).commands, id) == server_laws::asked(
            w.commands,
            id,
        ),
    decreases n,
{
    if n > 0 {
        apps_leave(w, entries, n - 1, id);
        let rest = state::apps_applied(w, entries, n - 1);
        let key = entries[n - 1].0;
        app_is_found_alike(
            rest.state.streams,
            w.state.streams,
            key,
            w.state.streams.len() as int,
        );
        if let Some(at) = app_id(rest, key) {
            server_laws::app_is_set(rest, at, entries[n - 1].1, id);
            server_laws::same_ones_on(state::apps_applied(w, entries, n), rest, w);
        }
    }
}

proof fn apps_reach(w: Work, entries: AppEntries, n: int, k: int, id: u32)
    requires
        state::streams_wf(w.state.streams),
        ordered::ascending::<String, AppSettingsView>(entries),
        0 <= k < n <= entries.len(),
        app_id(w, entries[k].0) == Some(id),
        ordered::lookup(w.state.streams, id) is Some,
    ensures
        server_laws::only_streams_set(state::apps_applied(w, entries, n), w),
        ordered::lookup(state::apps_applied(w, entries, n).state.streams, id) == Some(
            StreamView {
                volume: entries[k].1.volume,
                muted: entries[k].1.muted,
                target_sink_name: entries[k].1.target_sink_name,
                ..ordered::lookup(w.state.streams, id)->Some_0
            },
        ),
        server_laws::asked(state::apps_applied(w, entries, n).commands, id)
            == if server_laws::reaches(w, id, id) {
            Asked {
                volume: Some(entries[k].1.volume),
                mute: Some(entries[k].1.muted),
                route: Some(entries[k].1.target_sink_name),
                ..server_laws::asked(w.commands, id)
            }
        } else {
            server_laws::asked(w.commands, id)
        },
    decreases n,
{
    let rest = state::apps_applied(w, entries, n - 1);
    let key = entries[n - 1].0;
    <String as ordered::OrderedKey>::precedes_irreflexive(key);
    if k < n - 1 {
        apps_reach(w, entries, n - 1, k, id);
        app_is_found_alike(
            rest.state.streams,
            w.state.streams,
            key,
            w.state.streams.len() as int,
        );
        assert(<String as ordered::OrderedKey>::precedes(entries[k].0, entries[n - 1].0));
        if let Some(at) = app_id(rest, key) {
            if at == id {
                found_by_one_key(w, entries[k].0, key);
            }
            server_laws::app_is_set(rest, at, entries[n - 1].1, id);
            server_laws::same_ones_on(state::apps_applied(w, entries, n), rest, w);
        }
    } else {
        assert forall|j: int| 0 <= j < n - 1 implies app_id(w, (#[trigger] entries[j]).0) != Some(
            id,
        ) by {
            if app_id(w, entries[j].0) == Some(id) {
                found_by_one_key(w, entries[k].0, entries[j].0);
                assert(<String as ordered::OrderedKey>::precedes(entries[j].0, entries[k].0));
            }
        }
        apps_leave(w, entries, n - 1, id);
        app_is_found_alike(
            rest.state.streams,
            w.state.streams,
            key,
            w.state.streams.len() as int,
        );
        server_laws::app_is_set(rest, id, entries[n - 1].1, id);
        server_laws::same_ones_on(state::apps_applied(w, entries, n), rest, w);
    }
}

// --- Applying a profile ------------------------------------------------------------------------

/// Whether the profile of a name stands in place `at`.
pub open spec fn profile_stands(st: AppView, name: Seq<char>, at: int) -> bool {
    &&& 0 <= at < st.profiles.profiles.len()
    &&& st.profiles.profiles[at].name == name
    &&& forall|k: int| 0 <= k < at ==> (#[trigger] st.profiles.profiles[k]).name != name
}

proof fn stands_is_found(st: AppView, name: Seq<char>, at: int)
    requires
        profile_stands(st, name, at),
    ensures
        profile::find_name(st.profiles.profiles, name) == Some(at),
{
    profile::position_of_holds(
        st.profiles.profiles,
        name,
        st.profiles.profiles.len() as int,
    );
}

/// Saving the profile that was active leaves the one that is to follow it alone.
proof fn flushing_keeps_the_next(w: Work, name: Seq<char>, at: int)
    requires
        w.state.wf(),
        profile_stands(w.state, name, at),
    ensures
        ({
            let w0 = state::flushed(w, name);
            &&& profile_stands(w0.state, name, at)
            &&& w0.state.profiles.profiles[at] == w.state.profiles.profiles[at]
            &&& w0.state.streams == w.state.streams
            &&& w0.state.tombstoned == w.state.tombstoned
            &&& w0.commands == w.commands
            &&& w0.connected == w.connected
        }),
{
    if let Some(active) = w.state.profiles.active {
        let all = w.state.profiles.profiles;
        profile::position_of_holds(all, active, all.len() as int);
        if w.state.dirty && active != name {
            let next = state::flushed(w, name).state.profiles.profiles;
            assert forall|k: int| 0 <= k < at implies (#[trigger] next[k]).name != name by {
                assert(all[k].name != name);
            }
        }
    }
}

/// Everything a profile's presets go through.
pub open spec fn stages(w: Work, p: ProfileView) -> (Work, Work, Work, Work) {
    let w1 = state::devices_applied(w, StreamKind::Sink, p.sinks, p.sinks.len() as int);
    let w2 = state::devices_applied(w1, StreamKind::Source, p.sources, p.sources.len() as int);
    let w3 = state::apps_applied(w2, p.apps, p.apps.len() as int);
    let w4 = state::default_applied(w3, StreamKind::Sink, p.default_sink);
    (w1, w2, w3, w4)
}

proof fn default_changes_nothing(w: Work, kind: StreamKind, name: Option<Seq<char>>, id: u32)
    ensures
        ({
            let after = state::default_applied(w, kind, name);
            let a = server_laws::asked(w.commands, id);
            let b = server_laws::asked(after.commands, id);
            &&& after.state == w.state
            &&& after.connected == w.connected
            &&& a.volume == b.volume && a.mute == b.mute && a.route == b.route
            &&& b.output == match name {
                Some(n) if w.connected && kind == StreamKind::Sink && device_id(w, kind, n)
                    is Some => Some(n),
                _ => a.output,
            }
            &&& b.input == match name {
                Some(n) if w.connected && kind != StreamKind::Sink && device_id(w, kind, n)
                    is Some => Some(n),
                _ => a.input,
            }
        }),
{
    if let Some(node_name) = name {
        server_laws::sent_is_heard(w, CommandView::SetDefaultSink { node_name }, id);
        server_laws::sent_is_heard(w, CommandView::SetDefaultSource { node_name }, id);
    }
}

/// A device of a kind is found under a name of no other kind's.
proof fn found_is_of_its_kind(w: Work, kind: StreamKind, name: Seq<char>, id: u32)
    requires
        state::streams_wf(w.state.streams),
        device_id(w, kind, name) == Some(id),
    ensures
        ordered::lookup(w.state.streams, id) matches Some(s) && s.kind == kind && s.node_name
            == Some(name),
{
    let streams = w.state.streams;
    device_is_found(streams, kind, name, streams.len() as int);
    let i = choose|i: int|
        i < streams.len() && #[trigger] first_device(streams, kind, name, i) && streams[i].0
            == id;
    ordered::lookup_at::<u32, StreamView>(streams, i);
}

proof fn found_is_of_its_app(w: Work, key: Seq<char>, id: u32)
    requires
        state::streams_wf(w.state.streams),
        app_id(w, key) == Some(id),
    ensures
        ordered::lookup(w.state.streams, id) matches Some(s) && s.kind == StreamKind::Application
            && s.identity() == Some(key),
{
    let streams = w.state.streams;
    app_is_found(streams, key, streams.len() as int);
    let i = choose|i: int|
        i < streams.len() && #[trigger] first_of_app(streams, key, i) && streams[i].0 == id;
    ordered::lookup_at::<u32, StreamView>(streams, i);
}

proof fn first_device_is_found(w: Work, kind: StreamKind, name: Seq<char>, i: int)
    requires
        first_device(w.state.streams, kind, name, i),
    ensures
        device_id(w, kind, name) == Some(w.state.streams[i].0),
{
    let streams = w.state.streams;
    device_is_found(streams, kind, name, streams.len() as int);
    if device_id(w, kind, name) is None {
        assert(streams[i].1.kind == kind);
    } else {
        let j = choose|j: int|
            j < streams.len() && #[trigger] first_device(streams, kind, name, j) && Some(
                streams[j].0,
            ) == device_id(w, kind, name);
        assert(streams[i].1.kind == kind && streams[j].1.kind == kind);
    }
}

proof fn first_of_app_is_found(w: Work, key: Seq<char>, i: int)
    requires
        first_of_app(w.state.streams, key, i),
    ensures
        app_id(w, key) == Some(w.state.streams[i].0),
{
    let streams = w.state.streams;
    app_is_found(streams, key, streams.len() as int);
    if app_id(w, key) is None {
        assert(streams[i].1.identity() == Some(key));
    } else {
        let j = choose|j: int|
            j < streams.len() && #[trigger] first_of_app(streams, key, j) && Some(streams[j].0)
                == app_id(w, key);
        assert(streams[i].1.identity() == Some(key) && streams[j].1.identity() == Some(key));
    }
}

/// Device presets leave streams of other kinds alone.
proof fn devices_leave_others(w: Work, kind: StreamKind, entries: DeviceEntries, id: u32)
    requires
        state::streams_wf(w.state.streams),
        ordered::lookup(w.state.streams, id) matches Some(s) && s.kind != kind,
    ensures
        ({
            let after = state::devices_applied(w, kind, entries, entries.len() as int);
            &&& server_laws::only_streams_set(after, w)
            &&& ordered::lookup(after.state.streams, id) == ordered::lookup(w.state.streams, id)
            &&& server_laws::asked(after.commands, id) == server_laws::asked(w.commands, id)
        }),
{
    assert forall|k: int| 0 <= k < entries.len() implies device_id(
        w,
        kind,
        (#[trigger] entries[k]).0,
    ) != Some(id) by {
        if device_id(w, kind, entries[k].0) == Some(id) {
            found_is_of_its_kind(w, kind, entries[k].0, id);
        }
    }
    devices_leave(w, kind, entries, entries.len() as int, id);
}

/// Application presets leave devices alone.
proof fn apps_leave_devices(w: Work, entries: AppEntries, id: u32)
    requires
        state::streams_wf(w.state.streams),
        ordered::lookup(w.state.streams, id) matches Some(s) && s.kind != StreamKind::Application,
    ensures
        ({
            let after = state::apps_applied(w, entries, entries.len() as int);
            &&& server_laws::only_streams_set(after, w)
            &&& ordered::lookup(after.state.streams, id) == ordered::lookup(w.state.streams, id)
            &&& server_laws::asked(after.commands, id) == server_laws::asked(w.commands, id)
        }),
{
    assert forall|k: int| 0 <= k < entries.len() implies app_id(w, (#[trigger] entries[k]).0)
        != Some(id) by {
        if app_id(w, entries[k].0) == Some(id) {
            found_is_of_its_app(w, entries[k].0, id);
        }
    }
    apps_leave(w, entries, entries.len() as int, id);
}

/// A profile applied gives an application what it keeps for it: the application's
/// first stream takes on the gain, the mute and the route of the preset, and on a
/// live one the server is asked for exactly these.
pub proof fn a_profile_gives_apps_what_it_keeps(w: Work, name: String, at: int, k: int, i: int)
    requires
        w.state.wf(),
        w.commands.len() == 0,
        profile_stands(w.state, name@, at),
        0 <= k < w.state.profiles.profiles[at].apps.len(),
        first_of_app(w.state.streams, w.state.profiles.profiles[at].apps[k].0, i),
    ensures
        ({
            let kept = w.state.profiles.profiles[at].apps[k].1;
            let (id, s) = w.state.streams[i];
            let after = state::step(w, Message::ApplyProfile(name));
            let a = server_laws::asked(after.commands, id);
            &&& ordered::lookup(after.state.streams, id) == Some(
                StreamView {
                    volume: kept.volume,
                    muted: kept.muted,
                    target_sink_name: kept.target_sink_name,
                    ..s
                },
            )
            &&& w.connected && !w.state.tombstoned.contains(id) ==> {
                &&& a.volume == Some(kept.volume)
                &&& a.mute == Some(kept.muted)
                &&& a.route == Some(kept.target_sink_name)
            }
        }),
{
    let p = w.state.profiles.profiles[at];
    let (id, s) = w.state.streams[i];
    let w0 = state::flushed(w, name@);
    flushing_keeps_the_next(w, name@, at);
    stands_is_found(w0.state, name@, at);
    let (w1, w2, w3, w4) = stages(w0, p);
    ordered::lookup_at::<u32, StreamView>(w.state.streams, i);
    devices_leave_others(w0, StreamKind::Sink, p.sinks, id);
    devices_leave_others(w1, StreamKind::Source, p.sources, id);
    server_laws::same_ones_on(w2, w1, w0);
    first_of_app_is_found(w0, p.apps[k].0, i);
    app_is_found_alike(
        w2.state.streams,
        w0.state.streams,
        p.apps[k].0,
        w0.state.streams.len() as int,
    );
    assert(p.wf());
    apps_reach(w2, p.apps, p.apps.len() as int, k, id);
    default_changes_nothing(w3, StreamKind::Sink, p.default_sink, id);
    default_changes_nothing(w4, StreamKind::Source, p.default_source, id);
}

/// The same of a device: an output takes on the gain and mute its name's preset
/// keeps, and keeps its route.
pub proof fn a_profile_gives_outputs_what_it_keeps(w: Work, name: String, at: int, k: int, i: int)
    requires
        w.state.wf(),
        w.commands.len() == 0,
        profile_stands(w.state, name@, at),
        0 <= k < w.state.profiles.profiles[at].sinks.len(),
        first_device(
            w.state.streams,
            StreamKind::Sink,
            w.state.profiles.profiles[at].sinks[k].0,
            i,
        ),
    ensures
        ({
            let kept = w.state.profiles.profiles[at].sinks[k].1;
            let (id, s) = w.state.streams[i];
            let after = state::step(w, Message::ApplyProfile(name));
            let a = server_laws::asked(after.commands, id);
            &&& ordered::lookup(after.state.streams, id) == Some(
                StreamView { volume: kept.volume, muted: kept.muted, ..s },
            )
            &&& w.connected && !w.state.tombstoned.contains(id) ==> a.volume == Some(kept.volume)
                && a.mute == Some(kept.muted)
        }),
{
    let p = w.state.profiles.profiles[at];
    let (id, s) = w.state.streams[i];
    let w0 = state::flushed(w, name@);
    flushing_keeps_the_next(w, name@, at);
    stands_is_found(w0.state, name@, at);
    let (w1, w2, w3, w4) = stages(w0, p);
    ordered::lookup_at::<u32, StreamView>(w.state.streams, i);
    assert(p.wf());
    first_device_is_found(w0, StreamKind::Sink, p.sinks[k].0, i);
    devices_reach(w0, StreamKind::Sink, p.sinks, p.sinks.len() as int, k, id);
    devices_leave_others(w1, StreamKind::Source, p.sources, id);
    apps_leave_devices(w2, p.apps, id);
    default_changes_nothing(w3, StreamKind::Sink, p.default_sink, id);
    default_changes_nothing(w4, StreamKind::Source, p.default_source, id);
}

/// And an input.
pub proof fn a_profile_gives_inputs_what_it_keeps(w: Work, name: String, at: int, k: int, i: int)
    requires
        w.state.wf(),
        w.commands.len() == 0,
        profile_stands(w.state, name@, at),
        0 <= k < w.state.profiles.profiles[at].sources.len(),
        first_device(
            w.state.streams,
            StreamKind::Source,
            w.state.profiles.profiles[at].sources[k].0,
            i,
        ),
    ensures
        ({
            let kept = w.state.profiles.profiles[at].sources[k].1;
            let (id, s) = w.state.streams[i];
            let after = state::step(w, Message::ApplyProfile(name));
            let a = server_laws::asked(after.commands, id);
            &&& ordered::lookup(after.state.streams, id) == Some(
                StreamView { volume: kept.volume, muted: kept.muted, ..s },
            )
            &&& w.connected && !w.state.tombstoned.contains(id) ==> a.volume == Some(kept.volume)
                && a.mute == Some(kept.muted)
        }),
{
    let p = w.state.profiles.profiles[at];
    let (id, s) = w.state.streams[i];
    let w0 = state::flushed(w, name@);
    flushing_keeps_the_next(w, name@, at);
    stands_is_found(w0.state, name@, at);
    let (w1, w2, w3, w4) = stages(w0, p);
    ordered::lookup_at::<u32, StreamView>(w.state.streams, i);
    assert(p.wf());
    devices_leave_others(w0, StreamKind::Sink, p.sinks, id);
    first_device_is_found(w0, StreamKind::Source, p.sources[k].0, i);
    device_is_found_alike(
        w1.state.streams,
        w0.state.streams,
        StreamKind::Source,
        p.sources[k].0,
        w0.state.streams.len() as int,
    );
    devices_reach(w1, StreamKind::Source, p.sources, p.sources.len() as int, k, id);
    apps_leave_devices(w2, p.apps, id);
    default_changes_nothing(w3, StreamKind::Sink, p.default_sink, id);
    default_changes_nothing(w4, StreamKind::Source, p.default_source, id);
}

/// A stream that a profile keeps nothing for stays as it is, and the server hears
/// nothing of it.
pub proof fn a_profile_leaves_the_rest(w: Work, name: String, at: int, id: u32)
    requires
        w.state.wf(),
        w.commands.len() == 0,
        profile_stands(w.state, name@, at),
        forall|k: int, i: int|
            0 <= k < w.state.profiles.profiles[at].apps.len() && #[trigger] first_of_app(
                w.state.streams,
                w.state.profiles.profiles[at].apps[k].0,
                i,
            ) ==> w.state.streams[i].0 != id,
        forall|k: int, i: int|
            0 <= k < w.state.profiles.profiles[at].sinks.len() && #[trigger] first_device(
                w.state.streams,
                StreamKind::Sink,
                w.state.profiles.profiles[at].sinks[k].0,
                i,
            ) ==> w.state.streams[i].0 != id,
        forall|k: int, i: int|
            0 <= k < w.state.profiles.profiles[at].sources.len() && #[trigger] first_device(
                w.state.streams,
                StreamKind::Source,
                w.state.profiles.profiles[at].sources[k].0,
                i,
            ) ==> w.state.streams[i].0 != id,
    ensures
        ({
            let after = state::step(w, Message::ApplyProfile(name));
            let a = server_laws::asked(after.commands, id);
            &&& ordered::lookup(after.state.streams, id) == ordered::lookup(w.state.streams, id)
            &&& a.volume is None && a.mute is None && a.route is None
        }),
{
    let p = w.state.profiles.profiles[at];
    let w0 = state::flushed(w, name@);
    flushing_keeps_the_next(w, name@, at);
    stands_is_found(w0.state, name@, at);
    let (w1, w2, w3, w4) = stages(w0, p);
    let streams = w.state.streams;
    let n = streams.len() as int;
    assert forall|k: int| 0 <= k < p.sinks.len() implies device_id(
        w0,
        StreamKind::Sink,
        (#[trigger] p.sinks[k]).0,
    ) != Some(id) by {
        device_is_found(streams, StreamKind::Sink, p.sinks[k].0, n);
    }
    devices_leave(w0, StreamKind::Sink, p.sinks, p.sinks.len() as int, id);
    assert forall|k: int| 0 <= k < p.sources.len() implies device_id(
        w1,
        StreamKind::Source,
        (#[trigger] p.sources[k]).0,
    ) != Some(id) by {
        device_is_found(streams, StreamKind::Source, p.sources[k].0, n);
        device_is_found_alike(
            w1.state.streams,
            streams,
            StreamKind::Source,
            p.sources[k].0,
            n,
        );
    }
    devices_leave(w1, StreamKind::Source, p.sources, p.sources.len() as int, id);
    server_laws::same_ones_on(w2, w1, w0);
    assert forall|k: int| 0 <= k < p.apps.len() implies app_id(w2, (#[trigger] p.apps[k]).0)
        != Some(id) by {
        app_is_found(streams, p.apps[k].0, n);
        app_is_found_alike(w2.state.streams, streams, p.apps[k].0, n);
    }
    apps_leave(w2, p.apps, p.apps.len() as int, id);
    default_changes_nothing(w3, StreamKind::Sink, p.default_sink, id);
    default_changes_nothing(w4, StreamKind::Source, p.default_source, id);
    assert(server_laws::asked(w.commands, id) == server_laws::nothing_asked());
}

/// Whether there is a device of a kind with a name.
pub open spec fn device_there(
    streams: Seq<(u32, StreamView)>,
    kind: StreamKind,
    name: Seq<char>,
) -> bool {
    exists|i: int| #[trigger] first_device(streams, kind, name, i)
}

proof fn there_is_found(w: Work, kind: StreamKind, name: Seq<char>)
    ensures
        (device_id(w, kind, name) is Some) == device_there(w.state.streams, kind, name),
{
    let streams = w.state.streams;
    device_is_found(streams, kind, name, streams.len() as int);
    if device_there(streams, kind, name) {
        let i = choose|i: int| #[trigger] first_device(streams, kind, name, i);
        first_device_is_found(w, kind, name, i);
    }
}

/// A profile applied becomes the active one, with its columns on show and nothing
/// uncommitted; the server is asked for its default devices, those that are there;
/// and what is saved last is just this.
pub proof fn a_profile_takes_over(w: Work, name: String, at: int)
    requires
        w.state.wf(),
        w.commands.len() == 0,
        w.connected,
        profile_stands(w.state, name@, at),
    ensures
        ({
            let p = w.state.profiles.profiles[at];
            let after = state::step(w, Message::ApplyProfile(name));
            let streams = w.state.streams;
            &&& after.state.profiles.active == Some(name@)
            &&& after.state.section_filter == p.section_filter
            &&& !after.state.dirty
            &&& after.saves.len() > w.saves.len()
            &&& after.saves.last().profiles == after.state.profiles
            &&& after.saves.last().window == w.state.geometry
            &&& server_laws::asked_output(after.commands) == match p.default_sink {
                Some(n) if device_there(streams, StreamKind::Sink, n) => Some(n),
                _ => None,
            }
            &&& server_laws::asked_input(after.commands) == match p.default_source {
                Some(n) if device_there(streams, StreamKind::Source, n) => Some(n),
                _ => None,
            }
        }),
{
    let p = w.state.profiles.profiles[at];
    let w0 = state::flushed(w, name@);
    flushing_keeps_the_next(w, name@, at);
    stands_is_found(w0.state, name@, at);
    let (w1, w2, w3, w4) = stages(w0, p);
    devices_ask_no_default(w0, StreamKind::Sink, p.sinks, p.sinks.len() as int);
    devices_ask_no_default(w1, StreamKind::Source, p.sources, p.sources.len() as int);
    server_laws::same_ones_on(w2, w1, w0);
    apps_ask_no_default(w2, p.apps, p.apps.len() as int);
    server_laws::same_ones_on(w3, w2, w0);
    let streams = w.state.streams;
    let n = streams.len() as int;
    if let Some(d) = p.default_sink {
        there_is_found(w0, StreamKind::Sink, d);
        device_is_found_alike(w3.state.streams, streams, StreamKind::Sink, d, n);
    }
    if let Some(d) = p.default_source {
        there_is_found(w0, StreamKind::Source, d);
        device_is_found_alike(w3.state.streams, streams, StreamKind::Source, d, n);
    }
    default_changes_nothing(w3, StreamKind::Sink, p.default_sink, 0);
    default_changes_nothing(w4, StreamKind::Source, p.default_source, 0);
    assert(server_laws::asked(w.commands, 0) == server_laws::nothing_asked());
}

proof fn devices_ask_no_default(w: Work, kind: StreamKind, entries: DeviceEntries, n: int)
    requires
        state::streams_wf(w.state.streams),
        0 <= n <= entries.len(),
    ensures
        ({
            let after = state::devices_applied(w, kind, entries, n);
            &&& server_laws::only_streams_set(after, w)
            &&& server_laws::asked_output(after.commands) == server_laws::asked_output(w.commands)
            &&& server_laws::asked_input(after.commands) == server_laws::asked_input(w.commands)
        }),
    decreases n,
{
    if n > 0 {
        devices_ask_no_default(w, kind, entries, n - 1);
        let rest = state::devices_applied(w, kind, entries, n - 1);
        if let Some(at) = device_id(rest, kind, entries[n - 1].0) {
            server_laws::device_is_set(rest, at, entries[n - 1].1, 0);
            server_laws::same_ones_on(state::devices_applied(w, kind, entries, n), rest, w);
        }
    }
}

proof fn apps_ask_no_default(w: Work, entries: AppEntries, n: int)
    requires
        state::streams_wf(w.state.streams),
        0 <= n <= entries.len(),
    ensures
        ({
            let after = state::apps_applied(w, entries, n);
            &&& server_laws::only_streams_set(after, w)
            &&& server_laws::asked_output(after.commands) == server_laws::asked_output(w.commands)
            &&& server_laws::asked_input(after.commands) == server_laws::asked_input(w.commands)
        }),
    decreases n,
{
    if n > 0 {
        apps_ask_no_default(w, entries, n - 1);
        let rest = state::apps_applied(w, entries, n - 1);
        if let Some(at) = app_id(rest, entries[n - 1].0) {
            server_laws::app_is_set(rest, at, entries[n - 1].1, 0);
            server_laws::same_ones_on(state::apps_applied(w, entries, n), rest, w);
        }
    }
}

// --- Presets that wait ------------------------------------------------------------------------

proof fn lookup_grows<V>(entries: Seq<(Seq<char>, V)>, n: int, key: Seq<char>)
    requires
        0 < n <= entries.len(),
    ensures
        ordered::lookup(entries.take(n), key) == if entries[n - 1].0 == key {
            Some(entries[n - 1].1)
        } else {
            ordered::lookup(entries.take(n - 1), key)
        },
{
    assert(entries.take(n).drop_last() =~= entries.take(n - 1));
}

proof fn devices_wait(w: Work, kind: StreamKind, entries: DeviceEntries, n: int, name: Seq<char>)
    requires
        state::streams_wf(w.state.streams),
        0 <= n <= entries.len(),
    ensures
        ordered::ascending::<String, DeviceSettings>(state::devices_waiting(w, kind, entries, n)),
        ordered::lookup(state::devices_waiting(w, kind, entries, n), name) == if device_id(
            w,
            kind,
            name,
        ) is Some {
            None
        } else {
            ordered::lookup(entries.take(n), name)
        },
    decreases n,
{
    if n > 0 {
        devices_wait(w, kind, entries, n - 1, name);
        lookup_grows(entries, n, name);
        let waiting = state::devices_waiting(w, kind, entries, n - 1);
        let rest = state::devices_applied(w, kind, entries, n - 1);
        devices_ask_no_default(w, kind, entries, n - 1);
        device_is_found_alike(
            rest.state.streams,
            w.state.streams,
            kind,
            entries[n - 1].0,
            w.state.streams.len() as int,
        );
        ordered::put_ascends::<String, DeviceSettings>(waiting, entries[n - 1].0, entries[n - 1].1);
        ordered::lookup_of_put::<String, DeviceSettings>(
            waiting,
            entries[n - 1].0,
            entries[n - 1].1,
            name,
        );
    } else {
        assert(entries.take(0) =~= Seq::empty());
    }
}

proof fn apps_wait(w: Work, entries: AppEntries, n: int, key: Seq<char>)
    requires
        state::streams_wf(w.state.streams),
        0 <= n <= entries.len(),
    ensures
        ordered::ascending::<String, AppSettingsView>(state::apps_waiting(w, entries, n)),
        ordered::lookup(state::apps_waiting(w, entries, n), key) == if app_id(w, key) is Some {
            None
        } else {
            ordered::lookup(entries.take(n), key)
        },
    decreases n,
{
    if n > 0 {
        apps_wait(w, entries, n - 1, key);
        lookup_grows(entries, n, key);
        let waiting = state::apps_waiting(w, entries, n - 1);
        let rest = state::apps_applied(w, entries, n - 1);
        apps_ask_no_default(w, entries, n - 1);
        app_is_found_alike(
            rest.state.streams,
            w.state.streams,
            entries[n - 1].0,
            w.state.streams.len() as int,
        );
        ordered::put_ascends::<String, AppSettingsView>(
            waiting,
            entries[n - 1].0,
            entries[n - 1].1,
        );
        ordered::lookup_of_put::<String, AppSettingsView>(
            waiting,
            entries[n - 1].0,
            entries[n - 1].1,
            key,
        );
    } else {
        assert(entries.take(0) =~= Seq::empty());
    }
}

/// Whether there is a stream of an application.
pub open spec fn app_there(streams: Seq<(u32, StreamView)>, key: Seq<char>) -> bool {
    exists|i: int| #[trigger] first_of_app(streams, key, i)
}

/// What waits once a profile is applied is what it keeps for those who are not there:
/// every such preset, as it is kept, and no other.
pub proof fn presets_wait_for_the_absent(w: Work, name: String, at: int, key: Seq<char>)
    requires
        w.state.wf(),
        profile_stands(w.state, name@, at),
    ensures
        ({
            let p = w.state.profiles.profiles[at];
            let streams = w.state.streams;
            let waits = state::step(w, Message::ApplyProfile(name)).state.pending;
            &&& ordered::lookup(waits.apps, key) == if app_there(streams, key) {
                None
            } else {
                ordered::lookup(p.apps, key)
            }
            &&& ordered::lookup(waits.sinks, key) == if device_there(
                streams,
                StreamKind::Sink,
                key,
            ) {
                None
            } else {
                ordered::lookup(p.sinks, key)
            }
            &&& ordered::lookup(waits.sources, key) == if device_there(
                streams,
                StreamKind::Source,
                key,
            ) {
                None
            } else {
                ordered::lookup(p.sources, key)
            }
            &&& waits.default_sink == match p.default_sink {
                Some(n) if !device_there(streams, StreamKind::Sink, n) => Some(n),
                _ => None,
            }
            &&& waits.default_source == match p.default_source {
                Some(n) if !device_there(streams, StreamKind::Source, n) => Some(n),
                _ => None,
            }
        }),
{
    let p = w.state.profiles.profiles[at];
    let w0 = state::flushed(w, name@);
    flushing_keeps_the_next(w, name@, at);
    stands_is_found(w0.state, name@, at);
    let (w1, w2, w3, w4) = stages(w0, p);
    let streams = w.state.streams;
    let n = streams.len() as int;
    devices_ask_no_default(w0, StreamKind::Sink, p.sinks, p.sinks.len() as int);
    devices_ask_no_default(w1, StreamKind::Source, p.sources, p.sources.len() as int);
    server_laws::same_ones_on(w2, w1, w0);
    apps_ask_no_default(w2, p.apps, p.apps.len() as int);
    server_laws::same_ones_on(w3, w2, w0);
    devices_wait(w0, StreamKind::Sink, p.sinks, p.sinks.len() as int, key);
    devices_wait(w1, StreamKind::Source, p.sources, p.sources.len() as int, key);
    apps_wait(w2, p.apps, p.apps.len() as int, key);
    assert(p.sinks.take(p.sinks.len() as int) =~= p.sinks);
    assert(p.sources.take(p.sources.len() as int) =~= p.sources);
    assert(p.apps.take(p.apps.len() as int) =~= p.apps);
    there_is_found(w0, StreamKind::Sink, key);
    there_is_found(w0, StreamKind::Source, key);
    device_is_found_alike(w1.state.streams, streams, StreamKind::Source, key, n);
    app_is_found_alike(w2.state.streams, streams, key, n);
    app_is_found(streams, key, n);
    if app_there(streams, key) {
        let i = choose|i: int| #[trigger] first_of_app(streams, key, i);
        first_of_app_is_found(w0, key, i);
    }
    if let Some(d) = p.default_sink {
        there_is_found(w0, StreamKind::Sink, d);
        device_is_found_alike(w3.state.streams, streams, StreamKind::Sink, d, n);
    }
    if let Some(d) = p.default_source {
        there_is_found(w0, StreamKind::Source, d);
        device_is_found_alike(w3.state.streams, streams, StreamKind::Source, d, n);
    }
    default_changes_nothing(w3, StreamKind::Sink, p.default_sink, 0);
}

/// Applying a profile that is not there changes no stream, asks the server for
/// nothing, leaves the active profile active and says so by name.
pub proof fn an_unknown_profile_changes_nothing(w: Work, name: String)
    requires
        w.state.wf(),
        forall|k: int|
            0 <= k < w.state.profiles.profiles.len() ==> (
            #[trigger] w.state.profiles.profiles[k]).name != name@,
    ensures
        ({
            let after = state::step(w, Message::ApplyProfile(name));
            &&& after.state.streams == w.state.streams
            &&& after.commands == w.commands
            &&& after.state.profiles.active == w.state.profiles.active
            &&& after.state.pending == w.state.pending
            &&& after.state.status == Some("profile '"@ + name@ + "' not found"@)
        }),
{
    let w0 = state::flushed(w, name@);
    let all = w0.state.profiles.profiles;
    profile::position_of_holds(all, name@, all.len() as int);
    if let Some(active) = w.state.profiles.active {
        let old = w.state.profiles.profiles;
        profile::position_of_holds(old, active, old.len() as int);
        assert forall|k: int| 0 <= k < all.len() implies (#[trigger] all[k]).name != name@ by {
            if k < old.len() {
                assert(old[k].name != name@);
            }
        }
    }
}

// --- What a profile keeps -----------------------------------------------------------------------

proof fn devices_are_kept(
    streams: Seq<(u32, StreamView)>,
    kind: StreamKind,
    n: int,
    name: Seq<char>,
    i: int,
)
    requires
        0 <= n <= streams.len(),
        i < n,
        i < 0 ==> forall|k: int|
            0 <= k < n ==> !((#[trigger] streams[k]).1.kind == kind && streams[k].1.node_name
                == Some(name)),
        i >= 0 ==> streams[i].1.kind == kind && streams[i].1.node_name == Some(name),
        i >= 0 ==> forall|k: int|
            i < k < n ==> !((#[trigger] streams[k]).1.kind == kind && streams[k].1.node_name
                == Some(name)),
    ensures
        ordered::ascending::<String, DeviceSettings>(profile::device_presets(streams, kind, n)),
        ordered::lookup(profile::device_presets(streams, kind, n), name) == if i < 0 {
            None
        } else {
            Some(DeviceSettings { volume: streams[i].1.volume, muted: streams[i].1.muted })
        },
    decreases n,
{
    if n > 0 {
        let s = streams[n - 1].1;
        let before = if i == n - 1 {
            last_device(streams, kind, name, n - 1)
        } else {
            i
        };
        devices_are_kept(streams, kind, n - 1, name, before);
        let rest = profile::device_presets(streams, kind, n - 1);
        if let Some(own) = s.node_name {
            let kept = DeviceSettings { volume: s.volume, muted: s.muted };
            ordered::put_ascends::<String, DeviceSettings>(rest, own, kept);
            ordered::lookup_of_put::<String, DeviceSettings>(rest, own, kept, name);
        }
    }
}

/// The last device of a kind and name among the first `n`, or below none.
proof fn last_device(streams: Seq<(u32, StreamView)>, kind: StreamKind, name: Seq<char>, n: int) -> (i:
    int)
    requires
        0 <= n <= streams.len(),
    ensures
        -1 <= i < n,
        i < 0 ==> forall|k: int|
            0 <= k < n ==> !((#[trigger] streams[k]).1.kind == kind && streams[k].1.node_name
                == Some(name)),
        i >= 0 ==> streams[i].1.kind == kind && streams[i].1.node_name == Some(name),
        i >= 0 ==> forall|k: int|
            i < k < n ==> !((#[trigger] streams[k]).1.kind == kind && streams[k].1.node_name
                == Some(name)),
    decreases n,
{
    if n <= 0 {
        -1
    } else if streams[n - 1].1.kind == kind && streams[n - 1].1.node_name == Some(name) {
        n - 1
    } else {
        last_device(streams, kind, name, n - 1)
    }
}

proof fn apps_are_kept(streams: Seq<(u32, StreamView)>, n: int, key: Seq<char>, i: int)
    requires
        0 <= n <= streams.len(),
        i < n,
        i < 0 ==> forall|k: int| 0 <= k < n ==> (#[trigger] streams[k]).1.identity() != Some(key),
        i >= 0 ==> streams[i].1.identity() == Some(key),
        i >= 0 ==> forall|k: int|
            i < k < n ==> (#[trigger] streams[k]).1.identity() != Some(key),
    ensures
        ordered::ascending::<String, AppSettingsView>(profile::app_presets(streams, n)),
        ordered::lookup(profile::app_presets(streams, n), key) == if i < 0 {
            None
        } else {
            Some(
                AppSettingsView {
                    volume: streams[i].1.volume,
                    muted: streams[i].1.muted,
                    target_sink_name: streams[i].1.target_sink_name,
                },
            )
        },
    decreases n,
{
    if n > 0 {
        let s = streams[n - 1].1;
        let before = if i == n - 1 {
            last_of_app(streams, key, n - 1)
        } else {
            i
        };
        apps_are_kept(streams, n - 1, key, before);
        let rest = profile::app_presets(streams, n - 1);
        if let Some(own) = s.identity() {
            let kept = AppSettingsView {
                volume: s.volume,
                muted: s.muted,
                target_sink_name: s.target_sink_name,
            };
            ordered::put_ascends::<String, AppSettingsView>(rest, own, kept);
            ordered::lookup_of_put::<String, AppSettingsView>(rest, own, kept, key);
        }
    }
}

proof fn last_of_app(streams: Seq<(u32, StreamView)>, key: Seq<char>, n: int) -> (i: int)
    requires
        0 <= n <= streams.len(),
    ensures
        -1 <= i < n,
        i < 0 ==> forall|k: int| 0 <= k < n ==> (#[trigger] streams[k]).1.identity() != Some(key),
        i >= 0 ==> streams[i].1.identity() == Some(key),
        i >= 0 ==> forall|k: int|
            i < k < n ==> (#[trigger] streams[k]).1.identity() != Some(key),
    decreases n,
{
    if n <= 0 {
        -1
    } else if streams[n - 1].1.identity() == Some(key) {
        n - 1
    } else {
        last_of_app(streams, key, n - 1)
    }
}

/// The profile of a name in a state, as it stands.
pub open spec fn kept_profile(st: AppView, name: Seq<char>) -> Option<ProfileView> {
    match profile::find_name(st.profiles.profiles, name) {
        Some(at) => Some(st.profiles.profiles[at]),
        None => None,
    }
}

proof fn first_default(streams: Seq<(u32, StreamView)>, kind: StreamKind, n: int, i: int)
    requires
        0 <= i < n <= streams.len(),
        streams[i].1.kind == kind,
        streams[i].1.is_default,
        forall|k: int|
            0 <= k < i ==> !((#[trigger] streams[k]).1.kind == kind && streams[k].1.is_default),
    ensures
        state::default_at(streams, kind, n) == Some(i),
    decreases n,
{
    if i < n - 1 {
        first_default(streams, kind, n - 1, i);
    } else {
        no_default(streams, kind, n - 1);
    }
}

proof fn no_default(streams: Seq<(u32, StreamView)>, kind: StreamKind, n: int)
    requires
        0 <= n <= streams.len(),
        forall|k: int|
            0 <= k < n ==> !((#[trigger] streams[k]).1.kind == kind && streams[k].1.is_default),
    ensures
        state::default_at(streams, kind, n) is None,
    decreases n,
{
    if n > 0 {
        no_default(streams, kind, n - 1);
    }
}

/// Whether a profile keeps a stream as it is: an application's gain, mute and route
/// where it is the application's last, a device's gain and mute where it is the last of
/// its name, and the default device of a kind where it is the first.
pub open spec fn keeps(p: ProfileView, streams: Seq<(u32, StreamView)>, i: int) -> bool {
    let s = streams[i].1;
    &&& s.identity() is Some && (forall|k: int|
        i < k < streams.len() ==> (#[trigger] streams[k]).1.identity() != s.identity())
        ==> ordered::lookup(p.apps, s.identity()->Some_0) == Some(
        AppSettingsView {
            volume: s.volume,
            muted: s.muted,
            target_sink_name: s.target_sink_name,
        },
    )
    &&& s.node_name is Some && (forall|k: int|
        i < k < streams.len() ==> !((#[trigger] streams[k]).1.kind == s.kind
            && streams[k].1.node_name == s.node_name)) ==> {
        let kept = Some(DeviceSettings { volume: s.volume, muted: s.muted });
        &&& s.kind == StreamKind::Sink ==> ordered::lookup(p.sinks, s.node_name->Some_0) == kept
        &&& s.kind == StreamKind::Source ==> ordered::lookup(p.sources, s.node_name->Some_0)
            == kept
    }
    &&& s.is_default && (forall|k: int|
        0 <= k < i ==> !((#[trigger] streams[k]).1.kind == s.kind && streams[k].1.is_default))
        ==> {
        &&& s.kind == StreamKind::Sink ==> p.default_sink == s.node_name
        &&& s.kind == StreamKind::Source ==> p.default_source == s.node_name
    }
}

/// Whether a profile keeps nothing for a name that no stream goes by.
pub open spec fn keeps_no_more(
    p: ProfileView,
    streams: Seq<(u32, StreamView)>,
    name: Seq<char>,
) -> bool {
    &&& (forall|k: int| 0 <= k < streams.len() ==> (#[trigger] streams[k]).1.identity() != Some(name))
        ==> ordered::lookup(p.apps, name) is None
    &&& (forall|k: int|
        0 <= k < streams.len() ==> !((#[trigger] streams[k]).1.kind == StreamKind::Sink
            && streams[k].1.node_name == Some(name))) ==> ordered::lookup(p.sinks, name) is None
    &&& (forall|k: int|
        0 <= k < streams.len() ==> !((#[trigger] streams[k]).1.kind == StreamKind::Source
            && streams[k].1.node_name == Some(name))) ==> ordered::lookup(p.sources, name) is None
}

pub open spec fn snapshot_now(st: AppView, name: Seq<char>) -> ProfileView {
    profile::snapshot_of(
        name,
        st.streams,
        state::default_name(st.streams, StreamKind::Sink),
        state::default_name(st.streams, StreamKind::Source),
        st.section_filter,
    )
}

proof fn snapshot_keeps(st: AppView, name: Seq<char>, i: int, other: Seq<char>)
    requires
        0 <= i < st.streams.len(),
    ensures
        keeps(snapshot_now(st, name), st.streams, i),
        keeps_no_more(snapshot_now(st, name), st.streams, other),
{
    let streams = st.streams;
    let n = streams.len() as int;
    let s = streams[i].1;
    if s.identity() is Some && (forall|k: int|
        i < k < streams.len() ==> (#[trigger] streams[k]).1.identity() != s.identity()) {
        apps_are_kept(streams, n, s.identity()->Some_0, i);
    }
    if s.node_name is Some && (s.kind == StreamKind::Sink || s.kind == StreamKind::Source) && (
    forall|k: int|
        i < k < streams.len() ==> !((#[trigger] streams[k]).1.kind == s.kind
            && streams[k].1.node_name == s.node_name)) {
        devices_are_kept(streams, s.kind, n, s.node_name->Some_0, i);
    }
    if s.is_default && (forall|k: int|
        0 <= k < i ==> !((#[trigger] streams[k]).1.kind == s.kind && streams[k].1.is_default)) {
        first_default(streams, s.kind, n, i);
    }
    if forall|k: int| 0 <= k < streams.len() ==> (#[trigger] streams[k]).1.identity() != Some(
        other,
    ) {
        apps_are_kept(streams, n, other, -1);
    }
    if forall|k: int|
        0 <= k < streams.len() ==> !((#[trigger] streams[k]).1.kind == StreamKind::Sink
            && streams[k].1.node_name == Some(other)) {
        devices_are_kept(streams, StreamKind::Sink, n, other, -1);
    }
    if forall|k: int|
        0 <= k < streams.len() ==> !((#[trigger] streams[k]).1.kind == StreamKind::Source
            && streams[k].1.node_name == Some(other)) {
        devices_are_kept(streams, StreamKind::Source, n, other, -1);
    }
}

/// A profile put into a store is found there under its name, and every other profile
/// stays what it was.
proof fn stored_is_found(all: profile::ProfileStoreView, p: ProfileView, other: Seq<char>)
    ensures
        ({
            let next = all.with_profile(p).profiles;
            &&& profile::find_name(next, p.name) matches Some(at)
            &&& next[at] == p
            &&& other != p.name ==> match profile::find_name(all.profiles, other) {
                Some(k) => profile::find_name(next, other) == Some(k) && next[k]
                    == all.profiles[k],
                None => profile::find_name(next, other) is None,
            }
        }),
{
    let old = all.profiles;
    let next = all.with_profile(p).profiles;
    profile::position_of_holds(old, p.name, old.len() as int);
    profile::position_of_holds(next, p.name, next.len() as int);
    profile::position_of_holds(old, other, old.len() as int);
    profile::position_of_holds(next, other, next.len() as int);
    let at = match profile::find_name(old, p.name) {
        Some(at) => at,
        None => old.len() as int,
    };
    assert(next[at] == p);
    assert forall|k: int| 0 <= k < at implies (#[trigger] next[k]).name != p.name by {
        assert(old[k].name != p.name);
    }
    assert(profile::find_name(next, p.name) == Some(at)) by {
        if let Some(f) = profile::find_name(next, p.name) {
            if f < at {
                assert(next[f].name != p.name);
            } else if at < f {
                assert(next[at].name != p.name);
            }
        } else {
            assert(next[at].name != p.name);
        }
    }
    if other != p.name {
        match profile::find_name(old, other) {
            Some(k) => {
                assert(next[k] == old[k]);
                assert forall|m: int| 0 <= m < k implies (#[trigger] next[m]).name != other by {
                    assert(old[m].name != other);
                }
                if let Some(f) = profile::find_name(next, other) {
                    if f < k {
                        assert(next[f].name != other);
                    } else if k < f {
                        assert(next[k].name != other);
                    }
                } else {
                    assert(next[k].name != other);
                }
            },
            None => {
                if let Some(f) = profile::find_name(next, other) {
                    if f < old.len() && f != at {
                        assert(old[f].name != other);
                    }
                }
            },
        }
    }
}

/// A save keeps what is shown: the active profile as it is saved keeps every stream as it
/// is and nothing more, and the columns on show. Every other profile stays what it was,
/// and so does every stream.
pub proof fn a_save_keeps_what_is_shown(
    w: Work,
    active: Seq<char>,
    i: int,
    name: Seq<char>,
    other: Seq<char>,
)
    requires
        w.state.wf(),
        w.state.dirty,
        w.state.profiles.active == Some(active),
        0 <= i < w.state.streams.len(),
        other != active,
    ensures
        ({
            let after = state::step(w, Message::AutoSaveTick);
            let kept = kept_profile(after.state, active);
            &&& kept matches Some(p)
            &&& p.name == active
            &&& p.section_filter == w.state.section_filter
            &&& keeps(p, w.state.streams, i)
            &&& keeps_no_more(p, w.state.streams, name)
            &&& kept_profile(after.state, other) == kept_profile(w.state, other)
            &&& after.state.profiles.active == Some(active)
            &&& after.saves.len() == w.saves.len() + 1
            &&& after.saves.last().profiles == after.state.profiles
            &&& after.saves.last().window == w.state.geometry
            &&& after.state.streams == w.state.streams
        }),
{
    snapshot_keeps(w.state, active, i, name);
    stored_is_found(w.state.profiles, snapshot_now(w.state, active), other);
}

/// A profile created under a name, trimmed, keeps what is shown and is the active one;
/// every other profile stays what it was.
pub proof fn a_new_profile_keeps_what_is_shown(
    w: Work,
    typed: Seq<char>,
    error: Option<Seq<char>>,
    i: int,
    name: Seq<char>,
    other: Seq<char>,
)
    requires
        w.state.wf(),
        w.state.modal == Some(ModalState::CreateProfile { name: typed, error }),
        text::trimmed(typed).len() > 0,
        0 <= i < w.state.streams.len(),
        other != text::trimmed(typed),
    ensures
        ({
            let own = text::trimmed(typed);
            let after = state::step(w, Message::ModalConfirm);
            &&& kept_profile(after.state, own) matches Some(p)
            &&& p.name == own
            &&& p.section_filter == w.state.section_filter
            &&& keeps(p, w.state.streams, i)
            &&& keeps_no_more(p, w.state.streams, name)
            &&& kept_profile(after.state, other) == kept_profile(w.state, other)
            &&& after.state.profiles.active == Some(own)
            &&& after.state.modal is None
            &&& after.saves.len() == w.saves.len() + 1
            &&& after.saves.last().profiles == after.state.profiles
        }),
{
    let own = text::trimmed(typed);
    let closed = AppView { modal: None, ..w.state };
    snapshot_keeps(closed, own, i, name);
    stored_is_found(w.state.profiles, snapshot_now(closed, own), other);
}

/// A profile renamed keeps its place and all it keeps, and stays active if it was; every
/// other profile stays what it was.
pub proof fn a_renamed_profile_is_the_same(
    w: Work,
    old_name: Seq<char>,
    typed: Seq<char>,
    error: Option<Seq<char>>,
    at: int,
    k: int,
)
    requires
        w.state.modal == Some(ModalState::RenameProfile { old_name, name: typed, error }),
        text::trimmed(typed).len() > 0,
        profile_stands(w.state, old_name, at),
        forall|j: int|
            0 <= j < w.state.profiles.profiles.len() ==> (
            #[trigger] w.state.profiles.profiles[j]).name != text::trimmed(typed),
        0 <= k < w.state.profiles.profiles.len(),
    ensures
        ({
            let own = text::trimmed(typed);
            let before = w.state.profiles;
            let after = state::step(w, Message::ModalConfirm);
            let now = after.state.profiles;
            &&& now.profiles.len() == before.profiles.len()
            &&& k != at ==> now.profiles[k] == before.profiles[k]
            &&& now.profiles[at] == (ProfileView { name: own, ..before.profiles[at] })
            &&& now.active == if before.active == Some(old_name) {
                Some(own)
            } else {
                before.active
            }
            &&& after.state.modal is None
            &&& after.saves.len() == w.saves.len() + 1
            &&& after.saves.last().profiles == now
        }),
{
    let all = w.state.profiles.profiles;
    stands_is_found(w.state, old_name, at);
    profile::position_of_holds(all, text::trimmed(typed), all.len() as int);
    assert(all[at].name != text::trimmed(typed));
}

/// A name that is blank or another profile's is refused: the profiles stay as they are,
/// nothing is saved, and the dialog stays open and says why.
pub proof fn a_bad_name_is_refused(
    w: Work,
    old_name: Seq<char>,
    typed: Seq<char>,
    error: Option<Seq<char>>,
    j: int,
)
    requires
        w.state.modal == Some(ModalState::RenameProfile { old_name, name: typed, error }),
        text::trimmed(typed).len() == 0 || text::trimmed(typed) != old_name && 0 <= j
            < w.state.profiles.profiles.len() && w.state.profiles.profiles[j].name
            == text::trimmed(typed),
    ensures
        ({
            let after = state::step(w, Message::ModalConfirm);
            &&& after.state.profiles == w.state.profiles
            &&& after.saves == w.saves
            &&& after.state.modal matches Some(m)
            &&& m matches ModalState::RenameProfile { old_name: o, name: n, error: Some(_) }
            &&& o == old_name
            &&& n == typed
        }),
{
    let all = w.state.profiles.profiles;
    profile::position_of_holds(all, text::trimmed(typed), all.len() as int);
}

/// A deleted profile is gone and the others stay what they were, in their order. If it
/// was the active one, the first that is left takes its place and nothing waits for it
/// any more; the last profile of all makes room for a blank one.
pub proof fn a_deleted_profile_is_gone(w: Work, name: String, at: int, k: int)
    requires
        profile_stands(w.state, name@, at),
        0 <= k < w.state.profiles.profiles.len(),
        state::one_active(w.state),
    ensures
        ({
            let before = w.state.profiles;
            let after = state::step(w, Message::DeleteProfile(name));
            let now = after.state.profiles;
            let left = before.profiles.len() - 1;
            &&& left > 0 ==> now.profiles.len() == left
            &&& k < at ==> now.profiles[k] == before.profiles[k]
            &&& k > at ==> now.profiles[k - 1] == before.profiles[k]
            &&& left == 0 ==> now.profiles == seq![ProfileView::blank("Default"@)]
            &&& before.active != Some(name@) ==> now.active
                == before.active && after.state.pending == w.state.pending
            &&& before.active == Some(name@) && (forall|j: int|
                0 <= j < before.profiles.len() && j != at ==> (
                #[trigger] before.profiles[j]).name != name@) ==> now.active == Some(
                now.profiles[0].name,
            ) && after.state.pending == profile::PendingView::none()
            &&& after.saves.len() == w.saves.len() + 1
            &&& after.saves.last().profiles == now
        }),
{
    let all = w.state.profiles.profiles;
    stands_is_found(w.state, name@, at);
    let rest = all.remove(at);
    if let Some(a) = w.state.profiles.active {
        let list = if rest.len() == 0 {
            seq![ProfileView::blank("Default"@)]
        } else {
            rest
        };
        profile::position_of_holds(list, a, list.len() as int);
        if a != name@ {
            profile::position_of_holds(all, a, all.len() as int);
            let j = profile::find_name(all, a)->Some_0;
            let j2 = if j < at {
                j
            } else {
                j - 1
            };
            assert(rest[j2].name == a);
        } else if forall|j: int| 0 <= j < all.len() && j != at ==> (#[trigger] all[j]).name
            != name@ {
            if let Some(f) = profile::find_name(list, a) {
                if rest.len() > 0 {
                    let back = if f < at {
                        f
                    } else {
                        f + 1
                    };
                    assert(rest[f] == all[back]);
                } else {
                    assert(list[0].name == "Default"@);
                    assert(list[0].name == list[f].name);
                }
            }
        }
    }
}

/// A profile dropped before or after another stands right there, and the others keep
/// their order: taken out again, it leaves what is left without it.
pub proof fn a_dropped_profile_stands_where_it_was_dropped(
    w: Work,
    name: String,
    target: String,
    before: bool,
    i: int,
    j: int,
)
    requires
        profile_stands(w.state, name@, i),
        profile_stands(w.state, target@, j),
        i != j,
    ensures
        ({
            let all = w.state.profiles.profiles;
            let after = state::step(w, Message::ReorderProfile { name, target, before });
            let now = after.state.profiles.profiles;
            &&& now.len() == all.len()
            &&& after.state.profiles.active == w.state.profiles.active
            &&& exists|p: int|
                0 <= p < now.len() && #[trigger] now.remove(p) == all.remove(i) && now[p] == all[i]
                    && (if before {
                    p + 1 < now.len() && now[p + 1] == all[j]
                } else {
                    p > 0 && now[p - 1] == all[j]
                })
            &&& now != all ==> after.saves.len() == w.saves.len() + 1
        }),
{
    let all = w.state.profiles.profiles;
    stands_is_found(w.state, name@, i);
    stands_is_found(w.state, target@, j);
    let rest = all.remove(i);
    let j2 = if i < j {
        j - 1
    } else {
        j
    };
    let p = if before {
        j2
    } else {
        j2 + 1
    };
    let now = rest.insert(p, all[i]);
    let after = state::step(w, Message::ReorderProfile { name, target, before });
    assert(after.state.profiles.profiles == now);
    assert(now.remove(p) =~= rest);
    assert(now[p] == all[i]);
    if before {
        assert(now[p + 1] == rest[j2]);
    } else {
        assert(now[p - 1] == rest[j2]);
    }
    if !w.state.profiles.reorder_moves(name@, target@, before) {
        assert(now =~= all);
    }
}

} // verus!
