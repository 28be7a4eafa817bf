//! What each gesture does to the streams it is meant for, and to no other.

use crate::domain::{Gain, StreamKind, StreamView};
use crate::gain;
use crate::ordered;
use crate::server_laws;
use crate::state;
use crate::state::{Message, Work};
use vstd::prelude::*;

verus! {

pub open spec fn listed(ids: Seq<u32>, n: int, id: u32) -> bool {
    exists|k: int| 0 <= k < n && #[trigger] ids[k] == id
}

proof fn listed_on(ids: Seq<u32>, n: int, id: u32)
    requires
        0 < n <= ids.len(),
    ensures
        listed(ids, n, id) == (listed(ids, n - 1, id) || ids[n - 1] == id),
{
    if listed(ids, n - 1, id) {
        let k = choose|k: int| 0 <= k < n - 1 && #[trigger] ids[k] == id;
        assert(0 <= k < n && ids[k] == id);
    }
    if ids[n - 1] == id {
        assert(0 <= n - 1 < n && ids[n - 1] == id);
    }
    if listed(ids, n, id) {
        let k = choose|k: int| 0 <= k < n && #[trigger] ids[k] == id;
        if k < n - 1 {
            assert(0 <= k < n - 1 && ids[k] == id);
        }
    }
}

/// The stream of an id, set by `f` where it is one of those meant.
pub open spec fn set_where(
    s: Option<StreamView>,
    meant: bool,
    f: spec_fn(StreamView) -> StreamView,
) -> Option<StreamView> {
    match s {
        Some(s) if meant => Some(f(s)),
        other => other,
    }
}

proof fn routes_reach(w: Work, ids: Seq<u32>, target: Option<Seq<char>>, n: int, id: u32)
    requires
        state::streams_wf(w.state.streams),
        0 <= n <= ids.len(),
    ensures
        server_laws::only_streams_set(state::targets_set(w, ids, target, n), w),
        ordered::lookup(state::targets_set(w, ids, target, n).state.streams, id) == set_where(
            ordered::lookup(w.state.streams, id),
            listed(ids, n, id),
            |s: StreamView| StreamView { target_sink_name: target, ..s },
        ),
    decreases n,
{
    if n > 0 {
        let rest = state::targets_set(w, ids, target, n - 1);
        routes_reach(w, ids, target, n - 1, id);
        server_laws::route_is_set(rest, ids[n - 1], target, id);
        server_laws::same_ones_on(state::targets_set(w, ids, target, n), rest, w);
        listed_on(ids, n, id);
    }
}

proof fn mutes_reach(w: Work, ids: Seq<u32>, mute: bool, n: int, id: u32)
    requires
        state::streams_wf(w.state.streams),
        0 <= n <= ids.len(),
    ensures
        server_laws::only_streams_set(state::mutes_set(w, ids, mute, n), w),
        ordered::lookup(state::mutes_set(w, ids, mute, n).state.streams, id) == set_where(
            ordered::lookup(w.state.streams, id),
            listed(ids, n, id),
            |s: StreamView| StreamView { muted: mute, ..s },
        ),
    decreases n,
{
    if n > 0 {
        let rest = state::mutes_set(w, ids, mute, n - 1);
        mutes_reach(w, ids, mute, n - 1, id);
        server_laws::mute_is_set(rest, ids[n - 1], mute, id);
        server_laws::same_ones_on(state::mutes_set(w, ids, mute, n), rest, w);
        listed_on(ids, n, id);
    }
}

proof fn volumes_reach(
    w: Work,
    levels: Seq<(u32, Gain)>,
    ids: Seq<u32>,
    master: Gain,
    target: Gain,
    n: int,
    id: u32,
)
    requires
        state::streams_wf(w.state.streams),
        0 <= n <= ids.len(),
    ensures
        server_laws::only_streams_set(
            state::volumes_set(w, levels, ids, master, target, n),
            w,
        ),
        ordered::lookup(
            state::volumes_set(w, levels, ids, master, target, n).state.streams,
            id,
        ) == set_where(
            ordered::lookup(w.state.streams, id),
            listed(ids, n, id),
            |s: StreamView|
                StreamView {
                    volume: state::member_gain(
                        state::level_of(levels, id, levels.len() as int),
                        master,
                        target,
                    ),
                    ..s
                },
        ),
    decreases n,
{
    if n > 0 {
        let rest = state::volumes_set(w, levels, ids, master, target, n - 1);
        volumes_reach(w, levels, ids, master, target, n - 1, id);
        let level = state::level_of(levels, ids[n - 1], levels.len() as int);
        server_laws::volume_is_set(
            rest,
            ids[n - 1],
            state::member_gain(level, master, target),
            id,
        );
        server_laws::same_ones_on(
            state::volumes_set(w, levels, ids, master, target, n),
            rest,
            w,
        );
        listed_on(ids, n, id);
    }
}

/// Whether a stream is an application's in the row of a key.
pub open spec fn in_row(s: Option<StreamView>, key: Seq<char>) -> bool {
    s matches Some(s) && s.kind == StreamKind::Application && s.row_key() == key
}

proof fn members_listed(streams: Seq<(u32, StreamView)>, key: Seq<char>, n: int, id: u32)
    requires
        0 <= n <= streams.len(),
    ensures
        ({
            let ids = state::row_members(streams, key, n);
            listed(ids, ids.len() as int, id) == exists|i: int|
                0 <= i < n && (#[trigger] streams[i]).0 == id && in_row(Some(streams[i].1), key)
        }),
    decreases n,
{
    if n > 0 {
        members_listed(streams, key, n - 1, id);
        let ids = state::row_members(streams, key, n);
        let rest = state::row_members(streams, key, n - 1);
        let here = streams[n - 1].0 == id && in_row(Some(streams[n - 1].1), key);
        if in_row(Some(streams[n - 1].1), key) {
            listed_on(ids, ids.len() as int, id);
            listed_push(rest, streams[n - 1].0, id);
        }
        if exists|i: int|
            0 <= i < n - 1 && (#[trigger] streams[i]).0 == id && in_row(Some(streams[i].1), key) {
            let i = choose|i: int|
                0 <= i < n - 1 && (#[trigger] streams[i]).0 == id && in_row(
                    Some(streams[i].1),
                    key,
                );
            assert(0 <= i < n && streams[i].0 == id);
        }
        if here {
            assert(0 <= n - 1 < n && streams[n - 1].0 == id);
        }
        if exists|i: int|
            0 <= i < n && (#[trigger] streams[i]).0 == id && in_row(Some(streams[i].1), key) {
            let i = choose|i: int|
                0 <= i < n && (#[trigger] streams[i]).0 == id && in_row(Some(streams[i].1), key);
            if i < n - 1 {
                assert(0 <= i < n - 1 && streams[i].0 == id);
            }
        }
    }
}

proof fn listed_push(ids: Seq<u32>, more: u32, id: u32)
    ensures
        listed(ids.push(more), ids.len() as int, id) == listed(ids, ids.len() as int, id),
{
    let all = ids.push(more);
    if listed(ids, ids.len() as int, id) {
        let k = choose|k: int| 0 <= k < ids.len() && #[trigger] ids[k] == id;
        assert(all[k] == id);
    }
    if listed(all, ids.len() as int, id) {
        let k = choose|k: int| 0 <= k < ids.len() && #[trigger] all[k] == id;
        assert(ids[k] == id);
    }
}

/// Found is standing in the list, for a property.
proof fn found_is_there(streams: Seq<(u32, StreamView)>, id: u32, p: spec_fn(StreamView) -> bool)
    requires
        state::streams_wf(streams),
    ensures
        (exists|i: int| 0 <= i < streams.len() && (#[trigger] streams[i]).0 == id && p(streams[i].1))
            == (ordered::lookup(streams, id) matches Some(s) && p(s)),
{
    if ordered::lookup(streams, id) is Some {
        let i = server_laws::found_stands(streams, id);
        assert(streams[i].0 == id);
    }
    if exists|i: int| 0 <= i < streams.len() && (#[trigger] streams[i]).0 == id && p(
        streams[i].1,
    ) {
        let i = choose|i: int|
            0 <= i < streams.len() && (#[trigger] streams[i]).0 == id && p(streams[i].1);
        ordered::lookup_at::<u32, StreamView>(streams, i);
    }
}

proof fn members_are_the_row(streams: Seq<(u32, StreamView)>, key: Seq<char>, id: u32)
    requires
        state::streams_wf(streams),
    ensures
        ({
            let ids = state::members(streams, key);
            listed(ids, ids.len() as int, id) == in_row(ordered::lookup(streams, id), key)
        }),
{
    members_listed(streams, key, streams.len() as int, id);
    found_is_there(streams, id, |s: StreamView| in_row(Some(s), key));
    let p = |s: StreamView| in_row(Some(s), key);
    if in_row(ordered::lookup(streams, id), key) {
        let i = choose|i: int|
            0 <= i < streams.len() && (#[trigger] streams[i]).0 == id && p(streams[i].1);
        assert(streams[i].0 == id && in_row(Some(streams[i].1), key));
    }
    let ids = state::members(streams, key);
    if listed(ids, ids.len() as int, id) {
        let i = choose|i: int|
            0 <= i < streams.len() && (#[trigger] streams[i]).0 == id && in_row(
                Some(streams[i].1),
                key,
            );
        assert(streams[i].0 == id && p(streams[i].1));
    }
}

/// A slider moves its own stream's gain, to the cube of where it stands, and no
/// other's.
pub proof fn a_slider_moves_its_stream(w: Work, at: u32, cubic: Gain, id: u32)
    requires
        w.state.wf(),
    ensures
        ordered::lookup(
            state::step(w, Message::VolumeChanged(at, cubic)).state.streams,
            id,
        ) == set_where(
            ordered::lookup(w.state.streams, id),
            id == at,
            |s: StreamView|
                StreamView { volume: gain::product(gain::product(cubic, cubic), cubic), ..s },
        ),
{
    server_laws::volume_is_set(w, at, gain::cubed(cubic), id);
}

/// A mute button turns its own stream's mute over, and no other's.
pub proof fn a_mute_turns_its_stream_over(w: Work, at: u32, id: u32)
    requires
        w.state.wf(),
    ensures
        ordered::lookup(state::step(w, Message::MuteToggled(at)).state.streams, id) == set_where(
            ordered::lookup(w.state.streams, id),
            id == at,
            |s: StreamView| StreamView { muted: !s.muted, ..s },
        ),
{
    if let Some(s) = ordered::lookup(w.state.streams, at) {
        server_laws::mute_is_set(w, at, !s.muted, id);
    }
}

/// A row's mute button leaves every stream of the row muted if one of them was not,
/// and none of them muted otherwise; streams of other rows stay as they are.
pub proof fn a_row_mutes_as_one(w: Work, key: String, id: u32, other: u32)
    requires
        w.state.wf(),
        in_row(ordered::lookup(w.state.streams, other), key@),
    ensures
        ({
            let before = ordered::lookup(w.state.streams, id);
            let after = ordered::lookup(
                state::step(w, Message::GroupMuteToggled(key)).state.streams,
                id,
            );
            let one = ordered::lookup(w.state.streams, other)->Some_0;
            let other_after = ordered::lookup(
                state::step(w, Message::GroupMuteToggled(key)).state.streams,
                other,
            );
            &&& !in_row(before, key@) ==> after == before
            &&& in_row(before, key@) ==> after == Some(
                StreamView { muted: after->Some_0.muted, ..before->Some_0 },
            ) && after->Some_0.muted == other_after->Some_0.muted
            &&& in_row(before, key@) && !one.muted ==> after->Some_0.muted
            &&& (forall|k: u32|
                in_row(#[trigger] ordered::lookup(w.state.streams, k), key@) ==> ordered::lookup(
                    w.state.streams,
                    k,
                )->Some_0.muted) ==> !other_after->Some_0.muted
        }),
{
    let ids = state::members(w.state.streams, key@);
    let n = ids.len() as int;
    let mute = !state::all_muted(w.state.streams, ids);
    members_are_the_row(w.state.streams, key@, id);
    members_are_the_row(w.state.streams, key@, other);
    mutes_reach(w, ids, mute, n, id);
    mutes_reach(w, ids, mute, n, other);
    let k = choose|k: int| 0 <= k < n && #[trigger] ids[k] == other;
    assert(ids[k] == other);
    if forall|k: u32|
        in_row(#[trigger] ordered::lookup(w.state.streams, k), key@) ==> ordered::lookup(
            w.state.streams,
            k,
        )->Some_0.muted {
        assert forall|i: int| 0 <= i < ids.len() implies (ordered::lookup(
            w.state.streams,
            #[trigger] ids[i],
        ) matches Some(s) ==> s.muted) by {
            assert(listed(ids, n, ids[i]));
            members_are_the_row(w.state.streams, key@, ids[i]);
        }
    }
}

/// Picking an output for a row pins every stream of the row to that output and no
/// other stream to anything.
pub proof fn a_row_goes_where_it_is_sent(w: Work, key: String, sink_id: u32, id: u32)
    requires
        w.state.wf(),
        ordered::lookup(w.state.streams, sink_id) matches Some(sink) && sink.kind
            == StreamKind::Sink && sink.node_name is Some,
    ensures
        ordered::lookup(
            state::step(w, Message::GroupSetStreamTarget { key, sink_id }).state.streams,
            id,
        ) == set_where(
            ordered::lookup(w.state.streams, id),
            in_row(ordered::lookup(w.state.streams, id), key@),
            |s: StreamView|
                StreamView {
                    target_sink_name: ordered::lookup(
                        w.state.streams,
                        sink_id,
                    )->Some_0.node_name,
                    ..s
                },
        ),
{
    let ids = state::members(w.state.streams, key@);
    members_are_the_row(w.state.streams, key@, id);
    let target = state::sink_name(w.state.streams, sink_id);
    routes_reach(w, ids, target, ids.len() as int, id);
}

/// Picking no output in particular for a row takes the pin off every stream of the
/// row and off no other.
pub proof fn a_row_let_go_follows_the_default(w: Work, key: String, id: u32)
    requires
        w.state.wf(),
    ensures
        ordered::lookup(
            state::step(w, Message::GroupClearStreamTarget(key)).state.streams,
            id,
        ) == set_where(
            ordered::lookup(w.state.streams, id),
            in_row(ordered::lookup(w.state.streams, id), key@),
            |s: StreamView| StreamView { target_sink_name: None, ..s },
        ),
{
    let ids = state::members(w.state.streams, key@);
    members_are_the_row(w.state.streams, key@, id);
    routes_reach(w, ids, None, ids.len() as int, id);
}

/// The same of one stream: pinned to the output picked, and no other stream touched.
pub proof fn a_stream_goes_where_it_is_sent(w: Work, app_id: u32, sink_id: u32, id: u32)
    requires
        w.state.wf(),
        ordered::lookup(w.state.streams, sink_id) matches Some(sink) && sink.kind
            == StreamKind::Sink && sink.node_name is Some,
    ensures
        ordered::lookup(
            state::step(w, Message::SetStreamTarget { app_id, sink_id }).state.streams,
            id,
        ) == set_where(
            ordered::lookup(w.state.streams, id),
            id == app_id,
            |s: StreamView|
                StreamView {
                    target_sink_name: ordered::lookup(
                        w.state.streams,
                        sink_id,
                    )->Some_0.node_name,
                    ..s
                },
        ),
{
    server_laws::route_is_set(w, app_id, state::sink_name(w.state.streams, sink_id), id);
}

/// And let go of, it alone is unpinned.
pub proof fn a_stream_let_go_follows_the_default(w: Work, app_id: u32, id: u32)
    requires
        w.state.wf(),
    ensures
        ordered::lookup(
            state::step(w, Message::ClearStreamTarget(app_id)).state.streams,
            id,
        ) == set_where(
            ordered::lookup(w.state.streams, id),
            id == app_id,
            |s: StreamView| StreamView { target_sink_name: None, ..s },
        ),
{
    server_laws::route_is_set(w, app_id, None, id);
}

/// An output that is not there, or has no name to route to, is nowhere to send
/// anything: picking it changes nothing.
pub proof fn nothing_goes_where_there_is_no_output(w: Work, key: String, app_id: u32, sink_id: u32)
    requires
        !(ordered::lookup(w.state.streams, sink_id) matches Some(sink) && sink.kind
            == StreamKind::Sink && sink.node_name is Some),
    ensures
        state::step(w, Message::GroupSetStreamTarget { key, sink_id }) == w,
        state::step(w, Message::SetStreamTarget { app_id, sink_id }) == w,
{
}

/// A row's mute button leaves streams of other rows as they are, and so where the row
/// has none.
pub proof fn a_row_mute_touches_no_other(w: Work, key: String, id: u32)
    requires
        w.state.wf(),
        !in_row(ordered::lookup(w.state.streams, id), key@),
    ensures
        ordered::lookup(state::step(w, Message::GroupMuteToggled(key)).state.streams, id)
            == ordered::lookup(w.state.streams, id),
{
    let ids = state::members(w.state.streams, key@);
    let mute = !state::all_muted(w.state.streams, ids);
    members_are_the_row(w.state.streams, key@, id);
    mutes_reach(w, ids, mute, ids.len() as int, id);
}

proof fn pinned_are_listed(streams: Seq<(u32, StreamView)>, n: int, i: int)
    requires
        0 <= i < n <= streams.len(),
        streams[i].1.kind == StreamKind::Application,
        streams[i].1.target_sink_name is Some,
    ensures
        ({
            let ids = state::pinned_ids(streams, n);
            listed(ids, ids.len() as int, streams[i].0)
        }),
    decreases n,
{
    let ids = state::pinned_ids(streams, n);
    let rest = state::pinned_ids(streams, n - 1);
    if i == n - 1 {
        assert(ids[ids.len() - 1] == streams[i].0);
    } else {
        pinned_are_listed(streams, n - 1, i);
        let k = choose|k: int| 0 <= k < rest.len() && #[trigger] rest[k] == streams[i].0;
        assert(ids[k] == streams[i].0);
    }
}

proof fn listed_are_pinned(streams: Seq<(u32, StreamView)>, n: int, id: u32)
    requires
        0 <= n <= streams.len(),
        listed(state::pinned_ids(streams, n), state::pinned_ids(streams, n).len() as int, id),
    ensures
        exists|i: int|
            0 <= i < n && (#[trigger] streams[i]).0 == id && streams[i].1.kind
                == StreamKind::Application,
    decreases n,
{
    if n > 0 {
        let ids = state::pinned_ids(streams, n);
        let rest = state::pinned_ids(streams, n - 1);
        let k = choose|k: int| 0 <= k < ids.len() && #[trigger] ids[k] == id;
        if k < rest.len() {
            assert(rest[k] == id);
            listed_are_pinned(streams, n - 1, id);
        } else {
            assert(streams[n - 1].0 == id);
        }
    }
}

/// A reset leaves no application pinned and no device changed.
pub proof fn a_reset_unpins_every_app(w: Work, i: int)
    requires
        w.state.wf(),
        0 <= i < w.state.streams.len(),
    ensures
        ({
            let (id, s) = w.state.streams[i];
            ordered::lookup(
                state::step(w, Message::ResetAllStreamTargets).state.streams,
                id,
            ) == Some(
                if s.kind == StreamKind::Application {
                    StreamView { target_sink_name: None, ..s }
                } else {
                    s
                },
            )
        }),
{
    let streams = w.state.streams;
    let n = streams.len() as int;
    let (id, s) = streams[i];
    let ids = state::pinned_ids(streams, n);
    ordered::lookup_at::<u32, StreamView>(streams, i);
    routes_reach(w, ids, None, ids.len() as int, id);
    if s.kind == StreamKind::Application && s.target_sink_name is Some {
        pinned_are_listed(streams, n, i);
    }
    if listed(ids, ids.len() as int, id) {
        listed_are_pinned(streams, n, id);
        let j = choose|j: int|
            0 <= j < n && (#[trigger] streams[j]).0 == id && streams[j].1.kind
                == StreamKind::Application;
        ordered::lookup_at::<u32, StreamView>(streams, j);
    }
}

/// The last gain reported of a stream, nothing where there is no report.
pub open spec fn reported(levels: Seq<(u32, Gain)>, id: u32, at: int) -> bool {
    &&& 0 <= at < levels.len()
    &&& levels[at].0 == id
    &&& forall|k: int| at < k < levels.len() ==> (#[trigger] levels[k]).0 != id
}

proof fn reported_is_the_level(levels: Seq<(u32, Gain)>, id: u32, at: int, n: int)
    requires
        reported(levels, id, at),
        at < n <= levels.len(),
    ensures
        state::level_of(levels, id, n) == levels[at].1,
    decreases n,
{
    if at < n - 1 {
        assert(levels[n - 1].0 != id);
        reported_is_the_level(levels, id, at, n - 1);
    }
}

/// A row's slider changes the gain of the row's streams and nothing else of any stream.
/// Streams reported alike stay alike, and in a row where nothing is heard all of them go
/// where the slider stands.
pub proof fn a_row_slider_moves_its_streams(
    w: Work,
    key: String,
    cubic: Gain,
    levels: Vec<(u32, Gain)>,
    id: u32,
    mate: u32,
    a: int,
    b: int,
)
    requires
        w.state.wf(),
        reported(levels@, id, a),
        reported(levels@, mate, b),
    ensures
        ({
            let streams = w.state.streams;
            let before = ordered::lookup(streams, id);
            let after = state::step(
                w,
                Message::GroupVolumeChanged { key, cubic, levels },
            ).state.streams;
            let now = ordered::lookup(after, id);
            &&& !in_row(before, key@) ==> now == before
            &&& in_row(before, key@) ==> now == Some(
                StreamView { volume: now->Some_0.volume, ..before->Some_0 },
            )
            &&& in_row(before, key@) && in_row(ordered::lookup(streams, mate), key@)
                && levels@[a].1 == levels@[b].1 ==> now->Some_0.volume == ordered::lookup(
                after,
                mate,
            )->Some_0.volume
            &&& in_row(before, key@) && (forall|k: int|
                0 <= k < levels@.len() ==> (#[trigger] levels@[k]).1.bits == 0)
                ==> now->Some_0.volume == gain::cubed(gain::limited(cubic))
        }),
{
    let streams = w.state.streams;
    let ids = state::members(streams, key@);
    let n = ids.len() as int;
    let master = state::master_level(levels@, ids, n);
    let target = gain::limited(cubic);
    members_are_the_row(streams, key@, id);
    members_are_the_row(streams, key@, mate);
    volumes_reach(w, levels@, ids, master, target, n, id);
    volumes_reach(w, levels@, ids, master, target, n, mate);
    reported_is_the_level(levels@, id, a, levels@.len() as int);
    reported_is_the_level(levels@, mate, b, levels@.len() as int);
    if forall|k: int| 0 <= k < levels@.len() ==> (#[trigger] levels@[k]).1.bits == 0 {
        silent_row(levels@, ids, n);
    }
}

proof fn silent_row(levels: Seq<(u32, Gain)>, ids: Seq<u32>, n: int)
    requires
        0 <= n <= ids.len(),
        forall|k: int| 0 <= k < levels.len() ==> (#[trigger] levels[k]).1.bits == 0,
    ensures
        state::master_level(levels, ids, n).bits == 0,
    decreases n,
{
    if n > 0 {
        silent_row(levels, ids, n - 1);
        silent_level(levels, ids[n - 1], levels.len() as int);
    }
}

proof fn silent_level(levels: Seq<(u32, Gain)>, id: u32, n: int)
    requires
        0 <= n <= levels.len(),
        forall|k: int| 0 <= k < levels.len() ==> (#[trigger] levels[k]).1.bits == 0,
    ensures
        state::level_of(levels, id, n).bits == 0,
    decreases n,
{
    if n > 0 {
        assert(levels[n - 1].1.bits == 0);
        silent_level(levels, id, n - 1);
    }
}

/// Who shares a row: streams of one application id, or, without one, of one binary. An
/// application id tells streams apart whatever their binaries are, an application known
/// by its id never shares a row with one known by its binary, and a device has no
/// application.
pub proof fn rows_go_by_application(a: StreamView, b: StreamView)
    requires
        a.kind == StreamKind::Application,
        b.kind == StreamKind::Application,
    ensures
        a.app_id is Some && b.app_id is Some ==> (a.row_key() == b.row_key()) == (a.app_id
            == b.app_id),
        a.app_id is None && b.app_id is None && a.binary is Some && b.binary is Some ==> (
        a.row_key() == b.row_key()) == (a.binary == b.binary),
        a.app_id is Some && b.app_id is None && b.binary is Some ==> a.row_key() != b.row_key(),
        (a.identity() is Some) == (a.app_id is Some || a.binary is Some),
        (StreamView { kind: StreamKind::Sink, ..a }).identity() is None,
        (StreamView { kind: StreamKind::Source, ..a }).identity() is None,
{
    reveal_strlit("app:");
    reveal_strlit("bin:");
    let app = "app:"@;
    let bin = "bin:"@;
    if a.app_id is Some && b.app_id is Some {
        same_tails(app, a.app_id->Some_0, b.app_id->Some_0);
    }
    if a.binary is Some && b.binary is Some {
        same_tails(bin, a.binary->Some_0, b.binary->Some_0);
    }
    if a.app_id is Some && b.app_id is None && b.binary is Some {
        assert((app + a.app_id->Some_0)[0] == 'a');
        assert((bin + b.binary->Some_0)[0] == 'b');
    }
}

proof fn same_tails(head: Seq<char>, a: Seq<char>, b: Seq<char>)
    ensures
        (head + a == head + b) == (a == b),
{
    if head + a == head + b {
        assert((head + a).skip(head.len() as int) =~= a);
        assert((head + b).skip(head.len() as int) =~= b);
    }
}

} // verus!
