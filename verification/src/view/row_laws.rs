//! What a snapshot's rows tell of the streams they stand for.

use crate::domain::{Gain, StreamKind, StreamView};
use crate::gain;
use crate::gesture_laws;
use crate::ordered;
use crate::server_laws;
use crate::state;
use crate::state::AppView;
use crate::ui::layout::RowIdView;
use crate::view::app_group;
use crate::view::app_group::{GroupModel, RenderedModel};
use crate::view::rows::LevelEntries;
use crate::view::snapshot;
use crate::view::snapshot::{DeviceRowModel, VOLUME_WARNING_THRESHOLD};
use crate::view::snapshot_laws;
use vstd::prelude::*;

verus! {

/// Where a stream's fader stands, as it was reported, at nothing where it was not.
pub open spec fn fader(levels: LevelEntries, id: u32) -> Gain {
    match ordered::lookup(levels, id) {
        Some(level) => level.cubic,
        None => Gain { bits: 0 },
    }
}

proof fn streams_are_found(streams: Seq<(u32, StreamView)>, s: StreamView)
    requires
        state::streams_wf(streams),
        snapshot_laws::among(streams, streams.len() as int, s),
    ensures
        ordered::lookup(streams, s.id) == Some(s),
{
    let i = choose|i: int| 0 <= i < streams.len() && (#[trigger] streams[i]).1 == s;
    assert(streams[i].0 == streams[i].1.id);
    ordered::lookup_at::<u32, StreamView>(streams, i);
}

proof fn found_is_among(streams: Seq<(u32, StreamView)>, id: u32)
    requires
        state::streams_wf(streams),
        ordered::lookup(streams, id) is Some,
    ensures
        snapshot_laws::among(streams, streams.len() as int, ordered::lookup(streams, id)->Some_0),
        ordered::lookup(streams, id)->Some_0.id == id,
{
    let i = server_laws::found_stands(streams, id);
    assert(streams[i].0 == streams[i].1.id);
}

/// A device's row shows its device: its name, or its desktop entry's, and its form; its
/// mute, whether it is the default, and its fader where it was reported.
pub proof fn a_device_row_shows_its_device(
    st: AppView,
    levels: LevelEntries,
    commands: Seq<Seq<char>>,
    kind: StreamKind,
    rows: Seq<DeviceRowModel>,
    k: int,
)
    requires
        state::streams_wf(st.streams),
        kind == StreamKind::Sink && rows == snapshot::snapshot_of(st, levels, commands).sinks
            || kind == StreamKind::Source && rows == snapshot::snapshot_of(
            st,
            levels,
            commands,
        ).sources,
        0 <= k < rows.len(),
    ensures
        ({
            let r = rows[k];
            &&& ordered::lookup(st.streams, r.node_id) matches Some(s)
            &&& s.kind == kind
            &&& r.id == if kind == StreamKind::Sink {
                RowIdView::Sink(s.id)
            } else {
                RowIdView::Source(s.id)
            }
            &&& s.xdg is Some ==> r.label == s.xdg->Some_0.name
            &&& s.xdg is None ==> r.label == s.name
            &&& s.form is Some ==> r.sublabel == s.form->Some_0.label
            &&& s.form is None ==> r.sublabel.len() == 0
            &&& r.cubic == fader(levels, s.id)
            &&& r.muted == s.muted
            &&& r.is_default == s.is_default
            &&& r.warning == gain::above(fader(levels, s.id), VOLUME_WARNING_THRESHOLD)
        }),
{
    broadcast use vstd::seq_lib::group_to_multiset_ensures;

    let streams = st.streams;
    let n = streams.len() as int;
    let list = snapshot::devices(streams, kind);
    let plain = snapshot::of_kind(streams, kind, n);
    let s = list[k];
    snapshot_laws::devices_stand_in_order(streams, kind);
    assert(list.to_multiset().count(list[k]) > 0);
    assert(plain.contains(s));
    snapshot_laws::kinds_are_streams(streams, kind, n);
    let m = choose|m: int| 0 <= m < plain.len() && plain[m] == s;
    assert(snapshot_laws::among(streams, n, plain[m]));
    streams_are_found(streams, s);
}

/// The picker offers the outputs, each under its own id and name, in their order.
pub proof fn the_picker_offers_the_outputs(
    st: AppView,
    levels: LevelEntries,
    commands: Seq<Seq<char>>,
    k: int,
)
    requires
        0 <= k < snapshot::snapshot_of(st, levels, commands).sink_options.len(),
    ensures
        ({
            let snap = snapshot::snapshot_of(st, levels, commands);
            &&& snap.sink_options.len() == snap.sinks.len()
            &&& snap.sink_options[k].id == snap.sinks[k].node_id
            &&& snap.sink_options[k].label == snap.sinks[k].label
        }),
{
}

proof fn rows_come_from_groups(
    groups: Seq<GroupModel>,
    expanded: Set<Seq<char>>,
    n: int,
    r: int,
) -> (at: int)
    requires
        0 <= n <= groups.len(),
        0 <= r < app_group::plan_rows(groups, expanded, n).len(),
    ensures
        0 <= at < n,
        app_group::group_rows(
            groups[at],
            app_group::opened(groups[at], expanded),
        ).contains(app_group::plan_rows(groups, expanded, n)[r]),
    decreases n,
{
    let before = app_group::plan_rows(groups, expanded, n - 1);
    if r < before.len() {
        rows_come_from_groups(groups, expanded, n - 1, r)
    } else {
        let own = app_group::group_rows(
            groups[n - 1],
            app_group::opened(groups[n - 1], expanded),
        );
        assert(own[r - before.len()] == app_group::plan_rows(groups, expanded, n)[r]);
        n - 1
    }
}

/// The group whose row stands in a place.
proof fn group_of_row(
    st: AppView,
    levels: LevelEntries,
    commands: Seq<Seq<char>>,
    r: int,
    key: Seq<char>,
) -> (at: int)
    requires
        0 <= r < snapshot::snapshot_of(st, levels, commands).app_rows.len(),
        snapshot::snapshot_of(st, levels, commands).app_rows[r].id == RowIdView::AppGroup(key),
    ensures
        ({
            let groups = app_group::columns(snapshot_laws::apps_of(st), st.app_order);
            let all = app_group::plan_rows(groups, st.expanded_groups, groups.len() as int);
            &&& 0 <= at < groups.len()
            &&& groups[at].key == key
            &&& all[r] == (RenderedModel::Group {
                group: groups[at],
                expanded: app_group::opened(groups[at], st.expanded_groups),
            })
        }),
{
    let groups = app_group::columns(snapshot_laws::apps_of(st), st.app_order);
    let n = groups.len() as int;
    let all = app_group::plan_rows(groups, st.expanded_groups, n);
    let at = rows_come_from_groups(groups, st.expanded_groups, n, r);
    let open = app_group::opened(groups[at], st.expanded_groups);
    let own = app_group::group_rows(groups[at], open);
    let k = choose|k: int| 0 <= k < own.len() && own[k] == all[r];
    if k > 0 {
        assert(own[k] == (RenderedModel::Member { stream: groups[at].members[k - 1] }));
        assert(snapshot::snapshot_of(st, levels, commands).app_rows[r].id is AppMember);
    }
    at
}

/// Who the members of a group are: the streams of its row.
proof fn members_are_streams(st: AppView, at: int, id: u32)
    requires
        state::streams_wf(st.streams),
        0 <= at < app_group::columns(snapshot_laws::apps_of(st), st.app_order).len(),
    ensures
        ({
            let g = app_group::columns(snapshot_laws::apps_of(st), st.app_order)[at];
            &&& g.members.len() > 0
            &&& gesture_laws::in_row(ordered::lookup(st.streams, id), g.key)
                ==> g.members.contains(ordered::lookup(st.streams, id)->Some_0)
            &&& forall|m: int|
                0 <= m < g.members.len() ==> ordered::lookup(
                    st.streams,
                    (#[trigger] g.members[m]).id,
                ) == Some(g.members[m]) && g.members[m].kind == StreamKind::Application
                    && g.members[m].row_key() == g.key
        }),
{
    let apps = snapshot_laws::apps_of(st);
    let n = st.streams.len() as int;
    let groups = app_group::columns(apps, st.app_order);
    let g = groups[at];
    app_group::columns_split_the_streams(apps, st.app_order);
    assert(g.members.len() > 0);
    snapshot_laws::rows_are_streams(apps, g.key, apps.len() as int);
    snapshot_laws::kinds_are_streams(st.streams, StreamKind::Application, n);
    assert forall|m: int| 0 <= m < g.members.len() implies ordered::lookup(
        st.streams,
        (#[trigger] g.members[m]).id,
    ) == Some(g.members[m]) && g.members[m].kind == StreamKind::Application
        && g.members[m].row_key() == g.key by {
        let rows = app_group::row_streams(apps, g.key, apps.len() as int);
        assert(rows[m] == g.members[m]);
        let j = choose|j: int| 0 <= j < apps.len() && apps[j] == rows[m];
        assert(snapshot_laws::among(st.streams, n, apps[j]));
        streams_are_found(st.streams, apps[j]);
    }
    if gesture_laws::in_row(ordered::lookup(st.streams, id), g.key) {
        let s = ordered::lookup(st.streams, id)->Some_0;
        found_is_among(st.streams, id);
        snapshot_laws::kinds_hold_ids(st.streams, StreamKind::Application, s);
        let j = choose|j: int| 0 <= j < apps.len() && apps[j] == s;
        assert(apps[j].row_key() == g.key);
    }
}

proof fn loudest_is_over_all(members: Seq<StreamView>, levels: LevelEntries, n: int, m: int)
    requires
        0 <= m < n <= members.len(),
    ensures
        !gain::greater(
            app_group::cubic_of(levels, members[m].id),
            app_group::loudest(members, levels, n),
        ),
        !gain::is_none(app_group::loudest(members, levels, n)),
        app_group::loudest(members, levels, n).bits == 0 || exists|k: int|
            0 <= k < n && app_group::cubic_of(levels, (#[trigger] members[k]).id)
                == app_group::loudest(members, levels, n),
    decreases n,
{
    let rest = app_group::loudest(members, levels, n - 1);
    let one = app_group::cubic_of(levels, members[n - 1].id);
    if n > 1 {
        let inner = if m < n - 1 {
            m
        } else {
            0
        };
        loudest_is_over_all(members, levels, n - 1, inner);
    } else {
        assert(app_group::loudest(members, levels, 0).bits == 0);
    }
    if gain::greater(one, rest) {
        assert(app_group::cubic_of(levels, members[n - 1].id) == app_group::loudest(
            members,
            levels,
            n,
        ));
    } else if rest.bits != 0 {
        let k = choose|k: int|
            0 <= k < n - 1 && app_group::cubic_of(levels, (#[trigger] members[k]).id) == rest;
        assert(0 <= k < n && app_group::cubic_of(levels, members[k].id)
            == app_group::loudest(members, levels, n));
    }
}

/// An application's row shows its streams as one: muted if and only if all of them are,
/// idle if and only if none of them is live, its fader at the loudest of them.
pub proof fn an_app_row_shows_its_streams(
    st: AppView,
    levels: LevelEntries,
    commands: Seq<Seq<char>>,
    r: int,
    key: Seq<char>,
)
    requires
        state::streams_wf(st.streams),
        0 <= r < snapshot::snapshot_of(st, levels, commands).app_rows.len(),
        snapshot::snapshot_of(st, levels, commands).app_rows[r].id == RowIdView::AppGroup(key),
    ensures
        ({
            let row = snapshot::snapshot_of(st, levels, commands).app_rows[r];
            &&& row.muted == forall|id: u32|
                gesture_laws::in_row(#[trigger] ordered::lookup(st.streams, id), key)
                    ==> ordered::lookup(st.streams, id)->Some_0.muted
            &&& row.tombstoned == forall|id: u32|
                gesture_laws::in_row(#[trigger] ordered::lookup(st.streams, id), key)
                    ==> st.tombstoned.contains(id)
            &&& forall|id: u32|
                gesture_laws::in_row(#[trigger] ordered::lookup(st.streams, id), key)
                    ==> !gain::greater(fader(levels, id), row.cubic)
            &&& row.cubic.bits == 0 || exists|id: u32|
                gesture_laws::in_row(#[trigger] ordered::lookup(st.streams, id), key) && fader(
                    levels,
                    id,
                ) == row.cubic
            &&& exists|id: u32|
                gesture_laws::in_row(#[trigger] ordered::lookup(st.streams, id), key)
            &&& !row.is_member
            &&& row.can_expand == (row.member_count > 1)
            &&& row.is_expanded ==> st.expanded_groups.contains(key)
        }),
{
    let at = group_of_row(st, levels, commands, r, key);
    let groups = app_group::columns(snapshot_laws::apps_of(st), st.app_order);
    let g = groups[at];
    let row = snapshot::snapshot_of(st, levels, commands).app_rows[r];
    members_are_streams(st, at, 0);
    let n = g.members.len() as int;
    assert forall|id: u32|
        gesture_laws::in_row(#[trigger] ordered::lookup(st.streams, id), key) implies g.members
        .contains(ordered::lookup(st.streams, id)->Some_0) && ordered::lookup(
        st.streams,
        id,
    )->Some_0.id == id by {
        members_are_streams(st, at, id);
        found_is_among(st.streams, id);
    }
    assert forall|id: u32|
        gesture_laws::in_row(#[trigger] ordered::lookup(st.streams, id), key) implies {
        &&& !gain::greater(fader(levels, id), row.cubic)
        &&& row.muted ==> ordered::lookup(st.streams, id)->Some_0.muted
        &&& row.tombstoned ==> st.tombstoned.contains(id)
    } by {
        let s = ordered::lookup(st.streams, id)->Some_0;
        let m = choose|m: int| 0 <= m < n && g.members[m] == s;
        loudest_is_over_all(g.members, levels, n, m);
        assert(g.members[m].muted == s.muted);
    }
    assert forall|m: int| 0 <= m < n implies gesture_laws::in_row(
        ordered::lookup(st.streams, (#[trigger] g.members[m]).id),
        key,
    ) by {
        assert(ordered::lookup(st.streams, g.members[m].id) == Some(g.members[m]));
    }
    assert(gesture_laws::in_row(ordered::lookup(st.streams, g.members[0].id), key));
    if forall|id: u32|
        gesture_laws::in_row(#[trigger] ordered::lookup(st.streams, id), key) ==> ordered::lookup(
            st.streams,
            id,
        )->Some_0.muted {
        assert forall|m: int| 0 <= m < n implies (#[trigger] g.members[m]).muted by {
            assert(gesture_laws::in_row(ordered::lookup(st.streams, g.members[m].id), key));
        }
        assert(row.muted);
    }
    if forall|id: u32|
        gesture_laws::in_row(#[trigger] ordered::lookup(st.streams, id), key)
            ==> st.tombstoned.contains(id) {
        assert forall|m: int| 0 <= m < n implies st.tombstoned.contains(
            (#[trigger] g.members[m]).id,
        ) by {
            assert(gesture_laws::in_row(ordered::lookup(st.streams, g.members[m].id), key));
        }
        assert(row.tombstoned);
    }
    loudest_is_over_all(g.members, levels, n, 0);
    if row.cubic.bits != 0 {
        let k = choose|k: int|
            0 <= k < n && app_group::cubic_of(levels, (#[trigger] g.members[k]).id) == row.cubic;
        assert(gesture_laws::in_row(ordered::lookup(st.streams, g.members[k].id), key));
        assert(fader(levels, g.members[k].id) == row.cubic);
    }
}

/// A member's own row shows that stream.
pub proof fn a_member_row_shows_its_stream(
    st: AppView,
    levels: LevelEntries,
    commands: Seq<Seq<char>>,
    r: int,
    id: u32,
)
    requires
        state::streams_wf(st.streams),
        0 <= r < snapshot::snapshot_of(st, levels, commands).app_rows.len(),
        snapshot::snapshot_of(st, levels, commands).app_rows[r].id == RowIdView::AppMember(id),
    ensures
        ({
            let row = snapshot::snapshot_of(st, levels, commands).app_rows[r];
            &&& ordered::lookup(st.streams, id) matches Some(s)
            &&& s.kind == StreamKind::Application
            &&& st.expanded_groups.contains(s.row_key())
            &&& row.muted == s.muted
            &&& row.tombstoned == st.tombstoned.contains(id)
            &&& row.cubic == fader(levels, id)
            &&& row.is_member
        }),
{
    let groups = app_group::columns(snapshot_laws::apps_of(st), st.app_order);
    let n = groups.len() as int;
    let all = app_group::plan_rows(groups, st.expanded_groups, n);
    let at = rows_come_from_groups(groups, st.expanded_groups, n, r);
    let open = app_group::opened(groups[at], st.expanded_groups);
    let own = app_group::group_rows(groups[at], open);
    let k = choose|k: int| 0 <= k < own.len() && own[k] == all[r];
    if k == 0 {
        assert(own[0] == (RenderedModel::Group { group: groups[at], expanded: open }));
        assert(snapshot::snapshot_of(st, levels, commands).app_rows[r].id is AppGroup);
    } else {
        assert(own[k] == (RenderedModel::Member { stream: groups[at].members[k - 1] }));
        members_are_streams(st, at, id);
        let s = groups[at].members[k - 1];
        assert(s.id == id);
        assert(ordered::lookup(st.streams, s.id) == Some(s));
    }
}

proof fn named_sink(sinks: Seq<StreamView>, name: Seq<char>, n: int)
    requires
        0 <= n <= sinks.len(),
    ensures
        match snapshot::sink_named(sinks, name, n) {
            Some(id) => exists|k: int|
                0 <= k < n && (#[trigger] sinks[k]).node_name == Some(name) && sinks[k].id == id,
            None => forall|k: int| 0 <= k < n ==> (#[trigger] sinks[k]).node_name != Some(name),
        },
    decreases n,
{
    if n > 0 {
        named_sink(sinks, name, n - 1);
        if sinks[n - 1].node_name == Some(name) {
            assert(sinks[n - 1].id == snapshot::sink_named(sinks, name, n)->Some_0);
        } else if let Some(id) = snapshot::sink_named(sinks, name, n - 1) {
            let k = choose|k: int|
                0 <= k < n - 1 && (#[trigger] sinks[k]).node_name == Some(name) && sinks[k].id
                    == id;
            assert(sinks[k].node_name == Some(name));
        }
    }
}

/// Whether an output button is the one a pin stands for: the output of that name where
/// there is one, no output where there is none or no pin.
pub open spec fn stands_for_pin(st: AppView, target: Option<Seq<char>>, sink: Option<u32>) -> bool {
    match sink {
        Some(t) => target is Some && (ordered::lookup(st.streams, t) matches Some(s) && s.kind
            == StreamKind::Sink && s.node_name == target),
        None => target is None || forall|t: u32|
            (#[trigger] ordered::lookup(st.streams, t)) matches Some(s) ==> !(s.kind
                == StreamKind::Sink && s.node_name == target),
    }
}

proof fn pinned_stands(st: AppView, target: Option<Seq<char>>)
    requires
        state::streams_wf(st.streams),
    ensures
        stands_for_pin(
            st,
            target,
            snapshot::pinned(snapshot::devices(st.streams, StreamKind::Sink), target),
        ),
{
    broadcast use vstd::seq_lib::group_to_multiset_ensures;

    let streams = st.streams;
    let n = streams.len() as int;
    let sinks = snapshot::devices(streams, StreamKind::Sink);
    let plain = snapshot::of_kind(streams, StreamKind::Sink, n);
    if let Some(name) = target {
        named_sink(sinks, name, sinks.len() as int);
        snapshot_laws::devices_stand_in_order(streams, StreamKind::Sink);
        snapshot_laws::kinds_are_streams(streams, StreamKind::Sink, n);
        match snapshot::pinned(sinks, target) {
            Some(t) => {
                let k = choose|k: int|
                    0 <= k < sinks.len() && (#[trigger] sinks[k]).node_name == Some(name)
                        && sinks[k].id == t;
                assert(sinks.to_multiset().count(sinks[k]) > 0);
                assert(plain.contains(sinks[k]));
                let m = choose|m: int| 0 <= m < plain.len() && plain[m] == sinks[k];
                assert(snapshot_laws::among(streams, n, plain[m]));
                streams_are_found(streams, sinks[k]);
            },
            None => {
                assert forall|t: u32|
                    (#[trigger] ordered::lookup(streams, t)) is Some implies !(ordered::lookup(
                    streams,
                    t,
                )->Some_0.kind == StreamKind::Sink && ordered::lookup(streams, t)->Some_0.node_name
                    == target) by {
                    let s = ordered::lookup(streams, t)->Some_0;
                    found_is_among(streams, t);
                    if s.kind == StreamKind::Sink {
                        snapshot_laws::devices_hold_ids(streams, StreamKind::Sink, s);
                        let k = choose|k: int| 0 <= k < sinks.len() && sinks[k] == s;
                        assert(sinks[k].node_name != Some(name));
                    }
                }
            },
        }
    }
}

/// A row's button for an output is the chosen one if its streams are all pinned to that
/// output; where they are not all pinned alike, none is.
pub proof fn a_row_shows_where_it_goes(
    st: AppView,
    levels: LevelEntries,
    commands: Seq<Seq<char>>,
    r: int,
    target: Option<Seq<char>>,
)
    requires
        state::streams_wf(st.streams),
        0 <= r < snapshot::snapshot_of(st, levels, commands).app_rows.len(),
    ensures
        ({
            let row = snapshot::snapshot_of(st, levels, commands).app_rows[r];
            match row.id {
                RowIdView::AppMember(id) => ordered::lookup(st.streams, id) matches Some(s)
                    && stands_for_pin(st, s.target_sink_name, row.target_sink),
                RowIdView::AppGroup(key) => {
                    &&& (forall|id: u32|
                        gesture_laws::in_row(#[trigger] ordered::lookup(st.streams, id), key)
                            ==> ordered::lookup(st.streams, id)->Some_0.target_sink_name
                            == target) ==> stands_for_pin(st, target, row.target_sink)
                    &&& row.target_sink is Some ==> forall|id: u32|
                        gesture_laws::in_row(#[trigger] ordered::lookup(st.streams, id), key)
                            ==> stands_for_pin(
                            st,
                            ordered::lookup(st.streams, id)->Some_0.target_sink_name,
                            row.target_sink,
                        )
                },
                _ => false,
            }
        }),
{
    let groups = app_group::columns(snapshot_laws::apps_of(st), st.app_order);
    let n = groups.len() as int;
    let all = app_group::plan_rows(groups, st.expanded_groups, n);
    let row = snapshot::snapshot_of(st, levels, commands).app_rows[r];
    match all[r] {
        RenderedModel::Member { stream } => {
            a_member_row_shows_its_stream(st, levels, commands, r, stream.id);
            let at = rows_come_from_groups(groups, st.expanded_groups, n, r);
            let own = app_group::group_rows(
                groups[at],
                app_group::opened(groups[at], st.expanded_groups),
            );
            let k = choose|k: int| 0 <= k < own.len() && own[k] == all[r];
            members_are_streams(st, at, stream.id);
            assert(own[k] == (RenderedModel::Member { stream: groups[at].members[k - 1] }));
            assert(ordered::lookup(st.streams, groups[at].members[k - 1].id) == Some(stream));
            pinned_stands(st, stream.target_sink_name);
        },
        RenderedModel::Group { group, expanded } => {
            let key = row.id->AppGroup_0;
            let at = group_of_row(st, levels, commands, r, key);
            let g = groups[at];
            members_are_streams(st, at, 0);
            pinned_stands(st, app_group::shared_target(g.members));
            assert forall|m: int| 0 <= m < g.members.len() implies gesture_laws::in_row(
                ordered::lookup(st.streams, (#[trigger] g.members[m]).id),
                key,
            ) by {
                assert(ordered::lookup(st.streams, g.members[m].id) == Some(g.members[m]));
            }
            if forall|id: u32|
                gesture_laws::in_row(#[trigger] ordered::lookup(st.streams, id), key)
                    ==> ordered::lookup(st.streams, id)->Some_0.target_sink_name == target {
                assert forall|m: int| 0 <= m < g.members.len() implies (
                #[trigger] g.members[m]).target_sink_name == target by {
                    assert(gesture_laws::in_row(
                        ordered::lookup(st.streams, g.members[m].id),
                        key,
                    ));
                }
                assert(app_group::shared_target(g.members) == target);
            }
            if row.target_sink is Some {
                assert forall|id: u32|
                    gesture_laws::in_row(#[trigger] ordered::lookup(st.streams, id), key) implies
                    stands_for_pin(
                    st,
                    ordered::lookup(st.streams, id)->Some_0.target_sink_name,
                    row.target_sink,
                ) by {
                    members_are_streams(st, at, id);
                    let s = ordered::lookup(st.streams, id)->Some_0;
                    let m = choose|m: int| 0 <= m < g.members.len() && g.members[m] == s;
                    assert(g.members[m].target_sink_name == g.members[0].target_sink_name);
                }
            }
        },
    }
}

} // verus!
