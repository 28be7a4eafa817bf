//! What holds of every snapshot.

use crate::domain::{StreamKind, StreamView};
use crate::ordered;
use crate::state;
use crate::state::AppView;
use crate::ui::layout::RowIdView;
use crate::view::app_group;
use crate::view::app_group::{GroupModel, RenderedModel, RouteEntries, RouteModel};
use crate::view::rows::LevelEntries;
use crate::view::snapshot;
use crate::view::snapshot::{MeterRoutes, SnapshotModel};
use vstd::prelude::*;

verus! {

// --- Devices ------------------------------------------------------------------------------

/// Devices come by form, then by id.
pub open spec fn devices_in_order(list: Seq<StreamView>) -> bool {
    forall|i: int, j: int|
        0 <= i < j < list.len() ==> !snapshot::device_before(
            #[trigger] list[j],
            #[trigger] list[i],
        )
}

proof fn placed_keeps(list: Seq<StreamView>, s: StreamView)
    ensures
        snapshot::device_placed(list, s).to_multiset() == list.to_multiset().insert(s),
    decreases list.len(),
{
    broadcast use vstd::seq_lib::group_to_multiset_ensures;

    if list.len() > 0 && snapshot::device_before(s, list.last()) {
        let rest = list.drop_last();
        placed_keeps(rest, s);
        assert(rest.push(list.last()) =~= list);
        assert(snapshot::device_placed(list, s).to_multiset() =~= list.to_multiset().insert(s));
    }
}

proof fn placed_orders(list: Seq<StreamView>, s: StreamView)
    requires
        devices_in_order(list),
    ensures
        devices_in_order(snapshot::device_placed(list, s)),
    decreases list.len(),
{
    broadcast use vstd::seq_lib::group_to_multiset_ensures;

    let out = snapshot::device_placed(list, s);
    if list.len() == 0 || !snapshot::device_before(s, list.last()) {
        assert forall|i: int, j: int| 0 <= i < j < out.len() implies !snapshot::device_before(
            #[trigger] out[j],
            #[trigger] out[i],
        ) by {
            if j < list.len() {
                assert(!snapshot::device_before(list[j], list[i]));
            } else if i < list.len() - 1 {
                assert(!snapshot::device_before(list[list.len() - 1], list[i]));
            }
        }
    } else {
        let rest = list.drop_last();
        assert forall|i: int, j: int| 0 <= i < j < rest.len() implies !snapshot::device_before(
            #[trigger] rest[j],
            #[trigger] rest[i],
        ) by {
            assert(!snapshot::device_before(list[j], list[i]));
        }
        placed_orders(rest, s);
        placed_keeps(rest, s);
        let inner = snapshot::device_placed(rest, s);
        assert forall|i: int, j: int| 0 <= i < j < out.len() implies !snapshot::device_before(
            #[trigger] out[j],
            #[trigger] out[i],
        ) by {
            if j < inner.len() {
                assert(!snapshot::device_before(inner[j], inner[i]));
            } else {
                assert(inner.to_multiset().count(inner[i]) > 0);
                if inner[i] != s {
                    assert(rest.contains(inner[i]));
                    let k = choose|k: int| 0 <= k < rest.len() && rest[k] == inner[i];
                    assert(!snapshot::device_before(list[list.len() - 1], list[k]));
                }
            }
        }
    }
}

proof fn ordered_keeps(list: Seq<StreamView>, n: int)
    requires
        0 <= n <= list.len(),
    ensures
        snapshot::device_order(list, n).to_multiset() == list.take(n).to_multiset(),
        devices_in_order(snapshot::device_order(list, n)),
    decreases n,
{
    broadcast use vstd::seq_lib::group_to_multiset_ensures;

    if n > 0 {
        ordered_keeps(list, n - 1);
        let before = snapshot::device_order(list, n - 1);
        placed_keeps(before, list[n - 1]);
        placed_orders(before, list[n - 1]);
        assert(list.take(n - 1).push(list[n - 1]) =~= list.take(n));
    } else {
        assert(list.take(0) =~= Seq::empty());
    }
}

/// Every device has one column, in the order of forms and then of ids.
pub proof fn devices_stand_in_order(streams: Seq<(u32, StreamView)>, kind: StreamKind)
    ensures
        snapshot::devices(streams, kind).to_multiset() == snapshot::of_kind(
            streams,
            kind,
            streams.len() as int,
        ).to_multiset(),
        devices_in_order(snapshot::devices(streams, kind)),
{
    let list = snapshot::of_kind(streams, kind, streams.len() as int);
    ordered_keeps(list, list.len() as int);
    assert(list.take(list.len() as int) =~= list);
}

// --- Meter routes -------------------------------------------------------------------------

/// Whether one of the first `n` streams has an id.
pub open spec fn holds(list: Seq<StreamView>, n: int, id: u32) -> bool {
    exists|k: int| 0 <= k < n && (#[trigger] list[k]).id == id
}

/// A stream is alone under its id, among the first `n`.
pub open spec fn alone(list: Seq<StreamView>, n: int, s: StreamView) -> bool {
    forall|k: int| 0 <= k < n ==> (#[trigger] list[k]).id == s.id ==> list[k] == s
}

/// The device of an id, among the first `n`, has one row.
pub open spec fn heads(list: Seq<StreamView>, n: int, id: u32, row: RowIdView) -> bool {
    forall|k: int|
        0 <= k < n ==> (#[trigger] list[k]).id == id ==> snapshot::device_id(list[k]) == row
}

proof fn device_lookup(
    routes: MeterRoutes,
    list: Seq<StreamView>,
    n: int,
    id: u32,
    row: RowIdView,
)
    requires
        ordered::ascending::<u32, Seq<RowIdView>>(routes),
        0 <= n <= list.len(),
        heads(list, n, id, row),
    ensures
        ordered::ascending::<u32, Seq<RowIdView>>(snapshot::device_routes(routes, list, n)),
        ordered::lookup(snapshot::device_routes(routes, list, n), id) == if holds(list, n, id) {
            Some(seq![row])
        } else {
            ordered::lookup(routes, id)
        },
    decreases n,
{
    if n > 0 {
        device_lookup(routes, list, n - 1, id, row);
        let before = snapshot::device_routes(routes, list, n - 1);
        let one = list[n - 1];
        let rows = seq![snapshot::device_id(one)];
        ordered::put_ascends::<u32, Seq<RowIdView>>(before, one.id, rows);
        ordered::lookup_of_put::<u32, Seq<RowIdView>>(before, one.id, rows, id);
        if holds(list, n - 1, id) {
            let k = choose|k: int| 0 <= k < n - 1 && (#[trigger] list[k]).id == id;
            assert(list[k].id == id && 0 <= k < n);
        }
        if one.id != id && holds(list, n, id) {
            let k = choose|k: int| 0 <= k < n && (#[trigger] list[k]).id == id;
            assert(list[k].id == id && k < n - 1);
        }
    }
}

proof fn member_lookup(routes: RouteEntries, g: GroupModel, open: bool, n: int, id: u32)
    requires
        ordered::ascending::<u32, RouteModel>(routes),
        0 <= n <= g.members.len(),
    ensures
        ordered::ascending::<u32, RouteModel>(
            app_group::with_member_routes(routes, g, open, n),
        ),
        ordered::lookup(app_group::with_member_routes(routes, g, open, n), id) == if holds(
            g.members,
            n,
            id,
        ) {
            Some(RouteModel { group_key: g.key, has_member_row: open })
        } else {
            ordered::lookup(routes, id)
        },
    decreases n,
{
    if n > 0 {
        member_lookup(routes, g, open, n - 1, id);
        let before = app_group::with_member_routes(routes, g, open, n - 1);
        let one = g.members[n - 1];
        let route = RouteModel { group_key: g.key, has_member_row: open };
        ordered::put_ascends::<u32, RouteModel>(before, one.id, route);
        ordered::lookup_of_put::<u32, RouteModel>(before, one.id, route, id);
        if holds(g.members, n - 1, id) {
            let k = choose|k: int| 0 <= k < n - 1 && (#[trigger] g.members[k]).id == id;
            assert(g.members[k].id == id && 0 <= k < n);
        }
        if one.id != id && holds(g.members, n, id) {
            let k = choose|k: int| 0 <= k < n && (#[trigger] g.members[k]).id == id;
            assert(g.members[k].id == id && k < n - 1);
        }
    }
}

/// An id is a member's of no group but the one at `at`.
pub open spec fn only_at(groups: Seq<GroupModel>, at: int, id: u32) -> bool {
    forall|i: int|
        0 <= i < groups.len() && i != at ==> !holds(
            (#[trigger] groups[i]).members,
            groups[i].members.len() as int,
            id,
        )
}

proof fn plan_lookup(
    groups: Seq<GroupModel>,
    expanded: Set<Seq<char>>,
    n: int,
    at: int,
    id: u32,
)
    requires
        0 <= n <= groups.len(),
        only_at(groups, at, id),
    ensures
        ordered::ascending::<u32, RouteModel>(app_group::plan_routes(groups, expanded, n)),
        ordered::lookup(app_group::plan_routes(groups, expanded, n), id) == if 0 <= at < n
            && holds(groups[at].members, groups[at].members.len() as int, id) {
            Some(
                RouteModel {
                    group_key: groups[at].key,
                    has_member_row: app_group::opened(groups[at], expanded),
                },
            )
        } else {
            None
        },
    decreases n,
{
    if n > 0 {
        plan_lookup(groups, expanded, n - 1, at, id);
        let g = groups[n - 1];
        member_lookup(
            app_group::plan_routes(groups, expanded, n - 1),
            g,
            app_group::opened(g, expanded),
            g.members.len() as int,
            id,
        );
    }
}

proof fn app_lookup(routes: MeterRoutes, apps: RouteEntries, n: int, id: u32)
    requires
        ordered::ascending::<u32, Seq<RowIdView>>(routes),
        0 <= n <= apps.len(),
    ensures
        ordered::ascending::<u32, Seq<RowIdView>>(snapshot::app_routes(routes, apps, n)),
        ordered::lookup(snapshot::app_routes(routes, apps, n), id) == match ordered::lookup(
            apps.take(n),
            id,
        ) {
            Some(route) => Some(snapshot::app_route(id, route)),
            None => ordered::lookup(routes, id),
        },
    decreases n,
{
    if n > 0 {
        app_lookup(routes, apps, n - 1, id);
        let before = snapshot::app_routes(routes, apps, n - 1);
        let (one, route) = apps[n - 1];
        let rows = snapshot::app_route(one, route);
        ordered::put_ascends::<u32, Seq<RowIdView>>(before, one, rows);
        ordered::lookup_of_put::<u32, Seq<RowIdView>>(before, one, rows, id);
        assert(apps.take(n).drop_last() =~= apps.take(n - 1));
        assert(apps.take(n).last() == apps[n - 1]);
    } else {
        assert(apps.take(0) =~= Seq::empty());
    }
}

/// The streams of a kind are those among all of them.
pub proof fn kinds_are_streams(streams: Seq<(u32, StreamView)>, kind: StreamKind, n: int)
    requires
        0 <= n <= streams.len(),
    ensures
        forall|k: int|
            0 <= k < snapshot::of_kind(streams, kind, n).len() ==> among(
                streams,
                n,
                #[trigger] snapshot::of_kind(streams, kind, n)[k],
            ) && snapshot::of_kind(streams, kind, n)[k].kind == kind,
        forall|i: int|
            0 <= i < n && (#[trigger] streams[i]).1.kind == kind ==> snapshot::of_kind(
                streams,
                kind,
                n,
            ).contains(streams[i].1),
    decreases n,
{
    if n > 0 {
        kinds_are_streams(streams, kind, n - 1);
        let before = snapshot::of_kind(streams, kind, n - 1);
        let after = snapshot::of_kind(streams, kind, n);
        assert forall|k: int| 0 <= k < after.len() implies among(streams, n, #[trigger] after[k])
            && after[k].kind == kind by {
            if k < before.len() {
                assert(among(streams, n - 1, before[k]));
                let i = choose|i: int| 0 <= i < n - 1 && (#[trigger] streams[i]).1 == before[k];
                assert(streams[i].1 == after[k] && 0 <= i < n);
            } else {
                assert(streams[n - 1].1 == after[k]);
            }
        }
        assert forall|i: int| 0 <= i < n && (#[trigger] streams[i]).1.kind
            == kind implies after.contains(streams[i].1) by {
            if i < n - 1 {
                assert(before.contains(streams[i].1));
                let k = choose|k: int| 0 <= k < before.len() && before[k] == streams[i].1;
                assert(after[k] == streams[i].1);
            } else {
                assert(after[before.len() as int] == streams[i].1);
            }
        }
    }
}

/// Whether a stream is one of the first `n`.
pub open spec fn among(streams: Seq<(u32, StreamView)>, n: int, s: StreamView) -> bool {
    exists|i: int| 0 <= i < n && (#[trigger] streams[i]).1 == s
}

/// Two streams of one id are the same one.
proof fn ids_are_unique(streams: Seq<(u32, StreamView)>, i: int, j: int)
    requires
        state::streams_wf(streams),
        0 <= i < streams.len(),
        0 <= j < streams.len(),
        streams[i].1.id == streams[j].1.id,
    ensures
        i == j,
{
    assert(streams[i].0 == streams[i].1.id);
    assert(streams[j].0 == streams[j].1.id);
}

/// A stream of a kind is alone under its id there, and one of another kind is not
/// there at all.
pub proof fn kinds_hold_ids(streams: Seq<(u32, StreamView)>, kind: StreamKind, s: StreamView)
    requires
        state::streams_wf(streams),
        among(streams, streams.len() as int, s),
    ensures
        ({
            let list = snapshot::of_kind(streams, kind, streams.len() as int);
            &&& alone(list, list.len() as int, s)
            &&& holds(list, list.len() as int, s.id) == (s.kind == kind)
            &&& list.contains(s) == (s.kind == kind)
        }),
{
    let n = streams.len() as int;
    let list = snapshot::of_kind(streams, kind, n);
    let at = choose|i: int| 0 <= i < n && (#[trigger] streams[i]).1 == s;
    kinds_are_streams(streams, kind, n);
    assert forall|k: int| 0 <= k < list.len() && (#[trigger] list[k]).id == s.id implies list[k]
        == s by {
        let i = choose|i: int| 0 <= i < n && (#[trigger] streams[i]).1 == list[k];
        ids_are_unique(streams, i, at);
    }
    if s.kind == kind {
        assert(streams[at].1.kind == kind);
        let k = choose|k: int| 0 <= k < list.len() && list[k] == s;
        assert(list[k].id == s.id);
    }
}

/// The same of the devices of a kind, in the order of their columns.
pub proof fn devices_hold_ids(streams: Seq<(u32, StreamView)>, kind: StreamKind, s: StreamView)
    requires
        state::streams_wf(streams),
        among(streams, streams.len() as int, s),
    ensures
        ({
            let list = snapshot::devices(streams, kind);
            &&& alone(list, list.len() as int, s)
            &&& holds(list, list.len() as int, s.id) == (s.kind == kind)
            &&& list.contains(s) == (s.kind == kind)
        }),
{
    broadcast use vstd::seq_lib::group_to_multiset_ensures;

    let plain = snapshot::of_kind(streams, kind, streams.len() as int);
    let list = snapshot::devices(streams, kind);
    kinds_hold_ids(streams, kind, s);
    devices_stand_in_order(streams, kind);
    assert forall|k: int| 0 <= k < list.len() implies plain.contains(#[trigger] list[k]) by {
        assert(list.to_multiset().count(list[k]) > 0);
    }
    assert forall|k: int| 0 <= k < list.len() && (#[trigger] list[k]).id == s.id implies list[k]
        == s by {
        let m = choose|m: int| 0 <= m < plain.len() && plain[m] == list[k];
        assert(plain[m].id == s.id);
    }
    if s.kind == kind {
        assert(plain.to_multiset().count(s) > 0);
        assert(list.contains(s));
        let k = choose|k: int| 0 <= k < list.len() && list[k] == s;
        assert(list[k].id == s.id);
    } else if holds(list, list.len() as int, s.id) {
        let k = choose|k: int| 0 <= k < list.len() && (#[trigger] list[k]).id == s.id;
        assert(plain.contains(list[k]));
    } else if list.contains(s) {
        let k = choose|k: int| 0 <= k < list.len() && list[k] == s;
        assert(list[k].id == s.id);
    }
}

/// An id that no stream has, no device and no stream of any kind has.
proof fn absent_ids(streams: Seq<(u32, StreamView)>, kind: StreamKind, id: u32)
    requires
        forall|i: int| 0 <= i < streams.len() ==> (#[trigger] streams[i]).1.id != id,
    ensures
        ({
            let list = snapshot::of_kind(streams, kind, streams.len() as int);
            !holds(list, list.len() as int, id)
        }),
        ({
            let list = snapshot::devices(streams, kind);
            !holds(list, list.len() as int, id)
        }),
{
    broadcast use vstd::seq_lib::group_to_multiset_ensures;

    let n = streams.len() as int;
    let plain = snapshot::of_kind(streams, kind, n);
    let list = snapshot::devices(streams, kind);
    kinds_are_streams(streams, kind, n);
    devices_stand_in_order(streams, kind);
    assert forall|k: int| 0 <= k < plain.len() implies (#[trigger] plain[k]).id != id by {
        assert(among(streams, n, plain[k]));
        let i = choose|i: int| 0 <= i < n && (#[trigger] streams[i]).1 == plain[k];
        assert(streams[i].1.id != id);
    }
    assert forall|k: int| 0 <= k < list.len() implies (#[trigger] list[k]).id != id by {
        assert(list.to_multiset().count(list[k]) > 0);
        assert(plain.contains(list[k]));
        let m = choose|m: int| 0 <= m < plain.len() && plain[m] == list[k];
        assert(plain[m].id != id);
    }
}

/// A row's streams are those among all of them.
pub proof fn rows_are_streams(list: Seq<StreamView>, key: Seq<char>, n: int)
    requires
        0 <= n <= list.len(),
    ensures
        forall|k: int|
            0 <= k < app_group::row_streams(list, key, n).len() ==> list.contains(
                #[trigger] app_group::row_streams(list, key, n)[k],
            ) && app_group::row_streams(list, key, n)[k].row_key() == key,
        forall|i: int|
            0 <= i < n && (#[trigger] list[i]).row_key() == key ==> app_group::row_streams(
                list,
                key,
                n,
            ).contains(list[i]),
    decreases n,
{
    if n > 0 {
        rows_are_streams(list, key, n - 1);
        let before = app_group::row_streams(list, key, n - 1);
        let after = app_group::row_streams(list, key, n);
        assert forall|k: int| 0 <= k < after.len() implies list.contains(#[trigger] after[k])
            && after[k].row_key() == key by {
            if k < before.len() {
                assert(list.contains(before[k]));
            } else {
                assert(list[n - 1] == after[k]);
            }
        }
        assert forall|i: int| 0 <= i < n && (#[trigger] list[i]).row_key()
            == key implies after.contains(list[i]) by {
            if i < n - 1 {
                assert(before.contains(list[i]));
                let k = choose|k: int| 0 <= k < before.len() && before[k] == list[i];
                assert(after[k] == list[i]);
            } else {
                assert(after[before.len() as int] == list[i]);
            }
        }
    }
}

/// The application streams.
pub open spec fn apps_of(st: AppView) -> Seq<StreamView> {
    snapshot::of_kind(st.streams, StreamKind::Application, st.streams.len() as int)
}

/// The rows a stream's peaks feed: a device's own; an application's, and beside it
/// the stream's own while that application has several and is expanded.
pub open spec fn fed_rows(st: AppView, s: StreamView) -> Seq<RowIdView> {
    if s.kind == StreamKind::Application {
        let apps = apps_of(st);
        let mates = app_group::row_streams(apps, s.row_key(), apps.len() as int);
        let group = seq![RowIdView::AppGroup(s.row_key())];
        if st.expanded_groups.contains(s.row_key()) && mates.len() > 1 {
            group.push(RowIdView::AppMember(s.id))
        } else {
            group
        }
    } else {
        seq![snapshot::device_id(s)]
    }
}

/// The column an application stream stands in, and no other.
pub proof fn groups_hold_ids(st: AppView, s: StreamView) -> (at: int)
    requires
        state::streams_wf(st.streams),
        among(st.streams, st.streams.len() as int, s),
        s.kind == StreamKind::Application,
    ensures
        ({
            let groups = app_group::columns(apps_of(st), st.app_order);
            &&& 0 <= at < groups.len()
            &&& groups[at].key == s.row_key()
            &&& groups[at].members == app_group::row_streams(
                apps_of(st),
                s.row_key(),
                apps_of(st).len() as int,
            )
            &&& groups[at].members.contains(s)
            &&& holds(groups[at].members, groups[at].members.len() as int, s.id)
            &&& only_at(groups, at, s.id)
        }),
{
    let apps = apps_of(st);
    let n = apps.len() as int;
    let groups = app_group::columns(apps, st.app_order);
    app_group::columns_split_the_streams(apps, st.app_order);
    kinds_hold_ids(st.streams, StreamKind::Application, s);
    let own = choose|k: int| 0 <= k < n && apps[k] == s;
    assert(app_group::has_key(groups, apps[own].row_key()));
    let at = choose|i: int| 0 <= i < groups.len() && (#[trigger] groups[i]).key == s.row_key();
    rows_are_streams(apps, s.row_key(), n);
    let members = groups[at].members;
    assert(members.contains(apps[own]));
    let m = choose|m: int| 0 <= m < members.len() && members[m] == s;
    assert(members[m].id == s.id);
    assert forall|i: int| 0 <= i < groups.len() && i != at implies !holds(
        (#[trigger] groups[i]).members,
        groups[i].members.len() as int,
        s.id,
    ) by {
        let others = groups[i].members;
        if holds(others, others.len() as int, s.id) {
            let k = choose|k: int| 0 <= k < others.len() && (#[trigger] others[k]).id == s.id;
            rows_are_streams(apps, groups[i].key, n);
            assert(others == app_group::row_streams(apps, groups[i].key, n));
            assert(apps.contains(others[k]));
            let j = choose|j: int| 0 <= j < n && apps[j] == others[k];
            assert(apps[j].id == s.id);
            assert(others[k] == s);
            assert(groups[i].key == groups[at].key);
        }
    }
    at
}

/// An id that is no application's is no member's.
proof fn groups_without(st: AppView, id: u32)
    requires
        !holds(apps_of(st), apps_of(st).len() as int, id),
    ensures
        only_at(app_group::columns(apps_of(st), st.app_order), -1, id),
{
    let apps = apps_of(st);
    let n = apps.len() as int;
    let groups = app_group::columns(apps, st.app_order);
    app_group::columns_split_the_streams(apps, st.app_order);
    assert forall|i: int| 0 <= i < groups.len() && i != -1 implies !holds(
        (#[trigger] groups[i]).members,
        groups[i].members.len() as int,
        id,
    ) by {
        let members = groups[i].members;
        if holds(members, members.len() as int, id) {
            let k = choose|k: int| 0 <= k < members.len() && (#[trigger] members[k]).id == id;
            rows_are_streams(apps, groups[i].key, n);
            assert(members == app_group::row_streams(apps, groups[i].key, n));
            assert(apps.contains(members[k]));
            let j = choose|j: int| 0 <= j < n && apps[j] == members[k];
            assert(apps[j].id == id);
        }
    }
}

/// What a snapshot's routes hold under an id, from what its lists hold.
proof fn routes_lookup(st: AppView, id: u32, row: RowIdView, at: int)
    requires
        heads(
            snapshot::devices(st.streams, StreamKind::Sink),
            snapshot::devices(st.streams, StreamKind::Sink).len() as int,
            id,
            row,
        ),
        heads(
            snapshot::devices(st.streams, StreamKind::Source),
            snapshot::devices(st.streams, StreamKind::Source).len() as int,
            id,
            row,
        ),
        only_at(app_group::columns(apps_of(st), st.app_order), at, id),
    ensures
        ({
            let sinks = snapshot::devices(st.streams, StreamKind::Sink);
            let sources = snapshot::devices(st.streams, StreamKind::Source);
            let groups = app_group::columns(apps_of(st), st.app_order);
            forall|levels: LevelEntries, commands: Seq<Seq<char>>|
                ordered::lookup(
                    (#[trigger] snapshot::snapshot_of(st, levels, commands)).meter_routes,
                    id,
                ) == if 0 <= at < groups.len() && holds(
                    groups[at].members,
                    groups[at].members.len() as int,
                    id,
                ) {
                    Some(
                        snapshot::app_route(
                            id,
                            RouteModel {
                                group_key: groups[at].key,
                                has_member_row: app_group::opened(groups[at], st.expanded_groups),
                            },
                        ),
                    )
                } else if holds(sinks, sinks.len() as int, id) || holds(
                    sources,
                    sources.len() as int,
                    id,
                ) {
                    Some(seq![row])
                } else {
                    None
                }
        }),
{
    let sinks = snapshot::devices(st.streams, StreamKind::Sink);
    let sources = snapshot::devices(st.streams, StreamKind::Source);
    let groups = app_group::columns(apps_of(st), st.app_order);
    let none = Seq::<(u32, Seq<RowIdView>)>::empty();
    device_lookup(none, sinks, sinks.len() as int, id, row);
    let first = snapshot::device_routes(none, sinks, sinks.len() as int);
    device_lookup(first, sources, sources.len() as int, id, row);
    let both = snapshot::device_routes(first, sources, sources.len() as int);
    let n = groups.len() as int;
    plan_lookup(groups, st.expanded_groups, n, at, id);
    let apps = app_group::plan_routes(groups, st.expanded_groups, n);
    app_lookup(both, apps, apps.len() as int, id);
    assert(apps.take(apps.len() as int) =~= apps);
}

/// A stream's peaks reach its own rows and no others, and a node that is no stream
/// reaches none.
pub proof fn peaks_reach_their_own_rows(
    st: AppView,
    levels: LevelEntries,
    commands: Seq<Seq<char>>,
    id: u32,
)
    requires
        state::streams_wf(st.streams),
    ensures
        ordered::lookup(snapshot::snapshot_of(st, levels, commands).meter_routes, id)
            == match ordered::lookup(st.streams, id) {
            Some(s) => Some(fed_rows(st, s)),
            None => None,
        },
{
    let streams = st.streams;
    let n = streams.len() as int;
    if exists|i: int| 0 <= i < n && (#[trigger] streams[i]).0 == id {
        let i = choose|i: int| 0 <= i < n && (#[trigger] streams[i]).0 == id;
        ordered::lookup_at::<u32, StreamView>(streams, i);
        let s = streams[i].1;
        assert(s.id == id);
        assert(among(streams, n, s));
        let row = snapshot::device_id(s);
        devices_hold_ids(streams, StreamKind::Sink, s);
        devices_hold_ids(streams, StreamKind::Source, s);
        if s.kind == StreamKind::Application {
            let at = groups_hold_ids(st, s);
            routes_lookup(st, id, row, at);
        } else {
            kinds_hold_ids(streams, StreamKind::Application, s);
            groups_without(st, id);
            routes_lookup(st, id, row, -1);
        }
    } else {
        ordered::lookup_absent(streams, id);
        assert forall|i: int| 0 <= i < n implies (#[trigger] streams[i]).1.id != id by {
            assert(streams[i].0 != id);
        }
        absent_ids(streams, StreamKind::Sink, id);
        absent_ids(streams, StreamKind::Source, id);
        absent_ids(streams, StreamKind::Application, id);
        groups_without(st, id);
        routes_lookup(st, id, RowIdView::Sink(id), -1);
    }
}

// --- What is fed is on show ---------------------------------------------------------------

/// Whether a snapshot has a row.
pub open spec fn has_row(snap: SnapshotModel, row: RowIdView) -> bool {
    ||| exists|i: int| 0 <= i < snap.sinks.len() && (#[trigger] snap.sinks[i]).id == row
    ||| exists|i: int| 0 <= i < snap.sources.len() && (#[trigger] snap.sources[i]).id == row
    ||| exists|i: int| 0 <= i < snap.app_rows.len() && (#[trigger] snap.app_rows[i]).id == row
}

/// A group's rows are among those of all groups.
pub proof fn planned_rows(groups: Seq<GroupModel>, expanded: Set<Seq<char>>, n: int, at: int, k: int)
    requires
        0 <= at < n <= groups.len(),
        0 <= k < app_group::group_rows(
            groups[at],
            app_group::opened(groups[at], expanded),
        ).len(),
    ensures
        app_group::plan_rows(groups, expanded, n).contains(
            app_group::group_rows(groups[at], app_group::opened(groups[at], expanded))[k],
        ),
    decreases n,
{
    let row = app_group::group_rows(groups[at], app_group::opened(groups[at], expanded))[k];
    let before = app_group::plan_rows(groups, expanded, n - 1);
    let after = app_group::plan_rows(groups, expanded, n);
    if at == n - 1 {
        assert(after[before.len() + k] == row);
    } else {
        planned_rows(groups, expanded, n - 1, at, k);
        let i = choose|i: int| 0 <= i < before.len() && before[i] == row;
        assert(after[i] == row);
    }
}

/// Every row that peaks feed is one of the snapshot's.
pub proof fn peaks_feed_rows_that_are_there(
    st: AppView,
    levels: LevelEntries,
    commands: Seq<Seq<char>>,
    id: u32,
    row: RowIdView,
)
    requires
        state::streams_wf(st.streams),
        ordered::lookup(
            snapshot::snapshot_of(st, levels, commands).meter_routes,
            id,
        ) matches Some(rows) && rows.contains(row),
    ensures
        has_row(snapshot::snapshot_of(st, levels, commands), row),
{
    let streams = st.streams;
    let n = streams.len() as int;
    let snap = snapshot::snapshot_of(st, levels, commands);
    peaks_reach_their_own_rows(st, levels, commands, id);
    if forall|i: int| 0 <= i < n ==> (#[trigger] streams[i]).0 != id {
        ordered::lookup_absent(streams, id);
    }
    let i = choose|i: int| 0 <= i < n && (#[trigger] streams[i]).0 == id;
    ordered::lookup_at::<u32, StreamView>(streams, i);
    let s = streams[i].1;
    assert(among(streams, n, s));
    if s.kind == StreamKind::Application {
        let at = groups_hold_ids(st, s);
        let groups = app_group::columns(apps_of(st), st.app_order);
        let g = groups[at];
        let open = app_group::opened(g, st.expanded_groups);
        let all = app_group::plan_rows(groups, st.expanded_groups, groups.len() as int);
        let own = app_group::group_rows(g, open);
        if row == RowIdView::AppGroup(s.row_key()) {
            planned_rows(groups, st.expanded_groups, groups.len() as int, at, 0);
            let r = choose|r: int| 0 <= r < all.len() && all[r] == own[0];
            assert(own[0] == RenderedModel::Group { group: g, expanded: open });
            assert(snap.app_rows[r].id == row);
        } else {
            assert(open);
            let k = choose|k: int| 0 <= k < g.members.len() && g.members[k] == s;
            planned_rows(groups, st.expanded_groups, groups.len() as int, at, k + 1);
            let r = choose|r: int| 0 <= r < all.len() && all[r] == own[k + 1];
            assert(own[k + 1] == RenderedModel::Member { stream: s });
            assert(snap.app_rows[r].id == row);
        }
    } else {
        assert(row == snapshot::device_id(s));
        devices_hold_ids(streams, s.kind, s);
        let list = snapshot::devices(streams, s.kind);
        let k = choose|k: int| 0 <= k < list.len() && list[k] == s;
        if s.kind == StreamKind::Sink {
            assert(snap.sinks[k].id == row);
        } else {
            assert(snap.sources[k].id == row);
        }
    }
}

} // verus!
