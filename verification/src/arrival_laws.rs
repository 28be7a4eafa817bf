//! What becomes of a stream that arrives, and of the rows it finds there.

use crate::domain::{Stream, StreamKind, StreamView};
use crate::ordered;
use crate::profile::{AppSettingsView, PendingView};
use crate::server_laws;
use crate::server_laws::Asked;
use crate::state;
use crate::state::{AppView, CommandView, Message, Work, WorkerEvent};
use vstd::prelude::*;

verus! {

/// Whether the stream in place `i` is a remembered row of the application that a
/// fresh stream belongs to.
pub open spec fn remembered(st: AppView, s: StreamView, i: int) -> bool {
    &&& 0 <= i < st.streams.len()
    &&& st.tombstoned.contains(st.streams[i].0)
    &&& st.streams[i].0 != s.id
    &&& s.identity() is Some
    &&& st.streams[i].1.identity() == s.identity()
}

/// Whether nothing is remembered of the application a fresh stream belongs to, or
/// the stream is an event sound.
pub open spec fn unremembered(st: AppView, s: StreamView) -> bool {
    s.ephemeral() || forall|i: int| 0 <= i < st.streams.len() ==> !#[trigger] remembered(st, s, i)
}

proof fn first_stale(st: AppView, s: StreamView, n: int, i: int)
    requires
        0 <= n <= st.streams.len(),
        remembered(st, s, i),
        i < n,
        forall|k: int| 0 <= k < i ==> !#[trigger] remembered(st, s, k),
    ensures
        ({
            let rows = state::stale_rows(st, s.id, s.identity()->Some_0, n);
            rows.len() > 0 && rows[0] == st.streams[i].0
        }),
    decreases n,
{
    if i == n - 1 {
        no_stale(st, s, n - 1);
    } else {
        first_stale(st, s, n - 1, i);
    }
}

proof fn no_stale(st: AppView, s: StreamView, n: int)
    requires
        0 <= n <= st.streams.len(),
        s.identity() is Some,
        forall|k: int| 0 <= k < n ==> !#[trigger] remembered(st, s, k),
    ensures
        state::stale_rows(st, s.id, s.identity()->Some_0, n).len() == 0,
    decreases n,
{
    if n > 0 {
        no_stale(st, s, n - 1);
        assert(!remembered(st, s, n - 1));
    }
}

proof fn stale_is_remembered(st: AppView, s: StreamView, n: int, id: u32)
    requires
        0 <= n <= st.streams.len(),
        s.identity() is Some,
        state::stale_rows(st, s.id, s.identity()->Some_0, n).contains(id),
    ensures
        exists|i: int| 0 <= i < n && #[trigger] remembered(st, s, i) && st.streams[i].0 == id,
    decreases n,
{
    if n > 0 {
        let rows = state::stale_rows(st, s.id, s.identity()->Some_0, n);
        let rest = state::stale_rows(st, s.id, s.identity()->Some_0, n - 1);
        let k = choose|k: int| 0 <= k < rows.len() && rows[k] == id;
        if k < rest.len() {
            assert(rest[k] == id);
            stale_is_remembered(st, s, n - 1, id);
            let i = choose|i: int|
                0 <= i < n - 1 && #[trigger] remembered(st, s, i) && st.streams[i].0 == id;
            assert(remembered(st, s, i));
        } else {
            assert(remembered(st, s, n - 1));
        }
    }
}

proof fn remembered_is_stale(st: AppView, s: StreamView, n: int, i: int)
    requires
        0 <= i < n <= st.streams.len(),
        remembered(st, s, i),
    ensures
        state::stale_rows(st, s.id, s.identity()->Some_0, n).contains(st.streams[i].0),
    decreases n,
{
    let rows = state::stale_rows(st, s.id, s.identity()->Some_0, n);
    let rest = state::stale_rows(st, s.id, s.identity()->Some_0, n - 1);
    if i == n - 1 {
        assert(rows[rows.len() - 1] == st.streams[i].0);
    } else {
        remembered_is_stale(st, s, n - 1, i);
        let k = choose|k: int| 0 <= k < rest.len() && rest[k] == st.streams[i].0;
        assert(rows[k] == st.streams[i].0);
    }
}

/// Taking rows out leaves the others.
proof fn eviction_takes(st: AppView, ids: Seq<u32>, n: int, id: u32)
    requires
        state::streams_wf(st.streams),
        0 <= n <= ids.len(),
    ensures
        state::streams_wf(state::evicted(st, ids, n).streams),
        state::evicted(st, ids, n).pending == st.pending,
        ids.take(n).contains(id) ==> ordered::lookup(state::evicted(st, ids, n).streams, id)
            is None && !state::evicted(st, ids, n).tombstoned.contains(id),
        !ids.take(n).contains(id) ==> ordered::lookup(state::evicted(st, ids, n).streams, id)
            == ordered::lookup(st.streams, id) && state::evicted(st, ids, n).tombstoned.contains(id)
            == st.tombstoned.contains(id),
    decreases n,
{
    if n > 0 {
        eviction_takes(st, ids, n - 1, id);
        let rest = state::evicted(st, ids, n - 1);
        state::without_stream_wf(rest.streams, ids[n - 1]);
        ordered::lookup_of_without(rest.streams, ids[n - 1], id);
        assert(ids.take(n) =~= ids.take(n - 1).push(ids[n - 1]));
        let a = ids.take(n - 1);
        let b = ids.take(n);
        if a.contains(id) {
            let k = choose|k: int| 0 <= k < a.len() && a[k] == id;
            assert(b[k] == id);
        }
        if ids[n - 1] == id {
            assert(b[n - 1] == id);
        }
        if b.contains(id) {
            let k = choose|k: int| 0 <= k < b.len() && b[k] == id;
            if k < n - 1 {
                assert(a[k] == id);
            }
        }
    }
}

/// The state a fresh stream finds once it has its place, before any preset.
pub open spec fn here(w: Work, s: StreamView) -> Work {
    let stale = state::taken_over(w.state, s);
    w.with(
        state::placed(
            state::evicted(w.state, stale, stale.len() as int),
            s,
            state::first_place(w.state.app_order, stale, stale.len() as int),
        ),
    )
}

/// Whether a row goes when a fresh stream comes.
pub open spec fn goes(st: AppView, s: StreamView, id: u32) -> bool {
    !s.ephemeral() && exists|i: int| #[trigger] remembered(st, s, i) && st.streams[i].0 == id
}

proof fn arrival_finds(w: Work, s: StreamView, id: u32)
    requires
        w.state.wf(),
    ensures
        ({
            let h = here(w, s);
            &&& state::streams_wf(h.state.streams)
            &&& h.state.pending == w.state.pending
            &&& h.commands == w.commands
            &&& h.connected == w.connected
            &&& ordered::lookup(h.state.streams, s.id) == Some(s)
            &&& !h.state.tombstoned.contains(s.id)
            &&& id != s.id && goes(w.state, s, id) ==> ordered::lookup(h.state.streams, id) is None
                && !h.state.tombstoned.contains(id)
            &&& id != s.id && !goes(w.state, s, id) ==> ordered::lookup(h.state.streams, id)
                == ordered::lookup(w.state.streams, id) && h.state.tombstoned.contains(id)
                == w.state.tombstoned.contains(id)
        }),
{
    let st = w.state;
    let stale = state::taken_over(st, s);
    let n = stale.len() as int;
    eviction_takes(st, stale, n, id);
    eviction_takes(st, stale, n, s.id);
    assert(stale.take(n) =~= stale);
    let out = state::evicted(st, stale, n);
    state::put_stream_wf(out.streams, s);
    ordered::lookup_of_put::<u32, StreamView>(out.streams, s.id, s, id);
    ordered::lookup_of_put::<u32, StreamView>(out.streams, s.id, s, s.id);
    if s.identity() is Some && !s.ephemeral() {
        let len = st.streams.len() as int;
        if stale.contains(id) {
            stale_is_remembered(st, s, len, id);
        }
        if goes(st, s, id) {
            let i = choose|i: int| #[trigger] remembered(st, s, i) && st.streams[i].0 == id;
            remembered_is_stale(st, s, len, i);
        }
    } else {
        assert(!stale.contains(id));
        assert(!goes(st, s, id));
    }
}

proof fn replay_is_set(w: Work, at: u32, row: StreamView, id: u32)
    requires
        state::streams_wf(w.state.streams),
    ensures
        ({
            let after = state::replayed(w, at, row);
            let a = server_laws::asked(w.commands, id);
            &&& server_laws::only_streams_set(after, w)
            &&& ordered::lookup(after.state.streams, id) == match ordered::lookup(
                w.state.streams,
                id,
            ) {
                Some(s) if id == at => Some(
                    StreamView {
                        volume: row.volume,
                        muted: row.muted,
                        target_sink_name: row.target_sink_name,
                        ..s
                    },
                ),
                other => other,
            }
            &&& server_laws::asked(after.commands, id) == if w.connected && id == at {
                Asked {
                    volume: Some(row.volume),
                    mute: Some(row.muted),
                    route: if row.target_sink_name is Some {
                        Some(row.target_sink_name)
                    } else {
                        a.route
                    },
                    ..a
                }
            } else {
                a
            }
        }),
{
    let next = match ordered::lookup(w.state.streams, at) {
        Some(s) => {
            let set = StreamView {
                volume: row.volume,
                muted: row.muted,
                target_sink_name: row.target_sink_name,
                ..s
            };
            server_laws::one_is_set(w.state.streams, at, set, id);
            w.with(state::with_stream(w.state, at, set))
        },
        None => w,
    };
    let loud = CommandView::SetVolume { node_id: at, volume: row.volume };
    let hush = CommandView::SetMute { node_id: at, mute: row.muted };
    let route = CommandView::SetStreamTarget {
        node_id: at,
        sink_node_name: row.target_sink_name,
    };
    server_laws::sent_is_heard(next, loud, id);
    server_laws::sent_is_heard(next.send(loud), hush, id);
    server_laws::sent_is_heard(next.send(loud).send(hush), route, id);
}

proof fn app_preset_is_given(w: Work, at: u32, key: Seq<char>, id: u32)
    requires
        state::streams_wf(w.state.streams),
    ensures
        ({
            let after = state::app_consumed(w, at, key);
            let a = server_laws::asked(w.commands, id);
            &&& state::streams_wf(after.state.streams)
            &&& after.state.tombstoned == w.state.tombstoned
            &&& after.connected == w.connected
            &&& after.state.pending == (PendingView {
                apps: ordered::without(w.state.pending.apps, key),
                ..w.state.pending
            })
            &&& match ordered::lookup(w.state.pending.apps, key) {
                Some(kept) => {
                    &&& ordered::lookup(after.state.streams, id) == match ordered::lookup(
                        w.state.streams,
                        id,
                    ) {
                        Some(s) if id == at => Some(
                            StreamView {
                                volume: kept.volume,
                                muted: kept.muted,
                                target_sink_name: kept.target_sink_name,
                                ..s
                            },
                        ),
                        other => other,
                    }
                    &&& server_laws::asked(after.commands, id) == if server_laws::reaches(
                        w,
                        at,
                        id,
                    ) {
                        Asked {
                            volume: Some(kept.volume),
                            mute: Some(kept.muted),
                            route: Some(kept.target_sink_name),
                            ..a
                        }
                    } else {
                        a
                    }
                },
                None => {
                    &&& after.state.streams == w.state.streams
                    &&& after.commands == w.commands
                },
            }
        }),
{
    let taken = w.with(
        AppView {
            pending: PendingView {
                apps: ordered::without(w.state.pending.apps, key),
                ..w.state.pending
            },
            ..w.state
        },
    );
    if let Some(kept) = ordered::lookup(w.state.pending.apps, key) {
        server_laws::app_is_set(taken, at, kept, id);
    }
}

/// An application that comes back gets back what its row was left at: the fresh
/// stream takes on the remembered row's gain, mute and pin, and the server is asked
/// for just these. An unpinned row asks for no route, lest it clear the one the
/// stream came back with. The row it takes over is gone, and rows it does not take
/// over stay.
pub proof fn a_returning_app_is_as_it_was_left(
    w: Work,
    x: Stream,
    event: WorkerEvent,
    i: int,
    other: u32,
)
    requires
        event == WorkerEvent::StreamAdded(x) || event == WorkerEvent::StreamUpdated(x),
        w.state.wf(),
        w.commands.len() == 0,
        !x@.ephemeral(),
        remembered(w.state, x@, i),
        forall|k: int| 0 <= k < i ==> !#[trigger] remembered(w.state, x@, k),
        other != x@.id,
    ensures
        ({
            let s = x@;
            let (_, row) = w.state.streams[i];
            let after = state::step(w, Message::Worker(event));
            let a = server_laws::asked(after.commands, s.id);
            &&& ordered::lookup(after.state.streams, s.id) == Some(
                StreamView {
                    volume: row.volume,
                    muted: row.muted,
                    target_sink_name: row.target_sink_name,
                    ..s
                },
            )
            &&& !after.state.tombstoned.contains(s.id)
            &&& w.connected ==> a.volume == Some(row.volume) && a.mute == Some(row.muted)
            &&& w.connected && row.target_sink_name is Some ==> a.route == Some(
                row.target_sink_name,
            )
            &&& row.target_sink_name is None && ordered::lookup(
                w.state.pending.apps,
                s.identity()->Some_0,
            ) is None ==> a.route is None
            &&& goes(w.state, s, other) ==> ordered::lookup(after.state.streams, other) is None
                && !after.state.tombstoned.contains(other)
            &&& !goes(w.state, s, other) ==> ordered::lookup(after.state.streams, other)
                == ordered::lookup(w.state.streams, other) && after.state.tombstoned.contains(other)
                == w.state.tombstoned.contains(other)
        }),
{
    let s = x@;
    let st = w.state;
    let stale = state::taken_over(st, s);
    let key = s.identity()->Some_0;
    first_stale(st, s, st.streams.len() as int, i);
    ordered::lookup_at::<u32, StreamView>(st.streams, i);
    arrival_finds(w, s, other);
    let h = here(w, s);
    assert(s.kind == StreamKind::Application);
    app_preset_is_given(h, s.id, key, s.id);
    app_preset_is_given(h, s.id, key, other);
    let consumed = state::app_consumed(h, s.id, key);
    assert(state::pending_consumed(h, s.id) == consumed);
    replay_is_set(consumed, s.id, st.streams[i].1, s.id);
    replay_is_set(consumed, s.id, st.streams[i].1, other);
}

proof fn output_preset_is_given(w: Work, at: u32, name: Seq<char>, id: u32)
    requires
        state::streams_wf(w.state.streams),
    ensures
        ({
            let after = state::sink_consumed(w, at, name);
            let a = server_laws::asked(w.commands, id);
            let b = server_laws::asked(after.commands, id);
            let kept = ordered::lookup(w.state.pending.sinks, name);
            &&& after.state.tombstoned == w.state.tombstoned
            &&& ordered::lookup(after.state.streams, id) == match (
                ordered::lookup(w.state.streams, id),
                kept,
            ) {
                (Some(s), Some(kept)) if id == at => Some(
                    StreamView { volume: kept.volume, muted: kept.muted, ..s },
                ),
                (other, _) => other,
            }
            &&& server_laws::reaches(w, at, id) && kept is Some ==> b.volume == Some(
                kept->Some_0.volume,
            ) && b.mute == Some(kept->Some_0.muted)
            &&& !server_laws::reaches(w, at, id) || kept is None ==> b.volume == a.volume && b.mute
                == a.mute
            &&& b.route == a.route
            &&& b.input == a.input
            &&& b.output == if w.connected && w.state.pending.default_sink == Some(name) {
                Some(name)
            } else {
                a.output
            }
        }),
{
    let taken = w.with(
        AppView {
            pending: PendingView {
                sinks: ordered::without(w.state.pending.sinks, name),
                ..w.state.pending
            },
            ..w.state
        },
    );
    let applied = match ordered::lookup(w.state.pending.sinks, name) {
        Some(settings) => {
            server_laws::device_is_set(taken, at, settings, id);
            state::device_applied(taken, at, settings)
        },
        None => taken,
    };
    let done = applied.with(
        AppView {
            pending: PendingView { default_sink: None, ..applied.state.pending },
            ..applied.state
        },
    );
    server_laws::sent_is_heard(done, CommandView::SetDefaultSink { node_name: name }, id);
}

proof fn input_preset_is_given(w: Work, at: u32, name: Seq<char>, id: u32)
    requires
        state::streams_wf(w.state.streams),
    ensures
        ({
            let after = state::source_consumed(w, at, name);
            let a = server_laws::asked(w.commands, id);
            let b = server_laws::asked(after.commands, id);
            let kept = ordered::lookup(w.state.pending.sources, name);
            &&& after.state.tombstoned == w.state.tombstoned
            &&& ordered::lookup(after.state.streams, id) == match (
                ordered::lookup(w.state.streams, id),
                kept,
            ) {
                (Some(s), Some(kept)) if id == at => Some(
                    StreamView { volume: kept.volume, muted: kept.muted, ..s },
                ),
                (other, _) => other,
            }
            &&& server_laws::reaches(w, at, id) && kept is Some ==> b.volume == Some(
                kept->Some_0.volume,
            ) && b.mute == Some(kept->Some_0.muted)
            &&& !server_laws::reaches(w, at, id) || kept is None ==> b.volume == a.volume && b.mute
                == a.mute
            &&& b.route == a.route
            &&& b.output == a.output
            &&& b.input == if w.connected && w.state.pending.default_source == Some(name) {
                Some(name)
            } else {
                a.input
            }
        }),
{
    let taken = w.with(
        AppView {
            pending: PendingView {
                sources: ordered::without(w.state.pending.sources, name),
                ..w.state.pending
            },
            ..w.state
        },
    );
    let applied = match ordered::lookup(w.state.pending.sources, name) {
        Some(settings) => {
            server_laws::device_is_set(taken, at, settings, id);
            state::device_applied(taken, at, settings)
        },
        None => taken,
    };
    let done = applied.with(
        AppView {
            pending: PendingView { default_source: None, ..applied.state.pending },
            ..applied.state
        },
    );
    server_laws::sent_is_heard(done, CommandView::SetDefaultSource { node_name: name }, id);
}

/// The gain, mute and, of an application, route that waits for a stream.
pub open spec fn waiting_for(pending: PendingView, s: StreamView) -> Option<AppSettingsView> {
    match (s.kind, s.node_name, s.identity()) {
        (StreamKind::Application, _, Some(key)) => ordered::lookup(pending.apps, key),
        (StreamKind::Sink, Some(name), _) => match ordered::lookup(pending.sinks, name) {
            Some(kept) => Some(
                AppSettingsView {
                    volume: kept.volume,
                    muted: kept.muted,
                    target_sink_name: s.target_sink_name,
                },
            ),
            None => None,
        },
        (StreamKind::Source, Some(name), _) => match ordered::lookup(pending.sources, name) {
            Some(kept) => Some(
                AppSettingsView {
                    volume: kept.volume,
                    muted: kept.muted,
                    target_sink_name: s.target_sink_name,
                },
            ),
            None => None,
        },
        _ => None,
    }
}

/// A stream that takes over no row shows as it was reported, and the server is asked
/// nothing of it, unless a preset waited for it: then it shows the preset and the
/// server is asked for that. No other stream changes.
pub proof fn an_arrival_shows_its_preset_or_itself(
    w: Work,
    x: Stream,
    event: WorkerEvent,
    other: u32,
)
    requires
        event == WorkerEvent::StreamAdded(x) || event == WorkerEvent::StreamUpdated(x),
        w.state.wf(),
        w.commands.len() == 0,
        unremembered(w.state, x@),
        other != x@.id,
    ensures
        ({
            let s = x@;
            let after = state::step(w, Message::Worker(event));
            let a = server_laws::asked(after.commands, s.id);
            &&& ordered::lookup(after.state.streams, s.id) == match waiting_for(
                w.state.pending,
                s,
            ) {
                Some(kept) => Some(
                    StreamView {
                        volume: kept.volume,
                        muted: kept.muted,
                        target_sink_name: kept.target_sink_name,
                        ..s
                    },
                ),
                None => Some(s),
            }
            &&& !after.state.tombstoned.contains(s.id)
            &&& match waiting_for(w.state.pending, s) {
                Some(kept) if w.connected => a.volume == Some(kept.volume) && a.mute == Some(
                    kept.muted,
                ) && (s.kind == StreamKind::Application ==> a.route == Some(
                    kept.target_sink_name,
                )),
                _ => a.volume is None && a.mute is None && a.route is None,
            }
            &&& w.connected && s.kind == StreamKind::Sink && s.node_name is Some ==> a.output
                == if w.state.pending.default_sink == s.node_name {
                s.node_name
            } else {
                None
            }
            &&& w.connected && s.kind == StreamKind::Source && s.node_name is Some ==> a.input
                == if w.state.pending.default_source == s.node_name {
                s.node_name
            } else {
                None
            }
            &&& ordered::lookup(after.state.streams, other) == ordered::lookup(
                w.state.streams,
                other,
            )
            &&& after.state.tombstoned.contains(other) == w.state.tombstoned.contains(other)
        }),
{
    let s = x@;
    let st = w.state;
    let h = here(w, s);
    arrival_finds(w, s, other);
    if !s.ephemeral() && s.identity() is Some {
        no_stale(st, s, st.streams.len() as int);
    }
    assert(state::taken_over(st, s).len() == 0);
    assert(!goes(st, s, other));
    assert(server_laws::asked(w.commands, s.id) == server_laws::nothing_asked());
    match s.kind {
        StreamKind::Sink => {
            if let Some(name) = s.node_name {
                output_preset_is_given(h, s.id, name, s.id);
                output_preset_is_given(h, s.id, name, other);
            }
        },
        StreamKind::Source => {
            if let Some(name) = s.node_name {
                input_preset_is_given(h, s.id, name, s.id);
                input_preset_is_given(h, s.id, name, other);
            }
        },
        StreamKind::Application => {
            if let Some(key) = s.identity() {
                app_preset_is_given(h, s.id, key, s.id);
                app_preset_is_given(h, s.id, key, other);
            }
        },
    }
}

/// A stream that goes away takes nothing with it but itself: every other stream
/// stays as it is, and the server is asked for nothing.
pub proof fn a_departure_touches_no_other(w: Work, id: u32, other: u32)
    requires
        other != id,
    ensures
        ({
            let after = state::step(w, Message::Worker(WorkerEvent::StreamRemoved(id)));
            &&& ordered::lookup(after.state.streams, other) == ordered::lookup(
                w.state.streams,
                other,
            )
            &&& after.state.tombstoned.contains(other) == w.state.tombstoned.contains(other)
            &&& after.commands == w.commands
        }),
{
    ordered::lookup_of_without(w.state.streams, id, other);
}

/// A stream of an application that was never seen goes behind every other in the strip:
/// it gets the number that is due, and the next one is due after it. One that was seen
/// keeps its number.
pub proof fn a_new_stream_goes_last(w: Work, x: Stream, event: WorkerEvent)
    requires
        event == WorkerEvent::StreamAdded(x) || event == WorkerEvent::StreamUpdated(x),
        w.state.wf(),
        unremembered(w.state, x@),
        x@.kind == StreamKind::Application,
    ensures
        ({
            let after = state::step(w, Message::Worker(event)).state;
            &&& after.app_order.contains_key(x@.id)
            &&& w.state.app_order.contains_key(x@.id) ==> after.app_order == w.state.app_order
                && after.app_seq == w.state.app_seq
            &&& !w.state.app_order.contains_key(x@.id) ==> after.app_order[x@.id]
                == w.state.app_seq && (w.state.app_seq < u64::MAX ==> after.app_seq
                == w.state.app_seq + 1)
            &&& forall|other: u32|
                other != x@.id && w.state.app_order.contains_key(other) ==> #[trigger] after
                    .app_order.contains_key(other) && after.app_order[other]
                    == w.state.app_order[other]
        }),
{
    let s = x@;
    let st = w.state;
    let h = here(w, s);
    arrival_finds(w, s, s.id);
    if !s.ephemeral() && s.identity() is Some {
        no_stale(st, s, st.streams.len() as int);
    }
    assert(state::taken_over(st, s).len() == 0);
    assert(state::evicted(st, state::taken_over(st, s), 0) == st);
    if let Some(key) = s.identity() {
        app_preset_keeps_places(h, s.id, key);
    }
}

proof fn app_preset_keeps_places(w: Work, at: u32, key: Seq<char>)
    requires
        state::streams_wf(w.state.streams),
    ensures
        state::app_consumed(w, at, key).state.app_order == w.state.app_order,
        state::app_consumed(w, at, key).state.app_seq == w.state.app_seq,
{
}

} // verus!
