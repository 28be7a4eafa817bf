//! What the sound server is told: that what it last heard of a node is what the
//! node's row shows.

use crate::domain::{Gain, StreamKind, StreamView};
use crate::ordered;
use crate::profile::{AppEntries, AppSettingsView, DeviceEntries, DeviceSettings};
use crate::state;
use crate::state::{AppView, CommandView, Message, Work};
use vstd::prelude::*;

verus! {

// --- What was asked last ------------------------------------------------------------------

/// The last gain asked for a node.
pub open spec fn asked_volume(commands: Seq<CommandView>, id: u32) -> Option<Gain>
    decreases commands.len(),
{
    if commands.len() == 0 {
        None
    } else {
        match commands.last() {
            CommandView::SetVolume { node_id, volume } if node_id == id => Some(volume),
            _ => asked_volume(commands.drop_last(), id),
        }
    }
}

/// The last mute asked for a node.
pub open spec fn asked_mute(commands: Seq<CommandView>, id: u32) -> Option<bool>
    decreases commands.len(),
{
    if commands.len() == 0 {
        None
    } else {
        match commands.last() {
            CommandView::SetMute { node_id, mute } if node_id == id => Some(mute),
            _ => asked_mute(commands.drop_last(), id),
        }
    }
}

/// The last route asked for a node: a sink, or none in particular.
pub open spec fn asked_route(commands: Seq<CommandView>, id: u32) -> Option<Option<Seq<char>>>
    decreases commands.len(),
{
    if commands.len() == 0 {
        None
    } else {
        match commands.last() {
            CommandView::SetStreamTarget { node_id, sink_node_name } if node_id == id => Some(
                sink_node_name,
            ),
            _ => asked_route(commands.drop_last(), id),
        }
    }
}

/// The last device asked to be the default output.
pub open spec fn asked_output(commands: Seq<CommandView>) -> Option<Seq<char>>
    decreases commands.len(),
{
    if commands.len() == 0 {
        None
    } else {
        match commands.last() {
            CommandView::SetDefaultSink { node_name } => Some(node_name),
            _ => asked_output(commands.drop_last()),
        }
    }
}

/// The last device asked to be the default input.
pub open spec fn asked_input(commands: Seq<CommandView>) -> Option<Seq<char>>
    decreases commands.len(),
{
    if commands.len() == 0 {
        None
    } else {
        match commands.last() {
            CommandView::SetDefaultSource { node_name } => Some(node_name),
            _ => asked_input(commands.drop_last()),
        }
    }
}

/// Everything asked last of a node, and of the defaults.
#[verifier::ext_equal]
pub struct Asked {
    pub volume: Option<Gain>,
    pub mute: Option<bool>,
    pub route: Option<Option<Seq<char>>>,
    pub output: Option<Seq<char>>,
    pub input: Option<Seq<char>>,
}

pub open spec fn asked(commands: Seq<CommandView>, id: u32) -> Asked {
    Asked {
        volume: asked_volume(commands, id),
        mute: asked_mute(commands, id),
        route: asked_route(commands, id),
        output: asked_output(commands),
        input: asked_input(commands),
    }
}

pub open spec fn nothing_asked() -> Asked {
    Asked { volume: None, mute: None, route: None, output: None, input: None }
}

/// One more command heard.
pub open spec fn heard(a: Asked, command: CommandView, id: u32) -> Asked {
    match command {
        CommandView::SetVolume { node_id, volume } => if node_id == id {
            Asked { volume: Some(volume), ..a }
        } else {
            a
        },
        CommandView::SetMute { node_id, mute } => if node_id == id {
            Asked { mute: Some(mute), ..a }
        } else {
            a
        },
        CommandView::SetStreamTarget { node_id, sink_node_name } => if node_id == id {
            Asked { route: Some(sink_node_name), ..a }
        } else {
            a
        },
        CommandView::SetDefaultSink { node_name } => Asked { output: Some(node_name), ..a },
        CommandView::SetDefaultSource { node_name } => Asked { input: Some(node_name), ..a },
    }
}

pub proof fn sent_is_heard(w: Work, command: CommandView, id: u32)
    ensures
        w.connected ==> asked(w.send(command).commands, id) == heard(
            asked(w.commands, id),
            command,
            id,
        ),
        !w.connected ==> w.send(command) == w,
{
    assert(w.commands.push(command).drop_last() =~= w.commands);
}

proof fn nothing_is_asked(commands: Seq<CommandView>, id: u32)
    requires
        commands.len() == 0,
    ensures
        asked(commands, id) == nothing_asked(),
{
}

// --- Who the streams are ------------------------------------------------------------------

/// Whether a stream is another but for its gain, mute and route.
pub open spec fn same_one(a: StreamView, b: StreamView) -> bool {
    a == (StreamView {
        volume: a.volume,
        muted: a.muted,
        target_sink_name: a.target_sink_name,
        ..b
    })
}

/// Whether two lists are of the same streams, whatever those are set to.
pub open spec fn same_ones(a: Seq<(u32, StreamView)>, b: Seq<(u32, StreamView)>) -> bool {
    &&& a.len() == b.len()
    &&& forall|i: int|
        0 <= i < a.len() ==> (#[trigger] a[i]).0 == b[i].0 && same_one(a[i].1, b[i].1)
}

/// A stream that is found stands somewhere in the list.
pub proof fn found_stands(streams: Seq<(u32, StreamView)>, id: u32) -> (i: int)
    requires
        ordered::lookup(streams, id) is Some,
    ensures
        0 <= i < streams.len(),
        streams[i].0 == id,
        streams[i].1 == ordered::lookup(streams, id)->Some_0,
    decreases streams.len(),
{
    if streams.last().0 == id {
        streams.len() - 1
    } else {
        found_stands(streams.drop_last(), id)
    }
}

/// A found stream set to something: the others stay, and all stay who they are.
pub proof fn one_is_set(streams: Seq<(u32, StreamView)>, at: u32, s: StreamView, id: u32)
    requires
        state::streams_wf(streams),
        ordered::lookup(streams, at) is Some,
        same_one(s, ordered::lookup(streams, at)->Some_0),
    ensures
        ({
            let after = ordered::put::<u32, StreamView>(streams, at, s);
            &&& state::streams_wf(after)
            &&& same_ones(after, streams)
            &&& ordered::lookup(after, id) == if id == at {
                Some(s)
            } else {
                ordered::lookup(streams, id)
            }
        }),
{
    let i = found_stands(streams, at);
    state::stream_id(streams, at);
    assert(s.id == at);
    state::put_stream_wf(streams, s);
    ordered::put_replaces::<u32, StreamView>(streams, s, i);
    ordered::lookup_of_put::<u32, StreamView>(streams, at, s, id);
    let after = ordered::put::<u32, StreamView>(streams, at, s);
    assert forall|k: int| 0 <= k < after.len() implies (#[trigger] after[k]).0 == streams[k].0
        && same_one(after[k].1, streams[k].1) by {
        assert(after[k] == if k == i {
            (at, s)
        } else {
            streams[k]
        });
    }
}

/// What is left as it is by setting streams.
pub open spec fn only_streams_set(after: Work, w: Work) -> bool {
    &&& state::streams_wf(after.state.streams)
    &&& same_ones(after.state.streams, w.state.streams)
    &&& after.state == (AppView { streams: after.state.streams, ..w.state })
    &&& after.connected == w.connected
    &&& after.saves == w.saves
    &&& after.overtaken == w.overtaken
}

// --- What setting a stream does -------------------------------------------------------------

pub open spec fn reaches(w: Work, at: u32, id: u32) -> bool {
    w.connected && id == at && !w.state.tombstoned.contains(at)
}

pub proof fn volume_is_set(w: Work, at: u32, volume: Gain, id: u32)
    requires
        state::streams_wf(w.state.streams),
    ensures
        ({
            let after = state::volume_set(w, at, volume);
            &&& only_streams_set(after, w)
            &&& ordered::lookup(after.state.streams, id) == match ordered::lookup(
                w.state.streams,
                id,
            ) {
                Some(s) if id == at => Some(StreamView { volume, ..s }),
                other => other,
            }
            &&& asked(after.commands, id) == if reaches(w, at, id) {
                Asked { volume: Some(volume), ..asked(w.commands, id) }
            } else {
                asked(w.commands, id)
            }
        }),
{
    if let Some(s) = ordered::lookup(w.state.streams, at) {
        one_is_set(w.state.streams, at, StreamView { volume, ..s }, id);
    }
    let next = match ordered::lookup(w.state.streams, at) {
        Some(s) => w.with(state::with_stream(w.state, at, StreamView { volume, ..s })),
        None => w,
    };
    sent_is_heard(next, CommandView::SetVolume { node_id: at, volume }, id);
}

pub proof fn mute_is_set(w: Work, at: u32, mute: bool, id: u32)
    requires
        state::streams_wf(w.state.streams),
    ensures
        ({
            let after = state::mute_set(w, at, mute);
            &&& only_streams_set(after, w)
            &&& ordered::lookup(after.state.streams, id) == match ordered::lookup(
                w.state.streams,
                id,
            ) {
                Some(s) if id == at => Some(StreamView { muted: mute, ..s }),
                other => other,
            }
            &&& asked(after.commands, id) == match ordered::lookup(w.state.streams, id) {
                Some(s) if reaches(w, at, id) => Asked {
                    mute: Some(mute),
                    volume: if mute {
                        asked(w.commands, id).volume
                    } else {
                        Some(s.volume)
                    },
                    ..asked(w.commands, id)
                },
                _ => asked(w.commands, id),
            }
        }),
{
    if let Some(s) = ordered::lookup(w.state.streams, at) {
        one_is_set(w.state.streams, at, StreamView { muted: mute, ..s }, id);
        let next = w.with(state::with_stream(w.state, at, StreamView { muted: mute, ..s }));
        let sent = next.send(CommandView::SetMute { node_id: at, mute });
        sent_is_heard(next, CommandView::SetMute { node_id: at, mute }, id);
        sent_is_heard(sent, CommandView::SetVolume { node_id: at, volume: s.volume }, id);
    }
}

pub proof fn route_is_set(w: Work, at: u32, target: Option<Seq<char>>, id: u32)
    requires
        state::streams_wf(w.state.streams),
    ensures
        ({
            let after = state::target_set(w, at, target);
            &&& only_streams_set(after, w)
            &&& ordered::lookup(after.state.streams, id) == match ordered::lookup(
                w.state.streams,
                id,
            ) {
                Some(s) if id == at => Some(StreamView { target_sink_name: target, ..s }),
                other => other,
            }
            &&& asked(after.commands, id) == if reaches(w, at, id) {
                Asked { route: Some(target), ..asked(w.commands, id) }
            } else {
                asked(w.commands, id)
            }
        }),
{
    if let Some(s) = ordered::lookup(w.state.streams, at) {
        one_is_set(w.state.streams, at, StreamView { target_sink_name: target, ..s }, id);
    }
    let next = match ordered::lookup(w.state.streams, at) {
        Some(s) => w.with(
            state::with_stream(w.state, at, StreamView { target_sink_name: target, ..s }),
        ),
        None => w,
    };
    sent_is_heard(
        next,
        CommandView::SetStreamTarget { node_id: at, sink_node_name: target },
        id,
    );
}

pub proof fn device_is_set(w: Work, at: u32, settings: DeviceSettings, id: u32)
    requires
        state::streams_wf(w.state.streams),
    ensures
        ({
            let after = state::device_applied(w, at, settings);
            &&& only_streams_set(after, w)
            &&& ordered::lookup(after.state.streams, id) == match ordered::lookup(
                w.state.streams,
                id,
            ) {
                Some(s) if id == at => Some(
                    StreamView { volume: settings.volume, muted: settings.muted, ..s },
                ),
                other => other,
            }
            &&& asked(after.commands, id) == if reaches(w, at, id) {
                Asked {
                    volume: Some(settings.volume),
                    mute: Some(settings.muted),
                    ..asked(w.commands, id)
                }
            } else {
                asked(w.commands, id)
            }
        }),
{
    let next = match ordered::lookup(w.state.streams, at) {
        Some(s) => {
            one_is_set(
                w.state.streams,
                at,
                StreamView { volume: settings.volume, muted: settings.muted, ..s },
                id,
            );
            w.with(
                state::with_stream(
                    w.state,
                    at,
                    state::leveled(s, settings.volume, settings.muted),
                ),
            )
        },
        None => w,
    };
    let loud = CommandView::SetVolume { node_id: at, volume: settings.volume };
    let hush = CommandView::SetMute { node_id: at, mute: settings.muted };
    sent_is_heard(next, loud, id);
    sent_is_heard(next.send(loud), hush, id);
    sent_is_heard(next.send(loud).send(hush), loud, id);
}

pub proof fn app_is_set(w: Work, at: u32, settings: AppSettingsView, id: u32)
    requires
        state::streams_wf(w.state.streams),
    ensures
        ({
            let after = state::app_applied(w, at, settings);
            &&& only_streams_set(after, w)
            &&& ordered::lookup(after.state.streams, id) == match ordered::lookup(
                w.state.streams,
                id,
            ) {
                Some(s) if id == at => Some(
                    StreamView {
                        volume: settings.volume,
                        muted: settings.muted,
                        target_sink_name: settings.target_sink_name,
                        ..s
                    },
                ),
                other => other,
            }
            &&& asked(after.commands, id) == if reaches(w, at, id) {
                Asked {
                    volume: Some(settings.volume),
                    mute: Some(settings.muted),
                    route: Some(settings.target_sink_name),
                    ..asked(w.commands, id)
                }
            } else {
                asked(w.commands, id)
            }
        }),
{
    let next = match ordered::lookup(w.state.streams, at) {
        Some(s) => {
            let set = StreamView {
                volume: settings.volume,
                muted: settings.muted,
                target_sink_name: settings.target_sink_name,
                ..s
            };
            one_is_set(w.state.streams, at, set, id);
            w.with(state::with_stream(w.state, at, set))
        },
        None => w,
    };
    let loud = CommandView::SetVolume { node_id: at, volume: settings.volume };
    let hush = CommandView::SetMute { node_id: at, mute: settings.muted };
    let route = CommandView::SetStreamTarget {
        node_id: at,
        sink_node_name: settings.target_sink_name,
    };
    sent_is_heard(next, loud, id);
    sent_is_heard(next.send(loud), hush, id);
    sent_is_heard(next.send(loud).send(hush), route, id);
}

// --- What a row shows is what was asked --------------------------------------------------------

/// Whether the server was told what a row shows: what it heard last of the node is
/// what the row shows now; on a live row with a server there, whatever it did not
/// hear of is as it was `before`; and of a row that is only remembered it heard
/// nothing, nor of any row where it is not there.
pub open spec fn told(before: Option<StreamView>, w: Work, id: u32) -> bool {
    let a = asked(w.commands, id);
    &&& match (before, ordered::lookup(w.state.streams, id)) {
        (Some(was), Some(now)) => {
            &&& same_one(now, was)
            &&& a.volume matches Some(v) ==> v == now.volume
            &&& a.mute matches Some(m) ==> m == now.muted
            &&& a.route matches Some(r) ==> r == now.target_sink_name
            &&& w.connected && !w.state.tombstoned.contains(id) ==> {
                &&& a.volume is None ==> now.volume == was.volume
                &&& a.mute is None ==> now.muted == was.muted
                &&& a.route is None ==> now.target_sink_name == was.target_sink_name
            }
        },
        (None, None) => true,
        _ => false,
    }
    &&& w.state.tombstoned.contains(id) || !w.connected ==> a.volume is None && a.mute is None
        && a.route is None
}

pub proof fn same_ones_on(a: Work, b: Work, c: Work)
    requires
        only_streams_set(a, b),
        only_streams_set(b, c),
    ensures
        only_streams_set(a, c),
{
    assert forall|i: int| 0 <= i < a.state.streams.len() implies (#[trigger] a.state.streams[i]).0
        == c.state.streams[i].0 && same_one(a.state.streams[i].1, c.state.streams[i].1) by {
        assert(a.state.streams[i].0 == b.state.streams[i].0);
        assert(b.state.streams[i].0 == c.state.streams[i].0);
    }
}

proof fn nothing_set(w: Work)
    requires
        state::streams_wf(w.state.streams),
    ensures
        only_streams_set(w, w),
{
}

proof fn mutes_are_told(w: Work, ids: Seq<u32>, mute: bool, n: int, before: Option<StreamView>, id: u32)
    requires
        state::streams_wf(w.state.streams),
        told(before, w, id),
    ensures
        only_streams_set(state::mutes_set(w, ids, mute, n), w),
        told(before, state::mutes_set(w, ids, mute, n), id),
    decreases n,
{
    if n > 0 {
        mutes_are_told(w, ids, mute, n - 1, before, id);
        let rest = state::mutes_set(w, ids, mute, n - 1);
        mute_is_set(rest, ids[n - 1], mute, id);
        same_ones_on(state::mutes_set(w, ids, mute, n), rest, w);
    }
}

proof fn volumes_are_told(
    w: Work,
    levels: Seq<(u32, Gain)>,
    ids: Seq<u32>,
    master: Gain,
    target: Gain,
    n: int,
    before: Option<StreamView>,
    id: u32,
)
    requires
        state::streams_wf(w.state.streams),
        told(before, w, id),
    ensures
        only_streams_set(state::volumes_set(w, levels, ids, master, target, n), w),
        told(before, state::volumes_set(w, levels, ids, master, target, n), id),
    decreases n,
{
    if n > 0 {
        volumes_are_told(w, levels, ids, master, target, n - 1, before, id);
        let rest = state::volumes_set(w, levels, ids, master, target, n - 1);
        let level = state::level_of(levels, ids[n - 1], levels.len() as int);
        volume_is_set(rest, ids[n - 1], state::member_gain(level, master, target), id);
        same_ones_on(state::volumes_set(w, levels, ids, master, target, n), rest, w);
    }
}

proof fn routes_are_told(
    w: Work,
    ids: Seq<u32>,
    target: Option<Seq<char>>,
    n: int,
    before: Option<StreamView>,
    id: u32,
)
    requires
        state::streams_wf(w.state.streams),
        told(before, w, id),
    ensures
        only_streams_set(state::targets_set(w, ids, target, n), w),
        told(before, state::targets_set(w, ids, target, n), id),
    decreases n,
{
    if n > 0 {
        routes_are_told(w, ids, target, n - 1, before, id);
        let rest = state::targets_set(w, ids, target, n - 1);
        route_is_set(rest, ids[n - 1], target, id);
        same_ones_on(state::targets_set(w, ids, target, n), rest, w);
    }
}

proof fn devices_are_told(
    w: Work,
    kind: StreamKind,
    entries: DeviceEntries,
    n: int,
    before: Option<StreamView>,
    id: u32,
)
    requires
        state::streams_wf(w.state.streams),
        told(before, w, id),
    ensures
        only_streams_set(state::devices_applied(w, kind, entries, n), w),
        told(before, state::devices_applied(w, kind, entries, n), id),
    decreases n,
{
    if n > 0 {
        devices_are_told(w, kind, entries, n - 1, before, id);
        let rest = state::devices_applied(w, kind, entries, n - 1);
        if let Some(at) = state::device_named(
            rest.state.streams,
            kind,
            entries[n - 1].0,
            rest.state.streams.len() as int,
        ) {
            device_is_set(rest, at, entries[n - 1].1, id);
            same_ones_on(state::devices_applied(w, kind, entries, n), rest, w);
        }
    }
}

proof fn apps_are_told(
    w: Work,
    entries: AppEntries,
    n: int,
    before: Option<StreamView>,
    id: u32,
)
    requires
        state::streams_wf(w.state.streams),
        told(before, w, id),
    ensures
        only_streams_set(state::apps_applied(w, entries, n), w),
        told(before, state::apps_applied(w, entries, n), id),
    decreases n,
{
    if n > 0 {
        apps_are_told(w, entries, n - 1, before, id);
        let rest = state::apps_applied(w, entries, n - 1);
        if let Some(at) = state::app_named(
            rest.state.streams,
            entries[n - 1].0,
            rest.state.streams.len() as int,
        ) {
            app_is_set(rest, at, entries[n - 1].1, id);
            same_ones_on(state::apps_applied(w, entries, n), rest, w);
        }
    }
}

proof fn default_is_told(w: Work, kind: StreamKind, name: Option<Seq<char>>, before: Option<StreamView>, id: u32)
    requires
        told(before, w, id),
    ensures
        told(before, state::default_applied(w, kind, name), id),
        state::default_applied(w, kind, name).state == w.state,
        state::default_applied(w, kind, name).connected == w.connected,
{
    if let Some(node_name) = name {
        sent_is_heard(w, CommandView::SetDefaultSink { node_name }, id);
        sent_is_heard(w, CommandView::SetDefaultSource { node_name }, id);
    }
}

proof fn profile_is_told(w: Work, name: Seq<char>, before: Option<StreamView>, id: u32)
    requires
        state::streams_wf(w.state.streams),
        told(before, w, id),
    ensures
        told(before, state::profile_applied(w, name), id),
        state::streams_wf(state::profile_applied(w, name).state.streams),
{
    let w0 = state::flushed(w, name);
    assert(told(before, w0, id));
    if let Some(at) = crate::profile::find_name(w0.state.profiles.profiles, name) {
        let p = w0.state.profiles.profiles[at];
        let w1 = state::devices_applied(w0, StreamKind::Sink, p.sinks, p.sinks.len() as int);
        devices_are_told(w0, StreamKind::Sink, p.sinks, p.sinks.len() as int, before, id);
        let w2 = state::devices_applied(w1, StreamKind::Source, p.sources, p.sources.len() as int);
        devices_are_told(w1, StreamKind::Source, p.sources, p.sources.len() as int, before, id);
        let w3 = state::apps_applied(w2, p.apps, p.apps.len() as int);
        apps_are_told(w2, p.apps, p.apps.len() as int, before, id);
        default_is_told(w3, StreamKind::Sink, p.default_sink, before, id);
        let w4 = state::default_applied(w3, StreamKind::Sink, p.default_sink);
        default_is_told(w4, StreamKind::Source, p.default_source, before, id);
    }
}

/// Whether a message is no more than a change of what is on show, of the profiles or
/// of their modal, or a save.
pub open spec fn sets_no_stream(message: Message) -> bool {
    match message {
        Message::Worker(_) => false,
        Message::VolumeChanged(_, _) => false,
        Message::MuteToggled(_) => false,
        Message::GroupVolumeChanged { .. } => false,
        Message::GroupMuteToggled(_) => false,
        Message::GroupSetStreamTarget { .. } => false,
        Message::GroupClearStreamTarget(_) => false,
        Message::MakeDefault(_) => false,
        Message::MakeDefaultSource(_) => false,
        Message::MuteAllToggled => false,
        Message::SetStreamTarget { .. } => false,
        Message::ClearStreamTarget(_) => false,
        Message::ResetAllStreamTargets => false,
        Message::ApplyProfile(_) => false,
        _ => true,
    }
}

/// Messages about the window, the palette and the profiles' bookkeeping touch no
/// stream and ask the server for nothing.
pub proof fn bookkeeping_is_silent(w: Work, message: Message)
    requires
        sets_no_stream(message),
    ensures
        state::step(w, message).state.streams == w.state.streams,
        state::step(w, message).state.tombstoned == w.state.tombstoned,
        state::step(w, message).commands == w.commands,
        state::step(w, message).connected == w.connected,
{
    match message {
        Message::ModalConfirm => {
            let closed = w.with(AppView { modal: None, ..w.state });
            assert(state::step(w, message) == state::modal_confirmed(w));
        },
        _ => {},
    }
}

proof fn told_alike(a: Work, b: Work, before: Option<StreamView>, id: u32)
    requires
        told(before, a, id),
        b.state.streams == a.state.streams,
        b.state.tombstoned == a.state.tombstoned,
        b.commands == a.commands,
        b.connected == a.connected,
    ensures
        told(before, b, id),
{
}

proof fn group_volume_is_told(
    w: Work,
    key: Seq<char>,
    cubic: Gain,
    levels: Seq<(u32, Gain)>,
    before: Option<StreamView>,
    id: u32,
)
    requires
        state::streams_wf(w.state.streams),
        told(before, w, id),
    ensures
        told(before, state::group_volume_changed(w, key, cubic, levels), id),
{
    let ids = state::members(w.state.streams, key);
    let n = ids.len() as int;
    let master = state::master_level(levels, ids, n);
    let target = crate::gain::limited(cubic);
    volumes_are_told(w, levels, ids, master, target, n, before, id);
    let set = state::volumes_set(w, levels, ids, master, target, n);
    told_alike(set, state::noted(set), before, id);
}

proof fn group_mute_is_told(w: Work, key: Seq<char>, before: Option<StreamView>, id: u32)
    requires
        state::streams_wf(w.state.streams),
        told(before, w, id),
    ensures
        told(before, state::group_mute_changed(w, key), id),
{
    let ids = state::members(w.state.streams, key);
    let n = ids.len() as int;
    let mute = !state::all_muted(w.state.streams, ids);
    mutes_are_told(w, ids, mute, n, before, id);
    let set = state::mutes_set(w, ids, mute, n);
    told_alike(set, state::noted(set), before, id);
}

proof fn group_route_is_told(
    w: Work,
    ids: Seq<u32>,
    target: Option<Seq<char>>,
    before: Option<StreamView>,
    id: u32,
)
    requires
        state::streams_wf(w.state.streams),
        told(before, w, id),
    ensures
        told(before, state::noted(state::targets_set(w, ids, target, ids.len() as int)), id),
{
    let n = ids.len() as int;
    routes_are_told(w, ids, target, n, before, id);
    let set = state::targets_set(w, ids, target, n);
    told_alike(set, state::noted(set), before, id);
}

proof fn outputs_are_told(w: Work, before: Option<StreamView>, id: u32)
    requires
        state::streams_wf(w.state.streams),
        told(before, w, id),
    ensures
        told(before, state::noted(state::outputs_toggled(w)), id),
{
    let ids = state::output_ids(w.state.streams, w.state.streams.len() as int);
    let mute = !state::outputs_muted(w.state.streams);
    mutes_are_told(w, ids, mute, ids.len() as int, before, id);
    told_alike(state::outputs_toggled(w), state::noted(state::outputs_toggled(w)), before, id);
}

proof fn one_is_told(w: Work, message: Message, before: Option<StreamView>, id: u32)
    requires
        state::streams_wf(w.state.streams),
        told(before, w, id),
        message is VolumeChanged || message is MuteToggled || message is SetStreamTarget
            || message is ClearStreamTarget,
    ensures
        told(before, state::step(w, message), id),
{
    match message {
        Message::VolumeChanged(at, cubic) => {
            let volume = crate::gain::cubed(cubic);
            volume_is_set(w, at, volume, id);
            told_alike(
                state::volume_set(w, at, volume),
                state::volume_changed(w, at, cubic),
                before,
                id,
            );
        },
        Message::MuteToggled(at) => {
            if let Some(s) = ordered::lookup(w.state.streams, at) {
                mute_is_set(w, at, !s.muted, id);
                told_alike(
                    state::mute_set(w, at, !s.muted),
                    state::mute_toggled(w, at),
                    before,
                    id,
                );
            }
        },
        Message::SetStreamTarget { app_id, sink_id } => {
            if let Some(name) = state::sink_name(w.state.streams, sink_id) {
                route_is_set(w, app_id, Some(name), id);
                let set = state::target_set(w, app_id, Some(name));
                told_alike(set, state::noted(set), before, id);
            }
        },
        Message::ClearStreamTarget(app_id) => {
            route_is_set(w, app_id, None, id);
            let set = state::target_set(w, app_id, None);
            told_alike(set, state::noted(set), before, id);
        },
        _ => {},
    }
}

proof fn new_default_is_told(
    w: Work,
    at: u32,
    kind: StreamKind,
    before: Option<StreamView>,
    id: u32,
)
    requires
        told(before, w, id),
    ensures
        told(before, state::default_made(w, at, kind), id),
{
    if let Some(s) = ordered::lookup(w.state.streams, at) {
        if let Some(node_name) = s.node_name {
            sent_is_heard(w, CommandView::SetDefaultSink { node_name }, id);
            sent_is_heard(w, CommandView::SetDefaultSource { node_name }, id);
        }
    }
}

/// The server hears what the rows show: whatever a user's message changes in a
/// row's gain, mute or route is what the row's node was last asked to take on, and
/// nothing is asked of a node that its row does not show. A row that is only
/// remembered asks for nothing, and no message makes a stream or takes one away.
#[verifier::rlimit(40)]
pub proof fn the_server_hears_what_the_rows_show(w: Work, message: Message, id: u32)
    requires
        w.state.wf(),
        w.commands.len() == 0,
        !(message is Worker),
    ensures
        told(ordered::lookup(w.state.streams, id), state::step(w, message), id),
{
    let before = ordered::lookup(w.state.streams, id);
    nothing_is_asked(w.commands, id);
    nothing_set(w);
    assert(told(before, w, id));
    match message {
        Message::VolumeChanged(_, _) => one_is_told(w, message, before, id),
        Message::MuteToggled(_) => one_is_told(w, message, before, id),
        Message::SetStreamTarget { .. } => one_is_told(w, message, before, id),
        Message::ClearStreamTarget(_) => one_is_told(w, message, before, id),
        Message::GroupVolumeChanged { key, cubic, levels } => group_volume_is_told(
            w,
            key@,
            cubic,
            levels@,
            before,
            id,
        ),
        Message::GroupMuteToggled(key) => group_mute_is_told(w, key@, before, id),
        Message::GroupSetStreamTarget { key, sink_id } => {
            let ids = state::members(w.state.streams, key@);
            group_route_is_told(w, ids, state::sink_name(w.state.streams, sink_id), before, id);
        },
        Message::GroupClearStreamTarget(key) => {
            group_route_is_told(w, state::members(w.state.streams, key@), None, before, id);
        },
        Message::MakeDefault(at) => new_default_is_told(w, at, StreamKind::Sink, before, id),
        Message::MakeDefaultSource(at) => new_default_is_told(
            w,
            at,
            StreamKind::Source,
            before,
            id,
        ),
        Message::MuteAllToggled => outputs_are_told(w, before, id),
        Message::ResetAllStreamTargets => {
            let ids = state::pinned_ids(w.state.streams, w.state.streams.len() as int);
            group_route_is_told(w, ids, None, before, id);
        },
        Message::ApplyProfile(name) => profile_is_told(w, name@, before, id),
        _ => {
            bookkeeping_is_silent(w, message);
            told_alike(w, state::step(w, message), before, id);
        },
    }
}

/// What a user changes in a stream is to be saved: a message that leaves a stream other
/// than it was leaves the active profile marked, unless it was a profile that was
/// applied.
pub proof fn changes_by_hand_are_marked(w: Work, message: Message)
    requires
        w.state.wf(),
        w.state.profiles.active is Some,
        !(message is Worker),
        !(message is ApplyProfile),
        state::step(w, message).state.streams != w.state.streams,
    ensures
        state::step(w, message).state.dirty,
{
    let streams = w.state.streams;
    nothing_set(w);
    match message {
        Message::VolumeChanged(at, cubic) => volume_is_set(w, at, crate::gain::cubed(cubic), 0),
        Message::MuteToggled(at) => {
            if let Some(s) = ordered::lookup(streams, at) {
                mute_is_set(w, at, !s.muted, 0);
            }
        },
        Message::SetStreamTarget { app_id, sink_id } => {
            route_is_set(w, app_id, state::sink_name(streams, sink_id), 0);
        },
        Message::ClearStreamTarget(app_id) => route_is_set(w, app_id, None, 0),
        Message::GroupVolumeChanged { key, cubic, levels } => {
            let ids = state::members(streams, key@);
            let n = ids.len() as int;
            let master = state::master_level(levels@, ids, n);
            volumes_keep_active(w, levels@, ids, master, crate::gain::limited(cubic), n);
        },
        Message::GroupMuteToggled(key) => {
            let ids = state::members(streams, key@);
            mutes_keep_active(w, ids, !state::all_muted(streams, ids), ids.len() as int);
        },
        Message::GroupSetStreamTarget { key, sink_id } => {
            let ids = state::members(streams, key@);
            routes_keep_active(w, ids, state::sink_name(streams, sink_id), ids.len() as int);
        },
        Message::GroupClearStreamTarget(key) => {
            let ids = state::members(streams, key@);
            routes_keep_active(w, ids, None, ids.len() as int);
        },
        Message::MuteAllToggled => {
            let ids = state::output_ids(streams, streams.len() as int);
            mutes_keep_active(w, ids, !state::outputs_muted(streams), ids.len() as int);
        },
        Message::ResetAllStreamTargets => {
            let ids = state::pinned_ids(streams, streams.len() as int);
            routes_keep_active(w, ids, None, ids.len() as int);
        },
        Message::MakeDefault(_) => {},
        Message::MakeDefaultSource(_) => {},
        _ => bookkeeping_is_silent(w, message),
    }
}

proof fn mutes_keep_active(w: Work, ids: Seq<u32>, mute: bool, n: int)
    ensures
        state::mutes_set(w, ids, mute, n).state.profiles == w.state.profiles,
    decreases n,
{
    if n > 0 {
        mutes_keep_active(w, ids, mute, n - 1);
    }
}

proof fn routes_keep_active(w: Work, ids: Seq<u32>, target: Option<Seq<char>>, n: int)
    ensures
        state::targets_set(w, ids, target, n).state.profiles == w.state.profiles,
    decreases n,
{
    if n > 0 {
        routes_keep_active(w, ids, target, n - 1);
    }
}

proof fn volumes_keep_active(
    w: Work,
    levels: Seq<(u32, Gain)>,
    ids: Seq<u32>,
    master: Gain,
    target: Gain,
    n: int,
)
    ensures
        state::volumes_set(w, levels, ids, master, target, n).state.profiles == w.state.profiles,
    decreases n,
{
    if n > 0 {
        volumes_keep_active(w, levels, ids, master, target, n - 1);
    }
}

} // verus!
