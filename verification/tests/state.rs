//! The application state and what messages do to it.

use bnksound::command_palette::MAX_VISIBLE;
use bnksound::domain::{Gain, Section, Stream, StreamKind};
use bnksound::geometry::Geometry;
use bnksound::profile::{AppSettings, DeviceSettings, Profile, ProfileStore};
use bnksound::state::{
    app_row_key, boot, empty, is_ephemeral, members_of_app_row, save_failed, App, Command, Effects,
    Message, Modal, WorkerEvent,
};

const MAX_VOLUME: f32 = 1.5;

fn g(v: f32) -> Gain {
    Gain { bits: v.to_bits() }
}

fn f(g: Gain) -> f32 {
    f32::from_bits(g.bits)
}

fn linear_to_cubic(v: f32) -> f32 {
    v.cbrt()
}

fn cubic_to_linear(v: f32) -> f32 {
    v * v * v
}

/// Where each member's fader of a group stands.
fn levels(state: &App, key: &str) -> Vec<(u32, Gain)> {
    members_of_app_row(state, key)
        .into_iter()
        .map(|id| {
            let volume = state.streams.get(&id).expect("member").average_volume();
            (id, g(linear_to_cubic(f(volume))))
        })
        .collect()
}

fn boot_state() -> App {
    empty()
}

/// Reduce a message, and hand back what it asks for beyond the state.
fn update(state: &mut App, message: Message) -> Effects {
    let mut fx = Effects::new(true);
    bnksound::state::update(state, message, &mut fx);
    fx
}

fn app_stream(id: u32) -> Stream {
    Stream {
        id,
        kind: StreamKind::Application,
        name: format!("stream-{id}"),
        app_id: None,
        binary: None,
        pid: None,
        node_name: None,
        media_name: None,
        media_role: None,
        volume: g(0.5),
        muted: false,
        xdg: None,
        form: None,
        is_default: false,
        target_sink_name: None,
    }
}

#[test]
fn app_identity_prefers_app_id_over_binary() {
    let mut s = app_stream(1);
    s.app_id = Some("com.spotify.Client".into());
    s.binary = Some("spotify".into());
    assert_eq!(s.app_identity().as_deref(), Some("app:com.spotify.Client"));
}

#[test]
fn app_identity_falls_back_to_binary_then_none() {
    let mut s = app_stream(1);
    s.binary = Some("firefox".into());
    assert_eq!(s.app_identity().as_deref(), Some("bin:firefox"));

    let bare = app_stream(2);
    assert_eq!(bare.app_identity(), None);
}

#[test]
fn app_identity_is_none_for_sinks() {
    let mut s = app_stream(1);
    s.kind = StreamKind::Sink;
    s.app_id = Some("com.spotify.Client".into());
    assert_eq!(s.app_identity(), None);
}

#[test]
fn ephemeral_detects_libcanberra_roles() {
    for role in ["Event", "Notification", "Alarm"] {
        let mut s = app_stream(1);
        s.media_role = Some(role.into());
        assert!(is_ephemeral(&s), "expected {role} ephemeral");
    }
    let mut music = app_stream(1);
    music.media_role = Some("Music".into());
    assert!(!is_ephemeral(&music));
    let unset = app_stream(1);
    assert!(!is_ephemeral(&unset));
}


#[test]
fn stream_removed_for_app_stream_tombstones_instead_of_dropping() {
    let mut state = boot_state();
    let s = app_stream(42);
    state.streams.insert(s.id, s);

    update(
        &mut state,
        Message::Worker(WorkerEvent::StreamRemoved(42)),
    );
    assert!(state.tombstoned.contains(&42));
    assert!(state.streams.contains_key(&42));
}

#[test]
fn stream_removed_for_ephemeral_app_stream_drops_immediately() {
    let mut state = boot_state();
    let mut s = app_stream(42);
    s.media_role = Some("Event".into());
    state.streams.insert(s.id, s);

    update(
        &mut state,
        Message::Worker(WorkerEvent::StreamRemoved(42)),
    );
    assert!(!state.tombstoned.contains(&42));
    assert!(!state.streams.contains_key(&42));
}

#[test]
fn fresh_stream_evicts_matching_tombstone() {
    let mut state = boot_state();
    let mut old = app_stream(10);
    old.binary = Some("firefox".into());
    state.streams.insert(old.id, old);
    state.tombstoned.insert(10);

    let mut fresh = app_stream(11);
    fresh.binary = Some("firefox".into());
    update(
        &mut state,
        Message::Worker(WorkerEvent::StreamAdded(fresh)),
    );

    assert!(!state.streams.contains_key(&10));
    assert!(!state.tombstoned.contains(&10));
    assert!(state.streams.contains_key(&11));
}

#[test]
fn reconnect_inherits_tombstoned_slider_volume() {
    let mut state = boot_state();
    let mut old = app_stream(10);
    old.binary = Some("firefox".into());
    old.volume = g(0.9);
    old.muted = true;
    state.streams.insert(old.id, old);
    state.tombstoned.insert(10);

    let mut fresh = app_stream(11);
    fresh.binary = Some("firefox".into());
    fresh.volume = g(0.2);
    fresh.muted = false;
    update(
        &mut state,
        Message::Worker(WorkerEvent::StreamAdded(fresh)),
    );

    let live = state.streams.get(&11).expect("fresh row");
    assert!((f(live.average_volume()) - 0.9).abs() < 1e-6);
    assert!(live.muted);
}

#[test]
fn volume_changed_on_tombstoned_row_updates_local_only() {
    let mut state = boot_state();
    let mut s = app_stream(10);
    s.volume = g(0.5);
    state.streams.insert(s.id, s);
    state.tombstoned.insert(10);

    update(&mut state, Message::VolumeChanged(10, g(1.0)));
    let row = state.streams.get(&10).expect("row");
    assert!((f(row.average_volume()) - 1.0).abs() < 1e-6);
    assert!(state.tombstoned.contains(&10));
}

#[test]
fn mute_toggled_on_tombstoned_row_flips_local_only() {
    let mut state = boot_state();
    let mut s = app_stream(10);
    s.muted = false;
    state.streams.insert(s.id, s);
    state.tombstoned.insert(10);

    update(&mut state, Message::MuteToggled(10));
    assert!(state.streams.get(&10).expect("row").muted);
    assert!(state.tombstoned.contains(&10));
}

#[test]
fn fresh_stream_without_identity_leaves_tombstone_alone() {
    let mut state = boot_state();
    let mut old = app_stream(10);
    old.binary = Some("firefox".into());
    state.streams.insert(old.id, old);
    state.tombstoned.insert(10);

    let fresh = app_stream(11);
    update(
        &mut state,
        Message::Worker(WorkerEvent::StreamAdded(fresh)),
    );

    assert!(state.streams.contains_key(&10));
    assert!(state.tombstoned.contains(&10));
    assert!(state.streams.contains_key(&11));
}

#[test]
fn ephemeral_arrival_does_not_evict_matching_tombstone() {
    // Regression: a ping from the same app must not evict the idle row.
    let mut state = boot_state();
    let mut idle = app_stream(10);
    idle.binary = Some("chrome".into());
    state.streams.insert(idle.id, idle);
    state.tombstoned.insert(10);

    let mut ping = app_stream(11);
    ping.binary = Some("chrome".into());
    ping.media_role = Some("Notification".into());
    update(
        &mut state,
        Message::Worker(WorkerEvent::StreamAdded(ping)),
    );

    assert!(
        state.streams.contains_key(&10),
        "ephemeral arrival must not evict the idle row",
    );
    assert!(state.tombstoned.contains(&10));
    assert!(state.streams.contains_key(&11));
}

#[test]
fn app_order_assigned_on_first_sight_and_stable_across_updates() {
    let mut state = boot_state();
    let mut spotify = app_stream(50);
    spotify.binary = Some("spotify".into());
    let mut helium = app_stream(80);
    helium.binary = Some("helium".into());

    update(
        &mut state,
        Message::Worker(WorkerEvent::StreamAdded(spotify.clone())),
    );
    update(
        &mut state,
        Message::Worker(WorkerEvent::StreamAdded(helium.clone())),
    );

    let spotify_seq = state.app_order.get(&50).copied().expect("spotify seq");
    let helium_seq = state.app_order.get(&80).copied().expect("helium seq");
    assert!(spotify_seq < helium_seq, "spotify saw first → lower seq");

    // A Props update must not bump the seq.
    update(
        &mut state,
        Message::Worker(WorkerEvent::StreamUpdated(spotify)),
    );
    assert_eq!(state.app_order.get(&50).copied(), Some(spotify_seq));
}

#[test]
fn reclaim_preserves_app_order_seq() {
    // A reclaimed row under a new node id must keep its slot, not
    // mint a fresh (highest) seq and jump past later rows.
    let mut state = boot_state();
    let mut spotify = app_stream(50);
    spotify.binary = Some("spotify".into());
    let mut helium = app_stream(80);
    helium.binary = Some("helium".into());

    update(
        &mut state,
        Message::Worker(WorkerEvent::StreamAdded(spotify)),
    );
    update(
        &mut state,
        Message::Worker(WorkerEvent::StreamAdded(helium)),
    );
    let original_spotify_seq = state.app_order[&50];
    let helium_seq = state.app_order[&80];

    update(
        &mut state,
        Message::Worker(WorkerEvent::StreamRemoved(50)),
    );
    assert!(state.tombstoned.contains(&50));

    // Resume under a new node id; eviction reclaims the slot.
    let mut spotify_v2 = app_stream(120);
    spotify_v2.binary = Some("spotify".into());
    update(
        &mut state,
        Message::Worker(WorkerEvent::StreamAdded(spotify_v2)),
    );

    assert!(!state.streams.contains_key(&50));
    assert!(!state.app_order.contains_key(&50));
    assert_eq!(
        state.app_order.get(&120).copied(),
        Some(original_spotify_seq)
    );
    assert!(
        state.app_order[&120] < helium_seq,
        "reclaimed row keeps its slot"
    );
}

#[test]
fn ephemeral_removal_clears_app_order_entry() {
    let mut state = boot_state();
    let mut ping = app_stream(20);
    ping.binary = Some("dunst".into());
    ping.media_role = Some("Event".into());
    update(
        &mut state,
        Message::Worker(WorkerEvent::StreamAdded(ping)),
    );
    assert!(state.app_order.contains_key(&20));

    update(
        &mut state,
        Message::Worker(WorkerEvent::StreamRemoved(20)),
    );
    assert!(!state.app_order.contains_key(&20));
}

fn sink_stream(id: u32, node_name: &str) -> Stream {
    let mut s = app_stream(id);
    s.kind = StreamKind::Sink;
    s.node_name = Some(node_name.into());
    s
}

#[test]
fn set_stream_target_pins_to_clicked_sink() {
    let mut state = boot_state();
    state
        .streams
        .insert(100, sink_stream(100, "alsa_output.usb"));
    state
        .streams
        .insert(200, sink_stream(200, "bluez_output.headset"));
    state.streams.insert(10, app_stream(10));

    update(
        &mut state,
        Message::SetStreamTarget {
            app_id: 10,
            sink_id: 100,
        },
    );
    assert_eq!(
        state.streams.get(&10).unwrap().target_sink_name.as_deref(),
        Some("alsa_output.usb"),
    );

    update(
        &mut state,
        Message::SetStreamTarget {
            app_id: 10,
            sink_id: 200,
        },
    );
    assert_eq!(
        state.streams.get(&10).unwrap().target_sink_name.as_deref(),
        Some("bluez_output.headset"),
    );
}

#[test]
fn clear_stream_target_unpins_to_follow_default() {
    let mut state = boot_state();
    let mut s = app_stream(10);
    s.target_sink_name = Some("alsa_output.usb".into());
    state.streams.insert(10, s);

    update(&mut state, Message::ClearStreamTarget(10));
    assert_eq!(state.streams.get(&10).unwrap().target_sink_name, None);
}

#[test]
fn reset_all_stream_targets_clears_every_pin() {
    let mut state = boot_state();
    let mut a = app_stream(10);
    a.target_sink_name = Some("alsa_output.usb".into());
    let mut b = app_stream(11);
    b.target_sink_name = Some("bluez_output.headset".into());
    let untouched_app = app_stream(12);
    let mut sink = app_stream(100);
    sink.kind = StreamKind::Sink;
    sink.node_name = Some("alsa_output.usb".into());
    state.streams.insert(10, a);
    state.streams.insert(11, b);
    state.streams.insert(12, untouched_app);
    state.streams.insert(100, sink);

    update(&mut state, Message::ResetAllStreamTargets);

    assert_eq!(state.streams.get(&10).unwrap().target_sink_name, None);
    assert_eq!(state.streams.get(&11).unwrap().target_sink_name, None);
    assert_eq!(state.streams.get(&12).unwrap().target_sink_name, None);
    assert!(state.streams.contains_key(&100));
}

#[test]
fn reset_all_stream_targets_clears_tombstoned_staged_pin() {
    let mut state = boot_state();
    let mut s = app_stream(10);
    s.target_sink_name = Some("alsa_output.usb".into());
    state.streams.insert(10, s);
    state.tombstoned.insert(10);

    update(&mut state, Message::ResetAllStreamTargets);

    assert_eq!(state.streams.get(&10).unwrap().target_sink_name, None);
    assert!(state.tombstoned.contains(&10));
}

#[test]
fn clear_stream_target_on_tombstoned_row_updates_local_only() {
    let mut state = boot_state();
    let mut s = app_stream(10);
    s.target_sink_name = Some("alsa_output.usb".into());
    state.streams.insert(10, s);
    state.tombstoned.insert(10);

    update(&mut state, Message::ClearStreamTarget(10));
    assert_eq!(state.streams.get(&10).unwrap().target_sink_name, None);
    assert!(state.tombstoned.contains(&10));
}

#[test]
fn set_stream_target_on_tombstoned_row_updates_local_only() {
    let mut state = boot_state();
    state
        .streams
        .insert(100, sink_stream(100, "alsa_output.usb"));
    let mut s = app_stream(10);
    s.binary = Some("firefox".into());
    state.streams.insert(10, s);
    state.tombstoned.insert(10);

    update(
        &mut state,
        Message::SetStreamTarget {
            app_id: 10,
            sink_id: 100,
        },
    );
    assert_eq!(
        state.streams.get(&10).unwrap().target_sink_name.as_deref(),
        Some("alsa_output.usb"),
    );
    assert!(state.tombstoned.contains(&10));
}

#[test]
fn reconnect_inherits_tombstoned_target_pin() {
    let mut state = boot_state();
    state
        .streams
        .insert(100, sink_stream(100, "alsa_output.usb"));
    let mut old = app_stream(10);
    old.binary = Some("firefox".into());
    old.target_sink_name = Some("alsa_output.usb".into());
    state.streams.insert(old.id, old);
    state.tombstoned.insert(10);

    let mut fresh = app_stream(11);
    fresh.binary = Some("firefox".into());
    fresh.target_sink_name = None;
    update(
        &mut state,
        Message::Worker(WorkerEvent::StreamAdded(fresh)),
    );

    let live = state.streams.get(&11).expect("fresh row");
    assert_eq!(
        live.target_sink_name.as_deref(),
        Some("alsa_output.usb"),
        "tombstoned target should be replayed onto the fresh Node",
    );
}

#[test]
fn set_stream_target_does_nothing_for_unknown_sink() {
    let mut state = boot_state();
    state.streams.insert(10, app_stream(10));

    update(
        &mut state,
        Message::SetStreamTarget {
            app_id: 10,
            sink_id: 999,
        },
    );
    assert_eq!(state.streams.get(&10).unwrap().target_sink_name, None);
}

fn profile_with(
    name: &str,
    sinks: &[(&str, f32, bool)],
    apps: &[(&str, f32, bool, Option<&str>)],
    default_sink: Option<&str>,
) -> Profile {
    let mut p = Profile {
        name: name.into(),
        default_sink: default_sink.map(str::to_string),
        ..Profile::default()
    };
    for (n, v, m) in sinks {
        p.sinks.insert(
            (*n).into(),
            DeviceSettings {
                volume: g(*v),
                muted: *m,
            },
        );
    }
    for (k, v, m, t) in apps {
        p.apps.insert(
            (*k).into(),
            AppSettings {
                volume: g(*v),
                muted: *m,
                target_sink_name: t.map(|s| s.to_string()),
            },
        );
    }
    p
}

#[test]
fn apply_profile_writes_volume_mute_routing_to_live_streams() {
    let mut state = boot_state();
    state
        .streams
        .insert(100, sink_stream(100, "alsa_output.usb"));
    let mut app = app_stream(10);
    app.binary = Some("firefox".into());
    state.streams.insert(10, app);

    state.profiles.insert_or_replace(profile_with(
        "Work",
        &[("alsa_output.usb", 0.7, true)],
        &[("bin:firefox", 0.4, true, Some("alsa_output.usb"))],
        None,
    ));

    update(&mut state, Message::ApplyProfile("Work".into()));

    let sink = state.streams.get(&100).unwrap();
    assert!((f(sink.average_volume()) - 0.7).abs() < 1e-6);
    assert!(sink.muted);

    let app = state.streams.get(&10).unwrap();
    assert!((f(app.average_volume()) - 0.4).abs() < 1e-6);
    assert!(app.muted);
    assert_eq!(app.target_sink_name.as_deref(), Some("alsa_output.usb"));

    assert!(state.pending.is_empty());
    assert_eq!(state.profiles.active.as_deref(), Some("Work"));
}

#[test]
fn apply_profile_stages_unmatched_entries_in_pending() {
    let mut state = boot_state();
    state
        .streams
        .insert(100, sink_stream(100, "alsa_output.usb"));
    let mut firefox = app_stream(10);
    firefox.binary = Some("firefox".into());
    state.streams.insert(10, firefox);

    state.profiles.insert_or_replace(profile_with(
        "Work",
        &[
            ("alsa_output.usb", 0.7, false),
            ("bluez_output.headset", 0.5, false),
        ],
        &[
            ("bin:firefox", 0.4, false, None),
            ("app:com.spotify.Client", 0.6, false, None),
        ],
        Some("bluez_output.headset"),
    ));

    update(&mut state, Message::ApplyProfile("Work".into()));

    assert!((f(state.streams.get(&100).unwrap().average_volume()) - 0.7).abs() < 1e-6);
    assert!((f(state.streams.get(&10).unwrap().average_volume()) - 0.4).abs() < 1e-6);

    assert!(state.pending.sinks.contains_key(&"bluez_output.headset".to_string()));
    assert!(state.pending.apps.contains_key(&"app:com.spotify.Client".to_string()));
    assert_eq!(
        state.pending.default_sink.as_deref(),
        Some("bluez_output.headset"),
    );
}

#[test]
fn pending_sink_applies_when_matching_sink_connects() {
    let mut state = boot_state();
    state.pending.sinks.insert(
        "bluez_output.headset".into(),
        DeviceSettings {
            volume: g(0.5),
            muted: true,
        },
    );

    let new_sink = sink_stream(200, "bluez_output.headset");
    update(
        &mut state,
        Message::Worker(WorkerEvent::StreamAdded(new_sink)),
    );

    let live = state.streams.get(&200).unwrap();
    assert!((f(live.average_volume()) - 0.5).abs() < 1e-6);
    assert!(live.muted);
    assert!(state.pending.sinks.is_empty());
}

#[test]
fn pending_app_applies_when_matching_app_connects() {
    let mut state = boot_state();
    state.pending.apps.insert(
        "bin:firefox".into(),
        AppSettings {
            volume: g(0.25),
            muted: false,
            target_sink_name: Some("alsa_output.usb".into()),
        },
    );

    let mut firefox = app_stream(11);
    firefox.binary = Some("firefox".into());
    update(
        &mut state,
        Message::Worker(WorkerEvent::StreamAdded(firefox)),
    );

    let live = state.streams.get(&11).unwrap();
    assert!((f(live.average_volume()) - 0.25).abs() < 1e-6);
    assert_eq!(live.target_sink_name.as_deref(), Some("alsa_output.usb"));
    assert!(state.pending.apps.is_empty());
}

#[test]
fn pending_default_sink_clears_when_matching_sink_connects() {
    let mut state = boot_state();
    state.pending.default_sink = Some("bluez_output.headset".into());

    let s = sink_stream(200, "bluez_output.headset");
    update(
        &mut state,
        Message::Worker(WorkerEvent::StreamAdded(s)),
    );

    assert!(state.pending.default_sink.is_none());
}

#[test]
fn delete_last_profile_wipes_pending_and_reseeds_default() {
    let mut state = boot_state();
    state.profiles.insert_or_replace(profile_with(
        "Work",
        &[("alsa_output.usb", 0.7, false)],
        &[],
        None,
    ));
    state.profiles.active = Some("Work".into());
    state.pending.sinks.insert(
        "bluez_output.headset".into(),
        DeviceSettings {
            volume: g(0.5),
            muted: false,
        },
    );

    update(&mut state, Message::DeleteProfile("Work".into()));

    assert!(state.profiles.find("Work").is_none());
    // Deleting the last profile re-seeds an active `Default`.
    assert_eq!(state.profiles.profiles.len(), 1);
    assert_eq!(state.profiles.active.as_deref(), Some("Default"));
    assert!(state.pending.is_empty());
}

#[test]
fn delete_active_profile_repoints_active_to_remaining() {
    let mut state = boot_state();
    state
        .profiles
        .insert_or_replace(profile_with("Work", &[], &[], None));
    state
        .profiles
        .insert_or_replace(profile_with("Gaming", &[], &[], None));
    state.profiles.active = Some("Work".into());

    update(&mut state, Message::DeleteProfile("Work".into()));

    assert!(state.profiles.find("Work").is_none());
    // Active re-points to the first remaining profile, never None.
    assert_eq!(state.profiles.active.as_deref(), Some("Gaming"));
}

#[test]
fn delete_inactive_profile_preserves_pending_and_active_marker() {
    let mut state = boot_state();
    state
        .profiles
        .insert_or_replace(profile_with("Work", &[], &[], None));
    state
        .profiles
        .insert_or_replace(profile_with("Gaming", &[], &[], None));
    state.profiles.active = Some("Work".into());
    state.pending.sinks.insert(
        "x".into(),
        DeviceSettings {
            volume: g(0.5),
            muted: false,
        },
    );

    update(&mut state, Message::DeleteProfile("Gaming".into()));

    assert!(state.profiles.find("Work").is_some());
    assert!(state.profiles.find("Gaming").is_none());
    assert_eq!(state.profiles.active.as_deref(), Some("Work"));
    assert!(
        !state.pending.is_empty(),
        "untouched delete shouldn't wipe pending"
    );
}

#[test]
fn create_modal_confirm_snapshots_current_state_and_marks_active() {
    let mut state = boot_state();
    let mut sink = sink_stream(100, "alsa_output.usb");
    sink.volume = g(0.8);
    sink.is_default = true;
    state.streams.insert(100, sink);
    let mut app = app_stream(10);
    app.binary = Some("firefox".into());
    app.volume = g(0.3);
    state.streams.insert(10, app);

    update(&mut state, Message::OpenCreateProfileModal);
    update(&mut state, Message::ModalNameChanged("Work".into()));
    update(&mut state, Message::ModalConfirm);

    let saved = state.profiles.find("Work").expect("saved profile");
    assert_eq!(saved.default_sink.as_deref(), Some("alsa_output.usb"));
    assert!((f(saved.sinks.get(&"alsa_output.usb".to_string()).unwrap().volume) - 0.8).abs() < 1e-6);
    assert!((f(saved.apps.get(&"bin:firefox".to_string()).unwrap().volume) - 0.3).abs() < 1e-6);

    assert_eq!(state.profiles.active.as_deref(), Some("Work"));
    assert!(state.modal.is_none());
}

#[test]
fn create_modal_confirm_with_blank_name_keeps_modal_open_with_error() {
    let mut state = boot_state();
    update(&mut state, Message::OpenCreateProfileModal);
    update(&mut state, Message::ModalNameChanged("   ".into()));
    update(&mut state, Message::ModalConfirm);

    match state.modal {
        Some(Modal::CreateProfile { ref error, .. }) => {
            assert!(error.is_some(), "blank submit should surface an error");
        }
        other => panic!("expected create modal still open, got {other:?}"),
    }
}

#[test]
fn rename_modal_renames_in_place_and_updates_active_marker() {
    let mut state = boot_state();
    for name in ["Work", "Gaming", "Quiet"] {
        state
            .profiles
            .insert_or_replace(profile_with(name, &[], &[], None));
    }
    state.profiles.active = Some("Gaming".into());

    update(&mut state, Message::OpenRenameProfileModal("Gaming".into()));
    update(&mut state, Message::ModalNameChanged("Play".into()));
    update(&mut state, Message::ModalConfirm);

    assert!(state.profiles.find("Gaming").is_none());
    assert!(state.profiles.find("Play").is_some());
    assert_eq!(state.profiles.active.as_deref(), Some("Play"));
    assert!(state.modal.is_none());
    let names: Vec<&str> = state
        .profiles
        .profiles
        .iter()
        .map(|p| p.name.as_str())
        .collect();
    assert_eq!(names, vec!["Work", "Play", "Quiet"]);
}

#[test]
fn rename_modal_rejects_collision_with_existing_profile() {
    let mut state = boot_state();
    state
        .profiles
        .insert_or_replace(profile_with("Work", &[], &[], None));
    state
        .profiles
        .insert_or_replace(profile_with("Gaming", &[], &[], None));

    update(&mut state, Message::OpenRenameProfileModal("Work".into()));
    update(&mut state, Message::ModalNameChanged("Gaming".into()));
    update(&mut state, Message::ModalConfirm);

    assert!(state.profiles.find("Work").is_some());
    match state.modal {
        Some(Modal::RenameProfile { ref error, .. }) => {
            assert!(error.is_some());
        }
        other => panic!("expected rename modal still open, got {other:?}"),
    }
}

#[test]
fn delete_modal_confirm_removes_profile() {
    let mut state = boot_state();
    state
        .profiles
        .insert_or_replace(profile_with("Work", &[], &[], None));
    state.profiles.active = Some("Work".into());

    update(&mut state, Message::OpenDeleteProfileModal("Work".into()));
    assert!(matches!(state.modal, Some(Modal::DeleteProfile { .. })));
    update(&mut state, Message::ModalConfirm);

    assert!(state.profiles.find("Work").is_none());
    // Deleting the last profile re-seeds the default.
    assert_eq!(state.profiles.active.as_deref(), Some("Default"));
    assert!(state.modal.is_none());
}

#[test]
fn modal_dismiss_closes_without_acting() {
    let mut state = boot_state();
    state
        .profiles
        .insert_or_replace(profile_with("Work", &[], &[], None));

    update(&mut state, Message::OpenDeleteProfileModal("Work".into()));
    update(&mut state, Message::ModalDismiss);

    assert!(state.profiles.find("Work").is_some());
    assert!(state.modal.is_none());
}

#[test]
fn apply_profile_overrides_inherited_tombstone_state() {
    let mut state = boot_state();
    let mut firefox = app_stream(10);
    firefox.binary = Some("firefox".into());
    firefox.volume = g(0.9);
    state.streams.insert(10, firefox);
    state.tombstoned.insert(10);

    state.profiles.insert_or_replace(profile_with(
        "Quiet",
        &[],
        &[("bin:firefox", 0.1, false, None)],
        None,
    ));

    update(&mut state, Message::ApplyProfile("Quiet".into()));

    let row = state.streams.get(&10).unwrap();
    assert!((f(row.average_volume()) - 0.1).abs() < 1e-6);
    assert!(state.tombstoned.contains(&10));
}

#[test]
fn slider_change_dirties_when_a_profile_is_active() {
    let mut state = boot_state();
    state.streams.insert(10, app_stream(10));
    state
        .profiles
        .insert_or_replace(profile_with("Work", &[], &[], None));
    state.profiles.active = Some("Work".into());

    update(&mut state, Message::VolumeChanged(10, g(1.0)));
    assert!(state.dirty);
}

#[test]
fn slider_change_without_active_profile_does_not_dirty() {
    let mut state = boot_state();
    state.streams.insert(10, app_stream(10));

    update(&mut state, Message::VolumeChanged(10, g(1.0)));
    assert!(!state.dirty);
}

#[test]
fn autosave_tick_writes_current_state_into_active_profile() {
    let mut state = boot_state();
    state
        .streams
        .insert(100, sink_stream(100, "alsa_output.usb"));
    let mut app = app_stream(10);
    app.binary = Some("firefox".into());
    state.streams.insert(10, app);
    state.profiles.insert_or_replace(profile_with(
        "Work",
        &[("alsa_output.usb", 0.2, false)],
        &[("bin:firefox", 0.2, false, None)],
        None,
    ));
    state.profiles.active = Some("Work".into());

    update(&mut state, Message::VolumeChanged(100, g(1.0)));
    update(&mut state, Message::VolumeChanged(10, g(1.0)));
    assert!(state.dirty);

    update(&mut state, Message::AutoSaveTick);
    assert!(!state.dirty);

    let saved = state.profiles.find("Work").unwrap();
    assert!((f(saved.sinks.get(&"alsa_output.usb".to_string()).unwrap().volume) - 1.0).abs() < 1e-6);
    assert!((f(saved.apps.get(&"bin:firefox".to_string()).unwrap().volume) - 1.0).abs() < 1e-6);
}

#[test]
fn autosave_tick_is_noop_without_active_profile() {
    let mut state = boot_state();
    state.streams.insert(10, app_stream(10));

    update(&mut state, Message::AutoSaveTick);
    assert!(state.profiles.profiles.is_empty());
    assert!(!state.dirty);
}

#[test]
fn geometry_changed_with_new_values_dirties_state() {
    let mut state = boot_state();
    assert!(!state.geometry_dirty);

    update(
        &mut state,
        Message::GeometryChanged {
            width: 900,
            height: 800,
            maximized: false,
        },
    );

    assert_eq!(state.geometry.width, 900);
    assert_eq!(state.geometry.height, 800);
    assert!(!state.geometry.maximized);
    assert!(state.geometry_dirty);
}

#[test]
fn geometry_changed_with_same_values_does_not_dirty() {
    let mut state = boot_state();
    let original = state.geometry;

    update(
        &mut state,
        Message::GeometryChanged {
            width: original.width,
            height: original.height,
            maximized: original.maximized,
        },
    );

    assert!(!state.geometry_dirty);
}

#[test]
fn autosave_tick_clears_geometry_dirty_even_without_path() {
    // No store_path: persistence is off but the dirty flag must still
    // clear so the tick doesn't retry forever.
    let mut state = boot_state();
    update(
        &mut state,
        Message::GeometryChanged {
            width: 900,
            height: 800,
            maximized: true,
        },
    );
    assert!(state.geometry_dirty);

    update(&mut state, Message::AutoSaveTick);
    assert!(!state.geometry_dirty);
}


#[test]
fn switching_profile_flushes_dirty_changes_to_previous_active() {
    let mut state = boot_state();
    let mut app = app_stream(10);
    app.binary = Some("firefox".into());
    state.streams.insert(10, app);

    state.profiles.insert_or_replace(profile_with(
        "A",
        &[],
        &[("bin:firefox", 0.2, false, None)],
        None,
    ));
    state.profiles.insert_or_replace(profile_with(
        "B",
        &[],
        &[("bin:firefox", 0.9, false, None)],
        None,
    ));
    state.profiles.active = Some("A".into());

    update(&mut state, Message::VolumeChanged(10, g(1.0)));
    assert!(state.dirty);

    update(&mut state, Message::ApplyProfile("B".into()));

    let saved_a = state.profiles.find("A").unwrap();
    assert!((f(saved_a.apps.get(&"bin:firefox".to_string()).unwrap().volume) - 1.0).abs() < 1e-6);
    assert!((f(state.streams.get(&10).unwrap().average_volume()) - 0.9).abs() < 1e-6);
    assert!(!state.dirty);
    assert_eq!(state.profiles.active.as_deref(), Some("B"));
}

#[test]
fn reapplying_active_profile_does_not_flush_dirty() {
    let mut state = boot_state();
    let mut app = app_stream(10);
    app.binary = Some("firefox".into());
    state.streams.insert(10, app);

    state.profiles.insert_or_replace(profile_with(
        "Work",
        &[],
        &[("bin:firefox", 0.2, false, None)],
        None,
    ));
    state.profiles.active = Some("Work".into());

    update(&mut state, Message::VolumeChanged(10, g(1.0)));
    assert!(state.dirty);

    update(&mut state, Message::ApplyProfile("Work".into()));

    assert!((f(state.streams.get(&10).unwrap().average_volume()) - 0.2).abs() < 1e-6);
    let saved = state.profiles.find("Work").unwrap();
    assert!((f(saved.apps.get(&"bin:firefox".to_string()).unwrap().volume) - 0.2).abs() < 1e-6);
    assert!(!state.dirty);
}

#[test]
fn toggle_palette_opens_and_closes_with_reset() {
    let mut state = boot_state();
    state.palette_query = "leftover".into();
    state.palette_selected = 5;

    update(&mut state, Message::TogglePalette);
    assert!(state.palette_open);
    assert!(state.palette_query.is_empty());
    assert_eq!(state.palette_selected, 0);

    state.palette_query = "typed".into();
    state.palette_selected = 3;
    update(&mut state, Message::TogglePalette);
    assert!(!state.palette_open);
    assert!(state.palette_query.is_empty());
    assert_eq!(state.palette_selected, 0);
}

#[test]
fn palette_query_change_resets_selection() {
    let mut state = boot_state();
    state.palette_open = true;
    state.palette_selected = 4;

    update(&mut state, Message::PaletteQueryChanged("mute".into()));
    assert_eq!(state.palette_query, "mute");
    assert_eq!(state.palette_selected, 0);
}

#[test]
fn app_row_key_groups_by_identity_and_falls_back_to_node_id() {
    let mut helium_a = app_stream(113);
    helium_a.binary = Some("helium".into());
    let mut helium_b = app_stream(124);
    helium_b.binary = Some("helium".into());

    assert_eq!(app_row_key(&helium_a), app_row_key(&helium_b));

    let bare = app_stream(7);
    assert_eq!(app_row_key(&bare), "node:7");
}

fn helium_pair_state() -> (App, String) {
    let mut state = boot_state();
    let mut a = app_stream(113);
    a.binary = Some("helium".into());
    a.volume = g(0.3);
    let mut b = app_stream(124);
    b.binary = Some("helium".into());
    b.volume = g(1.0);
    state.streams.insert(a.id, a);
    state.streams.insert(b.id, b);
    let key = "bin:helium".to_string();
    (state, key)
}

#[test]
fn group_volume_proportional_scaling_preserves_ratio() {
    let (mut state, key) = helium_pair_state();
    // Old master cubic = max(cbrt(0.3), cbrt(1.0)) = 1.0; ratio 0.5.
    let target_cubic = 0.5_f32;
    let levels = levels(&state, &key);
    update(
        &mut state,
        Message::GroupVolumeChanged {
            key: key.clone(),
            cubic: g(target_cubic),
            levels,
        },
    );

    let a_linear = f(state.streams.get(&113).unwrap().average_volume());
    let b_linear = f(state.streams.get(&124).unwrap().average_volume());
    // B (the master) lands at target_cubic; A keeps the cubic ratio.
    let b_cubic = linear_to_cubic(b_linear);
    assert!((b_cubic - target_cubic).abs() < 1e-4, "b_cubic={b_cubic}");
    let a_cubic = linear_to_cubic(a_linear);
    let expected_a_cubic = linear_to_cubic(0.3) * 0.5;
    assert!(
        (a_cubic - expected_a_cubic).abs() < 1e-4,
        "a_cubic={a_cubic}, expected≈{expected_a_cubic}",
    );
}

#[test]
fn group_volume_uniform_when_all_members_silent() {
    let mut state = boot_state();
    let mut a = app_stream(113);
    a.binary = Some("helium".into());
    a.volume = g(0.0);
    let mut b = app_stream(124);
    b.binary = Some("helium".into());
    b.volume = g(0.0);
    state.streams.insert(a.id, a);
    state.streams.insert(b.id, b);

    let levels = levels(&state, "bin:helium");
    update(
        &mut state,
        Message::GroupVolumeChanged {
            key: "bin:helium".into(),
            cubic: g(0.5),
            levels,
        },
    );

    let expected = cubic_to_linear(0.5);
    for id in [113, 124] {
        assert!((f(state.streams.get(&id).unwrap().average_volume()) - expected).abs() < 1e-6);
    }
}

#[test]
fn group_volume_clamps_each_member_to_max_volume() {
    let mut state = boot_state();
    let mut a = app_stream(113);
    a.binary = Some("helium".into());
    a.volume = g(0.5);
    let mut b = app_stream(124);
    b.binary = Some("helium".into());
    b.volume = g(1.0);
    state.streams.insert(a.id, a);
    state.streams.insert(b.id, b);

    // Master cubic ~= 1.0 → ratio 1.5; member B would land at 1.5
    // cubic but stays at MAX_VOLUME, while A scales freely.
    let levels = levels(&state, "bin:helium");
    update(
        &mut state,
        Message::GroupVolumeChanged {
            key: "bin:helium".into(),
            cubic: g(MAX_VOLUME),
            levels,
        },
    );

    let b_cubic = linear_to_cubic(f(state.streams.get(&124).unwrap().average_volume()));
    assert!((b_cubic - MAX_VOLUME).abs() < 1e-4);
}

#[test]
fn group_mute_mutes_all_when_any_unmuted() {
    let (mut state, key) = helium_pair_state();
    // a unmuted, b muted → toggling should mute all.
    state.streams.get_mut(&124).unwrap().muted = true;

    update(&mut state, Message::GroupMuteToggled(key));
    assert!(state.streams.get(&113).unwrap().muted);
    assert!(state.streams.get(&124).unwrap().muted);
}

#[test]
fn group_mute_unmutes_all_when_already_all_muted() {
    let (mut state, key) = helium_pair_state();
    state.streams.get_mut(&113).unwrap().muted = true;
    state.streams.get_mut(&124).unwrap().muted = true;

    update(&mut state, Message::GroupMuteToggled(key));
    assert!(!state.streams.get(&113).unwrap().muted);
    assert!(!state.streams.get(&124).unwrap().muted);
}

#[test]
fn group_set_target_pins_every_member() {
    let (mut state, key) = helium_pair_state();
    state
        .streams
        .insert(100, sink_stream(100, "alsa_output.usb"));

    update(
        &mut state,
        Message::GroupSetStreamTarget { key, sink_id: 100 },
    );
    assert_eq!(
        state.streams.get(&113).unwrap().target_sink_name.as_deref(),
        Some("alsa_output.usb")
    );
    assert_eq!(
        state.streams.get(&124).unwrap().target_sink_name.as_deref(),
        Some("alsa_output.usb")
    );
}

#[test]
fn group_clear_target_unpins_every_member() {
    let (mut state, key) = helium_pair_state();
    state.streams.get_mut(&113).unwrap().target_sink_name = Some("alsa_output.usb".into());
    state.streams.get_mut(&124).unwrap().target_sink_name = Some("alsa_output.usb".into());

    update(&mut state, Message::GroupClearStreamTarget(key));
    assert_eq!(state.streams.get(&113).unwrap().target_sink_name, None);
    assert_eq!(state.streams.get(&124).unwrap().target_sink_name, None);
}

#[test]
fn group_toggle_expanded_flips_membership_for_multi_member_groups() {
    let (mut state, key) = helium_pair_state();
    assert!(!state.expanded_groups.contains(&key));

    update(&mut state, Message::GroupToggleExpanded(key.clone()));
    assert!(state.expanded_groups.contains(&key));

    update(&mut state, Message::GroupToggleExpanded(key.clone()));
    assert!(!state.expanded_groups.contains(&key));
}

#[test]
fn group_toggle_expanded_noops_for_single_member_groups() {
    let mut state = boot_state();
    let mut spotify = app_stream(50);
    spotify.binary = Some("spotify".into());
    state.streams.insert(50, spotify);

    update(
        &mut state,
        Message::GroupToggleExpanded("bin:spotify".into()),
    );
    assert!(
        !state.expanded_groups.contains("bin:spotify"),
        "single-member group should not expand"
    );
}

#[test]
fn group_toggle_expanded_drops_key_when_group_shrinks_to_one() {
    // Two-tab Helium expanded; if one tab disappears the toggle
    // path normalises away the now-pointless expansion the next
    // time the user tries to interact with it.
    let (mut state, key) = helium_pair_state();
    state.expanded_groups.insert(key.clone());
    state.streams.remove(&124);

    update(&mut state, Message::GroupToggleExpanded(key.clone()));
    assert!(!state.expanded_groups.contains(&key));
}

#[test]
fn members_of_app_row_filters_to_matching_app_streams_only() {
    let (mut state, key) = helium_pair_state();
    // Spotify and a sink should not appear among Helium members.
    let mut spotify = app_stream(99);
    spotify.binary = Some("spotify".into());
    state.streams.insert(99, spotify);
    state
        .streams
        .insert(100, sink_stream(100, "alsa_output.usb"));

    let mut members = members_of_app_row(&state, &key);
    members.sort();
    assert_eq!(members, vec![113, 124]);
}

#[test]
fn palette_select_next_and_prev_wrap_within_filtered_count() {
    let mut state = boot_state();
    state.palette_open = true;
    // A single row.
    update(&mut state, Message::PaletteSelectNext { rows: 1 });
    assert_eq!(state.palette_selected, 0, "single-row list stays put");
    update(&mut state, Message::PaletteSelectPrev { rows: 1 });
    assert_eq!(state.palette_selected, 0);

    // Enough commands for navigation to move.
    let cmd_count = 7;
    update(&mut state, Message::PaletteSelectNext { rows: cmd_count });
    assert_eq!(state.palette_selected, 1);
    update(&mut state, Message::PaletteSelectPrev { rows: cmd_count });
    assert_eq!(state.palette_selected, 0);
    // Wrap-around from the top.
    update(&mut state, Message::PaletteSelectPrev { rows: cmd_count });
    assert_eq!(state.palette_selected, cmd_count - 1);
}

fn source_stream(id: u32, node_name: &str) -> Stream {
    let mut s = sink_stream(id, node_name);
    s.kind = StreamKind::Source;
    s
}

#[test]
fn apply_profile_applies_live_sources_and_stages_unmatched() {
    let mut state = boot_state();
    // Live capture device matching one profile source entry.
    state
        .streams
        .insert(300, source_stream(300, "alsa_input.usb"));

    let mut profile = Profile {
        name: "Call".into(),
        // Default points at a source that isn't connected yet, so it
        // must be staged rather than applied.
        default_source: Some("bluez_input.headset".into()),
        ..Profile::default()
    };
    profile.sources.insert(
        "alsa_input.usb".into(),
        DeviceSettings {
            volume: g(0.6),
            muted: true,
        },
    );
    profile.sources.insert(
        "bluez_input.headset".into(),
        DeviceSettings {
            volume: g(0.4),
            muted: false,
        },
    );
    state.profiles.insert_or_replace(profile);

    update(&mut state, Message::ApplyProfile("Call".into()));

    // Live source took the saved volume + mute locally.
    let mic = state.streams.get(&300).unwrap();
    assert!((f(mic.average_volume()) - 0.6).abs() < 1e-6);
    assert!(mic.muted);

    // Absent source + default both staged for when the device shows up.
    assert!(state.pending.sources.contains_key(&"bluez_input.headset".to_string()));
    assert_eq!(
        state.pending.default_source.as_deref(),
        Some("bluez_input.headset"),
    );
}

#[test]
fn pending_source_applies_when_matching_source_connects() {
    let mut state = boot_state();
    state.pending.sources.insert(
        "bluez_input.headset".into(),
        DeviceSettings {
            volume: g(0.5),
            muted: true,
        },
    );

    let new_source = source_stream(400, "bluez_input.headset");
    update(
        &mut state,
        Message::Worker(WorkerEvent::StreamAdded(new_source)),
    );

    let live = state.streams.get(&400).unwrap();
    assert!((f(live.average_volume()) - 0.5).abs() < 1e-6);
    assert!(live.muted);
    assert!(state.pending.sources.is_empty());
}

#[test]
fn stream_removed_for_source_drops_immediately() {
    let mut state = boot_state();
    state
        .streams
        .insert(300, source_stream(300, "alsa_input.usb"));

    update(
        &mut state,
        Message::Worker(WorkerEvent::StreamRemoved(300)),
    );

    // Capture devices vanish on unplug just like sinks, no ghost row.
    assert!(!state.streams.contains_key(&300));
    assert!(!state.tombstoned.contains(&300));
}

#[test]
fn toggle_section_flips_only_that_section() {
    let mut state = boot_state();
    // An active profile so the toggle has somewhere to persist.
    state.profiles.insert_or_replace(Profile {
        name: "Work".into(),
        ..Profile::default()
    });
    state.profiles.active = Some("Work".into());
    assert!(state.shows_section(Section::Inputs));

    update(&mut state, Message::ToggleSection(Section::Inputs));
    assert!(!state.shows_section(Section::Inputs));
    // The toggle dirties the active profile so the autosave tick
    // folds the new layout into it.
    assert!(state.dirty);
    // Other sections are untouched.
    assert!(state.shows_section(Section::Outputs));
    assert!(state.shows_section(Section::Apps));

    // Toggling again restores it.
    update(&mut state, Message::ToggleSection(Section::Inputs));
    assert!(state.shows_section(Section::Inputs));
}

#[test]
fn toggled_filter_persists_into_active_profile_on_autosave() {
    let mut state = boot_state();
    state.profiles.insert_or_replace(Profile {
        name: "Work".into(),
        ..Profile::default()
    });
    state.profiles.active = Some("Work".into());

    update(&mut state, Message::ToggleSection(Section::Apps));
    update(&mut state, Message::AutoSaveTick);

    let saved = state.profiles.find("Work").unwrap();
    assert!(!saved.section_filter.apps);
    assert!(saved.section_filter.outputs);
    assert!(saved.section_filter.inputs);
}

#[test]
fn mute_all_mutes_every_output_then_unmutes() {
    let mut state = boot_state();
    state.streams.insert(1, sink_stream(1, "alsa_output.a"));
    state.streams.insert(2, sink_stream(2, "alsa_output.b"));
    // A source is left untouched by the output-only mute-all.
    state.streams.insert(3, source_stream(3, "alsa_input.mic"));
    assert!(!state.all_outputs_muted());

    update(&mut state, Message::MuteAllToggled);
    assert!(state.streams.get(&1).unwrap().muted);
    assert!(state.streams.get(&2).unwrap().muted);
    assert!(!state.streams.get(&3).unwrap().muted);
    assert!(state.all_outputs_muted());

    update(&mut state, Message::MuteAllToggled);
    assert!(!state.streams.get(&1).unwrap().muted);
    assert!(!state.streams.get(&2).unwrap().muted);
    assert!(!state.all_outputs_muted());
}

#[test]
fn autosave_tick_persists_geometry_to_disk_when_dirty() {
    let mut state = boot_state();
    update(
        &mut state,
        Message::GeometryChanged {
            width: 1024,
            height: 768,
            maximized: true,
        },
    );
    let fx = update(&mut state, Message::AutoSaveTick);
    assert_eq!(fx.saves.len(), 1, "the tick asks for a save");
    assert_eq!(fx.saves[0].window, state.geometry);
    assert_eq!(fx.saves[0].profiles, state.profiles);
    assert_eq!(state.geometry.width, 1024);
    assert_eq!(state.geometry.height, 768);
    assert!(state.geometry.maximized);
    assert!(!state.geometry_dirty);
    // Nothing left for the next one.
    assert!(update(&mut state, Message::AutoSaveTick).saves.is_empty());
}

#[test]
fn a_volume_change_is_sent_to_the_server() {
    let mut state = boot_state();
    state.streams.insert(10, app_stream(10));
    let fx = update(&mut state, Message::VolumeChanged(10, g(0.7)));
    let linear = g(cubic_to_linear(0.7));
    assert_eq!(
        fx.commands,
        vec![Command::SetVolume {
            node_id: 10,
            volume: linear
        }]
    );
    assert_eq!(state.streams.get(&10).unwrap().volume, linear);
}

#[test]
fn a_default_device_is_asked_for_by_name() {
    let mut state = boot_state();
    state.streams.insert(100, sink_stream(100, "alsa_output.usb"));
    let fx = update(&mut state, Message::MakeDefault(100));
    assert!(fx.commands.contains(&Command::SetDefaultSink {
        node_name: "alsa_output.usb".into()
    }));
}

#[test]
fn an_unknown_profile_is_named_in_the_status_line() {
    let mut state = boot_state();
    update(&mut state, Message::ApplyProfile("Nope".into()));
    assert_eq!(state.status.as_deref(), Some("profile 'Nope' not found"));
}

#[test]
fn a_server_error_reaches_the_status_line() {
    let mut state = boot_state();
    update(
        &mut state,
        Message::Worker(WorkerEvent::Error("gone".into())),
    );
    assert!(state.status.as_deref().unwrap_or("").contains("gone"));
}

#[test]
fn a_failed_save_reaches_the_status_line() {
    let mut state = boot_state();
    save_failed(&mut state, "disk full");
    assert_eq!(state.status.as_deref(), Some("save state: disk full"));
}

#[test]
fn booting_seeds_a_profile_and_reports_what_could_not_be_read() {
    let app = boot(
        Geometry::default(),
        ProfileStore::new(),
        Some("bad magic".into()),
    );
    assert_eq!(app.profiles.profiles.len(), 1);
    assert_eq!(app.profiles.active.as_deref(), Some("Default"));
    assert_eq!(app.status.as_deref(), Some("load state: bad magic"));
    assert!(boot(Geometry::default(), ProfileStore::new(), None)
        .status
        .is_none());
}

#[test]
fn profiles_are_reordered_by_dropping_one_beside_another() {
    let mut state = boot_state();
    for name in ["A", "B", "C"] {
        state
            .profiles
            .insert_or_replace(profile_with(name, &[], &[], None));
    }
    let names = |s: &App| -> Vec<String> {
        s.profiles.profiles.iter().map(|p| p.name.clone()).collect()
    };
    let fx = update(
        &mut state,
        Message::ReorderProfile {
            name: "C".into(),
            target: "A".into(),
            before: true,
        },
    );
    assert_eq!(fx.saves.len(), 1);
    assert_eq!(names(&state), vec!["C", "A", "B"]);
    // Dropped where it already is: nothing moves and nothing is saved.
    let fx = update(
        &mut state,
        Message::ReorderProfile {
            name: "C".into(),
            target: "A".into(),
            before: true,
        },
    );
    assert!(fx.saves.is_empty());
    assert_eq!(names(&state), vec!["C", "A", "B"]);
}

#[test]
fn without_a_server_nothing_is_asked_of_it() {
    let mut state = boot_state();
    state.streams.insert(100, sink_stream(100, "alsa_output.usb"));
    state.streams.insert(10, app_stream(10));
    let mut fx = Effects::new(false);
    bnksound::state::update(&mut state, Message::MakeDefault(100), &mut fx);
    assert!(fx.commands.is_empty());
    assert!(!state.dirty, "a default nobody was asked for is no change");

    bnksound::state::update(&mut state, Message::VolumeChanged(10, g(0.7)), &mut fx);
    assert!(fx.commands.is_empty());
    assert_eq!(f(state.streams.get(&10).unwrap().volume), cubic_to_linear(0.7));
    assert!(state.dirty, "the fader moved all the same");
}

#[test]
fn the_palette_wraps_at_the_last_row_it_lists() {
    let mut state = boot_state();
    state.palette_open = true;
    let rows = MAX_VISIBLE + 7;
    update(&mut state, Message::PaletteSelectPrev { rows });
    assert_eq!(state.palette_selected, MAX_VISIBLE - 1);
    update(&mut state, Message::PaletteSelectNext { rows });
    assert_eq!(state.palette_selected, 0);
}

#[test]
fn a_group_dragged_below_nothing_falls_silent() {
    let mut state = boot_state();
    let mut s = app_stream(10);
    s.app_id = Some("player".into());
    state.streams.insert(10, s);
    let key = app_row_key(state.streams.get(&10).unwrap());
    let levels = levels(&state, &key);
    update(
        &mut state,
        Message::GroupVolumeChanged {
            key,
            cubic: g(-0.5),
            levels,
        },
    );
    assert_eq!(f(state.streams.get(&10).unwrap().volume), 0.0);
}

#[test]
fn pinning_a_stream_where_it_is_pinned_is_no_change() {
    let mut state = boot_state();
    state.streams.insert(100, sink_stream(100, "alsa_output.usb"));
    state.streams.insert(10, app_stream(10));
    let pin = || Message::SetStreamTarget {
        app_id: 10,
        sink_id: 100,
    };
    let fx = update(&mut state, pin());
    assert_eq!(fx.commands.len(), 1);
    assert!(state.dirty);
    state.dirty = false;
    let fx = update(&mut state, pin());
    assert!(fx.commands.is_empty());
    assert!(!state.dirty);
    assert_eq!(
        state.streams.get(&10).unwrap().target_sink_name.as_deref(),
        Some("alsa_output.usb"),
    );
}
