//! What the mixer shows of its state.
use bnksound::command_palette::MAX_VISIBLE;
use bnksound::domain::{DeviceForm, Gain, Stream, StreamKind, XdgInfo, MAX_VOLUME};
use bnksound::state;
use bnksound::state::{App, Modal};
use bnksound::ui::layout::RowId;
use bnksound::view::rows::{Level, Levels};
use bnksound::view::snapshot::ViewSnapshot;

/// The faders' places, without titles.
fn levels(app: &App) -> Levels {
    let mut levels = Levels::new();
    for (id, stream) in &app.streams.entries {
        let cubic = f32::from_bits(stream.volume.bits).cbrt();
        levels.insert(
            *id,
            Level {
                cubic: Gain { bits: cubic.to_bits() },
                title: None,
            },
        );
    }
    levels
}

fn build_snapshot(app: &App) -> ViewSnapshot {
    bnksound::view::snapshot::build_snapshot(app, &levels(app), vec![])
}

fn stream(id: u32, kind: StreamKind) -> Stream {
    Stream {
        id,
        kind,
        name: format!("node-{id}"),
        app_id: None,
        binary: None,
        pid: None,
        node_name: Some(format!("node.name.{id}")),
        media_name: None,
        media_role: None,
        volume: Gain { bits: 0.5f32.to_bits() },
        muted: false,
        xdg: None,
        form: None,
        is_default: false,
        target_sink_name: None,
    }
}

fn app() -> App {
    state::empty()
}

#[test]
fn empty_state_projects_nothing_visible() {
    let snap = build_snapshot(&app());
    assert!(snap.sinks.is_empty() && snap.sources.is_empty() && snap.app_rows.is_empty());
    assert!(!snap.show_sinks && !snap.show_sources && !snap.show_apps);
    assert!(snap.modal.is_none());
    assert!(!snap.palette.open);
}

#[test]
fn one_of_each_kind_projects_rows_and_routes() {
    let mut a = app();
    let mut sink = stream(1, StreamKind::Sink);
    sink.form = Some(DeviceForm {
        rank: 0,
        label: "SPEAKER".into(),
    });
    sink.is_default = true;
    a.streams.insert(1, sink);
    a.streams.insert(2, stream(2, StreamKind::Source));
    let mut app_s = stream(3, StreamKind::Application);
    app_s.app_id = Some("com.example.App".into());
    a.streams.insert(3, app_s);

    let snap = build_snapshot(&a);
    assert_eq!(snap.sinks.len(), 1);
    assert_eq!(snap.sources.len(), 1);
    assert_eq!(snap.app_rows.len(), 1);
    assert!(snap.sinks[0].is_default);
    assert_eq!(snap.sinks[0].id, RowId::Sink(1));
    // Meter routes: each node feeds its own row(s).
    assert_eq!(snap.meter_routes.get(&1).unwrap().rows, vec![RowId::Sink(1)]);
    assert_eq!(snap.meter_routes.get(&2).unwrap().rows, vec![RowId::Source(2)]);
    assert_eq!(
        snap.meter_routes.get(&3).unwrap().rows,
        vec![RowId::AppGroup("app:com.example.App".into())]
    );
    // One sink option, offered to the app target picker.
    assert_eq!(snap.sink_options.len(), 1);
}

#[test]
fn warning_flag_trips_above_the_threshold() {
    let mut a = app();
    let mut loud = stream(1, StreamKind::Sink);
    loud.volume = Gain { bits: MAX_VOLUME }; // cubic > 1.10
    a.streams.insert(1, loud);
    let snap = build_snapshot(&a);
    assert!(snap.sinks[0].warning);
}

/// Two streams from one browser, expanded into member sub-columns. Both
/// carry the app's name, which is what the members must not be called.
fn expanded_browser(media_names: [Option<&str>; 2]) -> ViewSnapshot {
    let mut a = app();
    for (i, media) in media_names.into_iter().enumerate() {
        let id = 85 + i as u32 * 12;
        let mut s = stream(id, StreamKind::Application);
        s.app_id = Some("net.helium.Browser".into());
        s.media_name = media.map(str::to_string);
        s.xdg = Some(XdgInfo {
            name: "Helium Browser".into(),
            icon_path: None,
            desktop_path: "/dev/null".into(),
        });
        a.streams.insert(id, s);
    }
    let key = state::app_row_key(a.streams.get(&85).unwrap());
    a.expanded_groups.insert(key);
    build_snapshot(&a)
}

#[test]
fn member_columns_are_named_apart_from_the_app_they_belong_to() {
    let snap = expanded_browser([None, None]);
    let members: Vec<&str> = snap
        .app_rows
        .iter()
        .filter(|r| r.is_member)
        .map(|r| r.label.as_str())
        .collect();
    assert_eq!(members, ["Stream 85", "Stream 97"]);

    let group = snap
        .app_rows
        .iter()
        .find(|r| !r.is_member)
        .expect("group row");
    assert_eq!(
        group.label, "Helium Browser",
        "the group keeps the app name"
    );
}

#[test]
fn a_member_column_takes_the_stream_name_when_it_says_something() {
    let snap = expanded_browser([Some("Some Video"), Some("Playback")]);
    let members: Vec<&str> = snap
        .app_rows
        .iter()
        .filter(|r| r.is_member)
        .map(|r| r.label.as_str())
        .collect();
    // "Playback" is what PipeWire calls a stream that named nothing, so it
    // falls back the same as a missing name would.
    assert_eq!(members, ["Some Video", "Stream 97"]);
}

#[test]
fn delete_modal_projects_a_confirming_body() {
    let mut a = app();
    a.modal = Some(Modal::DeleteProfile {
        name: "Gaming".into(),
    });
    let snap = build_snapshot(&a);
    let modal = snap.modal.expect("modal");
    assert!(modal.destructive);
    assert!(!modal.input_visible);
    assert!(modal.body.contains("Gaming"));
}

#[test]
fn devices_stand_by_form_and_then_by_id() {
    let mut a = app();
    for (id, rank) in [(1, Some(3)), (2, None), (3, Some(1)), (4, Some(3)), (5, Some(1))] {
        let mut s = stream(id, StreamKind::Sink);
        s.form = rank.map(|rank| DeviceForm { rank, label: "X".into() });
        a.streams.insert(id, s);
    }
    a.streams.insert(6, stream(6, StreamKind::Source));
    let snap = build_snapshot(&a);
    let ids: Vec<u32> = snap.sinks.iter().map(|row| row.node_id).collect();
    assert_eq!(ids, [3, 5, 1, 4, 2]);
    assert_eq!(snap.sources.len(), 1);
}

#[test]
fn every_peak_reaches_rows_that_are_there() {
    let mut a = app();
    a.streams.insert(1, stream(1, StreamKind::Sink));
    a.streams.insert(2, stream(2, StreamKind::Source));
    for id in [3, 4, 5] {
        let mut s = stream(id, StreamKind::Application);
        s.app_id = Some(if id < 5 { "browser" } else { "player" }.into());
        a.streams.insert(id, s);
    }
    let key = match &build_snapshot(&a).app_rows[0].id {
        RowId::AppGroup(key) => key.clone(),
        other => panic!("a group's row, not {other:?}"),
    };
    a.expanded_groups.insert(key);
    let snap = build_snapshot(&a);
    let fed = |id: u32| snap.meter_routes.get(&id).map(|route| route.rows.len());
    assert_eq!([1, 2, 3, 4, 5, 6].map(fed), [Some(1), Some(1), Some(2), Some(2), Some(1), None]);
    let mut ids: Vec<&RowId> = snap.sinks.iter().chain(&snap.sources).map(|r| &r.id).collect();
    ids.extend(snap.app_rows.iter().map(|r| &r.id));
    for (_, route) in &snap.meter_routes.entries {
        for row in &route.rows {
            assert!(ids.contains(&row), "{row:?} is on show");
        }
    }
}

#[test]
fn the_palette_lists_no_more_rows_than_it_can_show() {
    let mut app = app();
    app.palette_open = true;
    let commands: Vec<String> = (0..MAX_VISIBLE + 5).map(|i| format!("Command {i}")).collect();
    let snap = bnksound::view::snapshot::build_snapshot(&app, &levels(&app), commands.clone());
    assert_eq!(snap.palette.rows.len(), MAX_VISIBLE);
    let few = bnksound::view::snapshot::build_snapshot(&app, &levels(&app), commands[..3].to_vec());
    assert_eq!(few.palette.rows.len(), 3);
}
