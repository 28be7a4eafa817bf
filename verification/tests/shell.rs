//! The core and the shell around it.

use bnksound::domain::{Gain, Section, Stream, StreamKind};
use bnksound::profile::Profile;
use bnksound::runtime::Runtime;
use bnksound::settings::Settings;
use bnksound::shell::{Report, Shell};
use bnksound::state;
use bnksound::state::{App, Command, Message, WorkerEvent};
use bnksound::store::State;
use bnksound::ui::halo::FADE;
use bnksound::ui::layout::RowId;
use bnksound::ui::{Drag, Focus};
use bnksound::view::rows::Levels;

fn g(v: f32) -> Gain {
    Gain { bits: v.to_bits() }
}

fn sink(id: u32) -> Stream {
    Stream {
        id,
        kind: StreamKind::Sink,
        name: format!("Sink {id}"),
        app_id: None,
        binary: None,
        pid: None,
        node_name: Some(format!("node.{id}")),
        media_name: None,
        media_role: None,
        volume: g(0.5),
        muted: false,
        xdg: None,
        form: None,
        is_default: false,
        target_sink_name: None,
    }
}

fn shell() -> Shell {
    let mut app = state::empty();
    app.streams.insert(1, sink(1));
    app.streams.insert(2, sink(2));
    Shell::new(Runtime::new(app), Settings::default(), &Levels::new(), vec![])
}

#[test]
fn a_message_is_reduced_and_its_effects_are_left_to_do() {
    let mut app = state::empty();
    app.streams.insert(1, sink(1));
    let mut runtime = Runtime::new(app);
    assert!(runtime.dispatch(Message::MuteToggled(1)));
    assert!(runtime.state().streams.get(&1).expect("sink").muted);
    assert_eq!(runtime.effects.commands.len(), 1);
    assert!(matches!(
        runtime.effects.commands[0],
        Command::SetMute { node_id: 1, mute: true }
    ));
}

#[test]
fn ticks_and_resizes_are_quiet_until_a_save_fails() {
    let mut runtime = Runtime::new(state::empty());
    let resized = Message::GeometryChanged {
        width: 900,
        height: 700,
        maximized: false,
    };
    assert!(!runtime.dispatch(resized));
    assert!(!runtime.dispatch(Message::AutoSaveTick));
    assert_eq!(runtime.effects.saves.len(), 1);
    assert!(!runtime.saved(0, None));
    assert!(runtime.saved(0, Some("disk full")));
    assert!(!runtime.saved(0, Some("disk full")), "the line says so already");
    runtime.shutdown();
    assert!(runtime.effects.saves.is_empty(), "nothing is dirty any more");
}

/// A state with a profile that is active.
fn booted() -> App {
    let saved = State::default();
    state::boot(saved.window, saved.profiles, None)
}

/// A flush that fails is spoken over by what the message has to say itself.
#[test]
fn an_unknown_profile_outlasts_a_failed_flush() {
    let mut runtime = Runtime::new(booted());
    runtime.dispatch(Message::ToggleSection(Section::Apps));
    assert!(runtime.state().dirty);
    runtime.dispatch(Message::ApplyProfile("Nope".into()));
    assert_eq!(runtime.effects.saves.len(), 1, "the flush came first");
    assert!(!runtime.saved(0, Some("disk full")));
    assert_eq!(
        runtime.state().status.as_deref(),
        Some("profile 'Nope' not found")
    );
}

/// Applying a profile over unsaved changes saves twice: what was changed, then
/// what was applied.
#[test]
fn switching_profiles_flushes_before_it_applies() {
    let mut app = booted();
    app.profiles.profiles.push(Profile {
        name: "Other".into(),
        ..Profile::default()
    });
    let first = app.profiles.active.clone();
    let mut runtime = Runtime::new(app);
    runtime.dispatch(Message::ToggleSection(Section::Apps));
    runtime.dispatch(Message::ApplyProfile("Other".into()));
    let saves = &runtime.effects.saves;
    assert_eq!(saves.len(), 2);
    assert_eq!(saves[0].profiles.active, first);
    assert_eq!(saves[1].profiles.active.as_deref(), Some("Other"));
    assert!(runtime.saved(0, Some("disk full")));
    assert!(!runtime.saved(1, None), "the second save takes nothing back");
    assert_eq!(
        runtime.state().status.as_deref(),
        Some("save state: disk full")
    );
}

#[test]
fn peaks_reach_the_rows_they_feed_and_rest_when_they_stop() {
    let mut shell = shell();
    let report = |node: u32, peak: f32| Report {
        node,
        peaks: vec![g(peak), g(peak / 2.0)],
    };
    assert!(!shell.tick_meters(&vec![]), "nothing has played yet");
    assert!(shell.tick_meters(&vec![report(1, 0.5), report(99, 0.9)]));
    let bars = shell.ui.meters.channels(&RowId::Sink(1));
    assert_eq!(bars, vec![g(0.5), g(0.25)]);
    assert!(shell.ui.meters.channels(&RowId::Sink(2)).is_empty());
    let mut ticks = 0;
    while shell.tick_meters(&vec![]) {
        ticks += 1;
        assert!(ticks < 10_000, "the bars come to rest");
    }
    assert_eq!(shell.ui.meters.channels(&RowId::Sink(1)), vec![g(0.0), g(0.0)]);
}

#[test]
fn a_refresh_drops_the_meters_of_rows_that_are_gone() {
    let mut shell = shell();
    for node in [1, 2] {
        shell.tick_meters(&vec![Report {
            node,
            peaks: vec![g(0.5)],
        }]);
    }
    shell.runtime.dispatch(Message::Worker(WorkerEvent::StreamRemoved(2)));
    shell.refresh(&Levels::new(), vec![]);
    assert_eq!(shell.snapshot.sinks.len(), 1);
    assert!(!shell.ui.meters.channels(&RowId::Sink(1)).is_empty());
    assert!(shell.ui.meters.channels(&RowId::Sink(2)).is_empty());
    assert!(shell.ui.dirty.layout && shell.ui.dirty.full);
}

#[test]
fn the_caret_blinks_only_in_a_field() {
    let mut shell = shell();
    assert!(!shell.tick_caret());
    shell.ui.focus = Focus::Palette;
    assert!(shell.tick_caret());
    assert!(!shell.ui.caret_visible);
    shell.ui.focus = Focus::Body;
    assert!(shell.tick_caret());
    assert!(shell.ui.caret_visible);
}

#[test]
fn rings_fade_in_where_the_pointer_is_and_rest() {
    let mut shell = shell();
    let start = 5_000_000_000;
    assert!(!shell.tick_halo(start), "nothing is lit");
    shell.ui.knob_hover = Some(RowId::Sink(1));
    assert!(shell.tick_halo(start));
    assert!(shell.tick_halo(start + FADE / 2));
    let mid = shell.ui.halo.strength(&RowId::Sink(1));
    assert!(mid > 0 && mid < FADE, "partway up, got {mid}");
    while shell.tick_halo(start + FADE * 3) {}
    assert_eq!(shell.ui.halo.strength(&RowId::Sink(1)), FADE);
    // A drag holds its ring wherever the pointer wanders.
    shell.ui.drag = Some(Drag::Slider(RowId::Sink(2)));
    assert!(shell.tick_halo(start + FADE * 4));
    assert!(shell.ui.halo.strength(&RowId::Sink(1)) < FADE);
}
