//! Where everything stands in a window.

use bnksound::command_palette::VISIBLE_ROWS;
use bnksound::domain::{DeviceForm, Gain, Stream, StreamKind};
use bnksound::profile::Profile;
use bnksound::render::primitives::Rect;
use bnksound::state;
use bnksound::state::App;
use bnksound::ui::layout::{
    at_least_minimum, minimum_size, project, HitTarget, Layout, ResizeEdge, RowId,
};
use bnksound::ui::meter::METER_WIDTH;
use bnksound::ui::{metrics, Chrome, UiState};
use bnksound::view::rows::{Level, Levels};
use bnksound::view::snapshot::ViewSnapshot;

fn sample_stream(id: u32, kind: StreamKind) -> Stream {
    Stream {
        id,
        kind,
        name: format!("node-{id}"),
        app_id: None,
        binary: None,
        pid: None,
        node_name: None,
        media_name: None,
        media_role: None,
        volume: Gain { bits: 0.5f32.to_bits() },
        muted: false,
        xdg: None,
        form: None,
        is_default: false,
        target_sink_name: None,
    }
}

/// The faders' places, without titles.
fn levels(app: &App) -> Levels {
    let mut levels = Levels::new();
    for (id, stream) in &app.streams.entries {
        let cubic = f32::from_bits(stream.volume.bits).cbrt();
        levels.insert(
            *id,
            Level {
                cubic: Gain { bits: cubic.to_bits() },
                title: None,
            },
        );
    }
    levels
}

/// The commands an app's palette offers: one per profile and two more.
fn commands(app: &App) -> Vec<String> {
    let mut commands = vec!["Create profile".to_string(), "Mute all".to_string()];
    for profile in &app.profiles.profiles {
        commands.push(format!("Apply {}", profile.name));
    }
    commands
}

fn build_snapshot(app: &App) -> ViewSnapshot {
    bnksound::view::snapshot::build_snapshot(app, &levels(app), commands(app))
}

fn snapshot_with_profiles(names: &[&str], active: Option<&str>) -> ViewSnapshot {
    let mut app = state::empty();
    // A fresh app always carries an implicit default profile; drop it so the
    // test asserts against exactly the profiles it set up.
    app.profiles.profiles.clear();
    for name in names {
        app.profiles.profiles.push(Profile {
            name: (*name).to_string(),
            ..Default::default()
        });
    }
    app.profiles.active = active.map(str::to_string);
    build_snapshot(&app)
}

fn content() -> Rect {
    Rect::new(0, 0, 560, 720)
}

#[test]
fn the_profile_menu_is_absent_until_it_is_opened() {
    let snap = snapshot_with_profiles(&["Gaming"], None);
    let ui = UiState::new();
    let layout = project(&snap, &ui, content());
    assert!(layout.profile_menu.is_none());
    assert!(
        !layout
            .hits
            .iter()
            .any(|h| matches!(h.target, HitTarget::ProfileApply(_))),
        "closed menu offers no apply targets"
    );
}

#[test]
fn an_open_menu_lays_out_a_row_per_profile_plus_a_create_row() {
    let snap = snapshot_with_profiles(&["Gaming", "Music"], Some("Music"));
    let mut ui = UiState::new();
    ui.profile_menu_open = true;
    let layout = project(&snap, &ui, content());

    let menu = layout.profile_menu.as_ref().expect("menu is laid out");
    assert_eq!(menu.rows.len(), 2);
    assert_eq!(menu.rows[0].name, "Gaming");
    assert!(menu.rows[1].active, "the active profile is marked");
    // The create row sits below the last profile, past the rule.
    assert!(menu.create.y >= menu.rows[1].rect.bottom());
    // The panel encloses every row.
    for row in &menu.rows {
        assert!(row.rect.y >= menu.panel.y);
        assert!(row.rect.bottom() <= menu.panel.bottom());
    }
}

#[test]
fn the_rule_separates_the_profiles_from_the_create_row() {
    let snap = snapshot_with_profiles(&["Gaming", "Work"], Some("Work"));
    let mut ui = UiState::new();
    ui.profile_menu_open = true;
    let layout = project(&snap, &ui, content());
    let menu = layout.profile_menu.as_ref().expect("menu");

    let last = menu.rows.last().expect("a profile row");
    assert!(
        menu.separator.y >= last.rect.bottom(),
        "the rule sits below the last profile",
    );
    assert!(
        menu.create.y >= menu.separator.bottom(),
        "the create row sits below the rule",
    );
    assert_eq!(menu.separator.w, menu.panel.w, "the rule spans the panel");
    assert!(menu.separator.h >= 1, "the rule is drawn");
    assert!(
        menu.separator.bottom() <= menu.panel.bottom(),
        "the rule stays inside the panel",
    );
}

#[test]
fn menu_rows_hit_test_to_their_actions() {
    let snap = snapshot_with_profiles(&["Gaming"], None);
    let mut ui = UiState::new();
    ui.profile_menu_open = true;
    let layout = project(&snap, &ui, content());
    let menu = layout.profile_menu.as_ref().expect("menu");
    let row = &menu.rows[0];

    let centre = |r: Rect| (r.x + r.w / 2, r.y + r.h / 2);
    // The whole row applies, including the right edge where the rename and
    // delete buttons used to sit.
    let (x, y) = centre(row.rect);
    assert_eq!(
        layout.hit(x, y),
        Some(&HitTarget::ProfileApply("Gaming".into()))
    );
    let right_edge = (row.rect.right() - 2, row.rect.y + row.rect.h / 2);
    assert_eq!(
        layout.hit(right_edge.0, right_edge.1),
        Some(&HitTarget::ProfileApply("Gaming".into())),
        "no affordance carves a hole out of the row",
    );
    let (x, y) = centre(menu.create);
    assert_eq!(layout.hit(x, y), Some(&HitTarget::ProfileCreate));
}

/// A scene with a single default sink.
fn mixer_scene() -> ViewSnapshot {
    let mut app = state::empty();
    app.streams.insert(
        1,
        Stream {
            name: "Speaker".into(),
            node_name: Some("node.1".into()),
            form: Some(DeviceForm {
                rank: 0,
                label: "SPEAKER".into(),
            }),
            is_default: true,
            ..sample_stream(1, StreamKind::Sink)
        },
    );
    build_snapshot(&app)
}

/// A sink and an app stream, so an app column carries a pin per sink plus
/// the autoroute pin.
fn sink_and_app_scene() -> ViewSnapshot {
    let mut app = state::empty();
    for (id, kind, name) in [
        (1, StreamKind::Sink, "Speaker"),
        (7, StreamKind::Application, "Player"),
    ] {
        app.streams.insert(
            id,
            Stream {
                name: name.into(),
                node_name: Some(format!("node.{id}")),
                is_default: kind == StreamKind::Sink,
                ..sample_stream(id, kind)
            },
        );
    }
    build_snapshot(&app)
}

/// The action bar is a vertical strip down the left, not a row across the
/// top: its buttons stack, and the columns begin to its right.
#[test]
fn the_action_bar_stacks_down_the_left_and_the_columns_start_beside_it() {
    let snap = mixer_scene();
    let ui = UiState::new();
    let layout = project(&snap, &ui, content());

    let bar = layout.sidebar.expect("the action bar is laid out");
    assert_eq!(bar.x, layout.content.x, "it is flush left");
    assert_eq!(bar.h, layout.content.h - bar.y + layout.content.y);
    assert_eq!(layout.strip.x, bar.right(), "columns begin beside it");

    let picks: Vec<Rect> = layout
        .hits
        .iter()
        .filter(|h| {
            matches!(
                h.target,
                HitTarget::SectionFilter(_) | HitTarget::MuteAll | HitTarget::ResetTargets
            )
        })
        .map(|h| h.rect)
        .collect();
    assert_eq!(picks.len(), 5, "three filters and two actions");
    for pair in picks.windows(2) {
        assert_eq!(pair[0].x, pair[1].x, "one aligned column of buttons");
        assert!(pair[1].y >= pair[0].bottom(), "stacked, not overlapping");
    }
    for r in &picks {
        assert!(r.x >= bar.x && r.right() <= bar.right(), "inside the bar");
    }
}

/// The profile chip lives in its own strip above the body, and the body
/// starts below it.
#[test]
fn the_profile_chip_gets_a_strip_of_its_own() {
    let snap = mixer_scene();
    let ui = UiState::new();
    let layout = project(&snap, &ui, content());

    let bar = layout.profile_strip.expect("the profile strip is laid out");
    assert_eq!(bar.y, layout.content.y);
    assert_eq!(bar.h, metrics::PROFILE_STRIP_HEIGHT);
    assert_eq!(layout.strip.y, bar.bottom(), "the body starts below it");

    let chip = layout
        .hits
        .iter()
        .find(|h| h.target == HitTarget::ProfileSelector)
        .expect("chip")
        .rect;
    assert!(chip.y >= bar.y && chip.bottom() <= bar.bottom());
    assert!(chip.x < bar.x + bar.w / 2, "it sits at the left");
}

/// The damage set is one rectangle per column, held inside the strip. A
/// meter that spilled past it would repaint over the toolbar.
#[test]
fn meter_damage_is_every_column_meter_inside_the_strip() {
    let snap = mixer_scene();
    let ui = UiState::new();
    let layout = project(&snap, &ui, Rect::new(0, 0, 560, 720));
    assert!(!layout.columns.is_empty(), "the scene lays out no columns");

    let damage: Vec<Rect> = layout.meter_damage();
    assert_eq!(damage.len(), layout.columns.len());
    for (rect, col) in damage.iter().zip(&layout.columns) {
        assert_eq!(*rect, col.meter.intersect(layout.strip));
        assert_eq!(*rect, rect.intersect(layout.strip), "inside the strip");
    }
}

/// A column scrolled out of sight contributes no damage, so a mixer with
/// more columns than fit repaints only the ones on screen.
#[test]
fn meter_damage_drops_a_column_scrolled_out_of_the_strip() {
    let snap = mixer_scene();
    let mut ui = UiState::new();
    let layout = project(&snap, &ui, Rect::new(0, 0, 560, 720));
    let visible = layout.meter_damage().len();

    ui.scroll_x = layout.strip.w + metrics::COLUMN_WIDTH;
    let scrolled = project(&snap, &ui, Rect::new(0, 0, 560, 720));
    assert!(
        scrolled.meter_damage().len() < visible,
        "scrolling the strip past its columns still damages {visible} of them",
    );
}

/// The meter and the fader run the column's whole depth, so a taller window
/// gives a longer throw rather than more empty space.
#[test]
fn the_meter_and_fader_fill_the_column_and_grow_with_the_window() {
    let snap = mixer_scene();
    let ui = UiState::new();
    let short = project(&snap, &ui, Rect::new(0, 0, 560, 500));
    let tall = project(&snap, &ui, Rect::new(0, 0, 560, 900));

    let col = |l: &Layout| -> (Rect, Rect) {
        let c = &l.columns[0];
        (c.meter, c.slider.track)
    };
    let (m_short, s_short) = col(&short);
    let (m_tall, s_tall) = col(&tall);

    assert_eq!(m_short.y, s_short.y, "meter and fader share a top");
    assert_eq!(m_short.bottom(), s_short.bottom(), "and a bottom");
    assert_eq!(m_short.w, METER_WIDTH);
    assert_eq!(s_short.w, metrics::SLIDER_WIDTH);
    assert!(
        s_tall.h > s_short.h + 300,
        "400px more window gives a longer throw ({} vs {})",
        s_tall.h,
        s_short.h
    );
    assert!(m_tall.h == s_tall.h, "they stay the same length");
}

/// A device has no default pin: its caps heading is the button, which is
/// why the heading takes the accent while it is the default.
#[test]
fn a_devices_heading_is_its_make_default_button() {
    let snap = mixer_scene();
    let ui = UiState::new();
    let layout = project(&snap, &ui, content());
    let col = &layout.columns[0];

    let (x, y) = (col.name.x + col.name.w / 2, col.name.y + col.name.h / 2);
    assert_eq!(
        layout.hit(x, y),
        Some(&HitTarget::DeviceDefault(RowId::Sink(1)))
    );
    assert!(
        col.targets.is_empty(),
        "a device carries no target pins, only apps do"
    );
}

/// The mute button beats the target pins where they meet, so the bottom of
/// the stack is never stolen by the pin above it.
#[test]
fn the_mute_button_wins_over_the_pin_stack() {
    let mut app = state::empty();
    app.streams.insert(
        7,
        Stream {
            name: "Player".into(),
            app_id: Some("com.example.Player".into()),
            node_name: Some("node.7".into()),
            ..sample_stream(7, StreamKind::Application)
        },
    );
    let snap = build_snapshot(&app);
    let ui = UiState::new();
    let layout = project(&snap, &ui, content());
    let col = &layout.columns[0];

    let (x, y) = (col.mute.x + col.mute.w / 2, col.mute.y + col.mute.h / 2);
    assert!(matches!(layout.hit(x, y), Some(HitTarget::RowMute(_))));
    // The pins stack upward, clear of the mute button.
    for (rect, _) in &col.targets {
        assert!(rect.bottom() <= col.mute.y, "a pin sits above the mute");
        assert_eq!(rect.x, col.mute.x, "one aligned stack");
    }
}

#[test]
fn the_pins_sit_tighter_to_each_other_than_to_the_mute_button() {
    // The spacing is what says the pins are one set of linked choices and
    // the mute is not part of it, so the two gaps must stay distinct.
    let snap = sink_and_app_scene();
    let ui = UiState::new();
    let layout = project(&snap, &ui, content());
    let col = layout
        .columns
        .iter()
        .find(|c| c.targets.len() >= 2)
        .expect("an app column with at least two pins");

    let mut pins: Vec<Rect> = col.targets.iter().map(|(r, _)| *r).collect();
    pins.sort_by_key(|r| r.y);
    for pair in pins.windows(2) {
        assert_eq!(
            pair[1].y - pair[0].bottom(),
            metrics::PICK_STACK_GAP,
            "pins are spaced by the stack gap",
        );
    }

    let lowest = pins.last().expect("a pin");
    assert_eq!(
        col.mute.y - lowest.bottom(),
        metrics::PICKER_MUTE_GAP,
        "the mute button sits a wider gap below the stack",
    );
}

#[test]
fn server_side_chrome_leaves_the_whole_window_to_the_mixer() {
    let snap = snapshot_with_profiles(&["Gaming"], None);
    let ui = UiState::new();
    let layout = project(&snap, &ui, content());
    assert!(layout.titlebar.is_none());
    assert_eq!(layout.content, layout.window, "no strip is reserved");
    assert!(
        !layout
            .hits
            .iter()
            .any(|h| matches!(h.target, HitTarget::ResizeEdge(_) | HitTarget::TitlebarDrag)),
        "a server-decorated window grows no chrome targets"
    );
}

/// Under a toolkit that hosts the selector itself, the surface owes the
/// frame neither a titlebar nor the strip the chip would otherwise need.
#[test]
fn toolkit_chrome_drops_the_profile_strip_along_with_the_titlebar() {
    let snap = snapshot_with_profiles(&["Gaming"], None);
    let mut ui = UiState::new();
    ui.chrome = Chrome::Toolkit;
    let layout = project(&snap, &ui, content());

    assert!(layout.titlebar.is_none());
    assert!(
        layout.profile_strip.is_none(),
        "the toolkit's header carries the selector"
    );
    assert_eq!(
        layout.content, layout.window,
        "so the mixer gets the whole surface"
    );
    assert!(
        !layout
            .hits
            .iter()
            .any(|h| h.target == HitTarget::ProfileSelector),
        "and there is no painted chip to aim at"
    );
}

/// The strip exists only to host the chip, so it comes back with it.
#[test]
fn server_side_chrome_keeps_the_profile_strip() {
    let snap = snapshot_with_profiles(&["Gaming"], None);
    let ui = UiState::new();
    let layout = project(&snap, &ui, content());

    let strip = layout.profile_strip.expect("a strip of its own");
    assert_eq!(strip.h, metrics::PROFILE_STRIP_HEIGHT);
    assert!(
        layout
            .hits
            .iter()
            .any(|h| h.target == HitTarget::ProfileSelector),
        "with the chip in it"
    );
}

/// Opening the menu is pointer-driven through the chip, so a chip-less
/// shell cannot end up painting a dropdown with nothing to hang it under.
#[test]
fn toolkit_chrome_paints_no_dropdown_even_if_the_flag_is_set() {
    let snap = snapshot_with_profiles(&["Gaming", "Work"], None);
    let mut ui = UiState::new();
    ui.chrome = Chrome::Toolkit;
    ui.profile_menu_open = true;
    let layout = project(&snap, &ui, content());

    assert!(layout.profile_menu.is_none());
    assert!(
        !layout
            .hits
            .iter()
            .any(|h| matches!(h.target, HitTarget::ProfileApply(_))),
    );
}

#[test]
fn client_side_chrome_reserves_a_titlebar_and_pushes_the_body_down() {
    let snap = snapshot_with_profiles(&["Gaming"], None);
    let mut ui = UiState::new();
    ui.chrome = Chrome::Client;
    let layout = project(&snap, &ui, content());

    let bar = layout.titlebar.as_ref().expect("titlebar is laid out");
    assert_eq!(bar.bar.h, metrics::TITLEBAR_HEIGHT);
    assert_eq!(
        layout.content.y,
        bar.bar.bottom(),
        "the body starts below it"
    );
    assert_eq!(
        layout.content.h,
        layout.window.h - bar.bar.h,
        "and the body is shorter by exactly the bar"
    );

    // The three buttons sit inside the bar, in order, clear of the title.
    assert!(bar.minimize.right() <= bar.maximize.x);
    assert!(bar.maximize.right() <= bar.close.x);
    assert!(bar.close.right() <= bar.bar.right());
    assert!(bar.title.right() <= bar.minimize.x);
    for r in [bar.minimize, bar.maximize, bar.close] {
        assert!(r.y >= bar.bar.y && r.bottom() <= bar.bar.bottom());
    }
}

/// The buttons sit on top of the drag strip, and the strip only claims what
/// they leave over.
#[test]
fn titlebar_buttons_win_over_the_drag_strip() {
    let snap = snapshot_with_profiles(&["Gaming"], None);
    let mut ui = UiState::new();
    ui.chrome = Chrome::Client;
    let layout = project(&snap, &ui, content());
    let bar = layout.titlebar.as_ref().expect("titlebar");

    let centre = |r: Rect| (r.x + r.w / 2, r.y + r.h / 2);
    for (rect, want) in [
        (bar.minimize, HitTarget::WindowMinimize),
        (bar.maximize, HitTarget::WindowMaximize),
        (bar.close, HitTarget::WindowClose),
    ] {
        let (x, y) = centre(rect);
        assert_eq!(layout.hit(x, y), Some(&want));
    }
    let (x, y) = centre(bar.title);
    assert_eq!(layout.hit(x, y), Some(&HitTarget::TitlebarDrag));
}

#[test]
fn resize_edges_exist_only_while_client_decorated_and_not_maximized() {
    let snap = snapshot_with_profiles(&["Gaming"], None);
    let edges = |ui: &UiState| {
        project(&snap, ui, content())
            .hits
            .iter()
            .filter(|h| matches!(h.target, HitTarget::ResizeEdge(_)))
            .count()
    };
    let mut ui = UiState::new();
    assert_eq!(edges(&ui), 0, "the compositor handles server-side resizing");
    ui.chrome = Chrome::Client;
    assert_eq!(edges(&ui), 8, "four edges and four corners");
    ui.maximized = true;
    assert_eq!(edges(&ui), 0, "a maximized window has nothing to drag");
}

/// A corner has to beat the two edges it overlaps, or dragging it would
/// resize in one axis only.
#[test]
fn corners_win_over_the_edges_they_overlap() {
    let snap = snapshot_with_profiles(&["Gaming"], None);
    let mut ui = UiState::new();
    ui.chrome = Chrome::Client;
    let layout = project(&snap, &ui, content());
    let w = layout.window;
    for (x, y, want) in [
        (w.x + 1, w.y + 1, ResizeEdge::TopLeft),
        (w.right() - 2, w.y + 1, ResizeEdge::TopRight),
        (w.x + 1, w.bottom() - 2, ResizeEdge::BottomLeft),
        (w.right() - 2, w.bottom() - 2, ResizeEdge::BottomRight),
    ] {
        assert_eq!(layout.hit(x, y), Some(&HitTarget::ResizeEdge(want)));
    }
    // Mid-edge is still the plain edge.
    let mid = w.y + w.h / 2;
    assert_eq!(layout.hit(w.x, mid), Some(&HitTarget::ResizeEdge(ResizeEdge::Left)));
}

/// An overlay covers the mixer, so nothing behind it may take a press, but
/// the window must still be resizable from its edge.
#[test]
fn an_open_overlay_swallows_the_body_but_not_the_resize_edges() {
    let mut app = state::empty();
    app.palette_open = true;
    let snap = build_snapshot(&app);
    let mut ui = UiState::new();
    ui.chrome = Chrome::Client;
    let layout = project(&snap, &ui, content());

    let geom = layout.palette.as_ref().expect("palette is laid out");
    // The field and the panel belong to the overlay.
    let (x, y) = (geom.input.x + 4, geom.input.y + geom.input.h / 2);
    assert_eq!(layout.hit(x, y), Some(&HitTarget::PaletteInput));
    // Well inside the body, clear of the panel: the backdrop, not a column.
    let deep = layout.content.bottom() - metrics::RESIZE_GRAB - 2;
    assert_eq!(
        layout.hit(layout.content.w / 2, deep),
        Some(&HitTarget::Backdrop)
    );
    // The very edge still resizes.
    assert!(matches!(
        layout.hit(layout.window.w / 2, layout.window.bottom() - 1),
        Some(HitTarget::ResizeEdge(_))
    ));
}

#[test]
fn a_modal_lays_out_its_field_and_buttons_and_claims_them() {
    let mut app = state::empty();
    state::update(
        &mut app,
        state::Message::OpenCreateProfileModal,
        &mut state::Effects::new(true),
    );
    let snap = build_snapshot(&app);
    let ui = UiState::new();
    let layout = project(&snap, &ui, content());

    let geom = layout.modal.as_ref().expect("modal is laid out");
    let input = geom.input.expect("the create dialog has a name field");
    let centre = |r: Rect| (r.x + r.w / 2, r.y + r.h / 2);
    let (x, y) = centre(input);
    assert_eq!(layout.hit(x, y), Some(&HitTarget::ModalInput));
    let (x, y) = centre(geom.cancel);
    assert_eq!(layout.hit(x, y), Some(&HitTarget::ModalCancel));
    let (x, y) = centre(geom.confirm);
    assert_eq!(layout.hit(x, y), Some(&HitTarget::ModalConfirm));
    // Everything sits inside the panel, and the buttons do not overlap.
    for r in [geom.title, input, geom.cancel, geom.confirm] {
        assert!(r.x >= geom.panel.x && r.right() <= geom.panel.right());
        assert!(r.y >= geom.panel.y && r.bottom() <= geom.panel.bottom());
    }
    assert!(geom.cancel.right() <= geom.confirm.x);
}

#[test]
fn hidden_toolbar_buttons_are_not_laid_out_and_the_rest_close_the_gap() {
    let snap = snapshot_with_profiles(&["Gaming"], None);
    let filters = |ui: &UiState| {
        project(&snap, ui, content())
            .hits
            .iter()
            .filter(|h| matches!(h.target, HitTarget::SectionFilter(_)))
            .count()
    };
    let ui = UiState::new();
    assert_eq!(filters(&ui), 3);

    let mut hidden = UiState::new();
    hidden.settings.show_input_button = false;
    assert_eq!(filters(&hidden), 2);
    // The two that remain start where the first one used to.
    let full = project(&snap, &ui, content());
    let trimmed = project(&snap, &hidden, content());
    let first = |l: &Layout| {
        l.hits
            .iter()
            .find(|h| matches!(h.target, HitTarget::SectionFilter(_)))
            .map(|h| h.rect.x)
    };
    assert_eq!(first(&full), first(&trimmed), "no hole is left behind");

    let mut off = UiState::new();
    off.settings.show_sidebar = false;
    assert_eq!(filters(&off), 0, "the whole toolbar can be hidden");
}

/// The dropdown floats over the column strip, so a click where they overlap
/// belongs to the menu, not to whatever row is underneath.
#[test]
fn the_open_menu_takes_hits_from_the_columns_beneath_it() {
    let mut app = state::empty();
    app.profiles.profiles.clear();
    app.profiles.profiles.push(Profile {
        name: "Gaming".into(),
        ..Default::default()
    });
    // A sink column so there is something under the dropdown to steal from.
    app.streams.insert(
        1,
        Stream {
            name: "Speaker".into(),
            node_name: Some("node.1".into()),
            ..sample_stream(1, StreamKind::Sink)
        },
    );
    let snap = build_snapshot(&app);

    let mut ui = UiState::new();
    ui.profile_menu_open = true;
    let layout = project(&snap, &ui, content());
    let menu = layout.profile_menu.as_ref().expect("menu");
    let row = &menu.rows[0];
    let (x, y) = (row.rect.x + 4, row.rect.y + row.rect.h / 2);

    assert_eq!(
        layout.hit(x, y),
        Some(&HitTarget::ProfileApply("Gaming".into())),
        "the overlay wins over the strip underneath"
    );
}

/// A mixer with `count` app columns, wide enough to overrun a narrow
/// window.
fn columns_snapshot(count: u32) -> ViewSnapshot {
    let mut app = state::empty();
    for id in 1..=count {
        app.streams.insert(
            id,
            Stream {
                name: format!("App {id}"),
                app_id: Some(format!("com.example.App{id}")),
                node_name: Some(format!("node.{id}")),
                ..sample_stream(id, StreamKind::Application)
            },
        );
    }
    build_snapshot(&app)
}

/// A window too narrow for `count` columns, and the layout it projects to.
fn narrow(count: u32, scroll_x: i32) -> Layout {
    let snap = columns_snapshot(count);
    let mut ui = UiState::new();
    ui.scroll_x = scroll_x;
    project(&snap, &ui, Rect::new(0, 0, 300, 400))
}

/// The minimum is only worth advertising if a column actually fits in it:
/// header, fader, and the mute button under it, all inside the strip.
#[test]
fn a_window_at_the_minimum_size_still_holds_a_whole_column() {
    let (w, h) = minimum_size();
    let snap = columns_snapshot(1);
    let layout = project(&snap, &UiState::new(), Rect::new(0, 0, w, h));
    let col = layout.columns.first().expect("a column");

    assert!(
        col.rect.bottom() <= layout.strip.bottom(),
        "column {:?} runs past the strip {:?}",
        col.rect,
        layout.strip
    );
    assert!(
        col.slider.track.h >= metrics::MIN_FADER_HEIGHT,
        "fader is {} tall, under the {} the minimum promises",
        col.slider.track.h,
        metrics::MIN_FADER_HEIGHT
    );
    assert!(
        col.mute.bottom() <= col.rect.bottom(),
        "the mute button hangs out of its column"
    );
}

/// The declared minimum is a hint, so a compositor can hand over anything.
/// What keeps the window off the floor is the size being grown on the way
/// in, not the hint being honoured.
#[test]
fn a_size_under_the_minimum_is_grown_to_it() {
    let (min_w, min_h) = minimum_size();
    assert_eq!(at_least_minimum(1, 1), (min_w, min_h));
    assert_eq!(at_least_minimum(2000, 40), (2000, min_h));
    assert_eq!(at_least_minimum(40, 2000), (min_w, 2000));
    // A window already big enough is handed back untouched.
    assert_eq!(at_least_minimum(800, 600), (800, 600));
}

/// Both shells advertise the same minimum, and the fader is what sets it,
/// so a change to one number moves the window's floor with it.
#[test]
fn the_minimum_height_is_the_chrome_plus_a_column() {
    let (_, h) = minimum_size();
    let taller = metrics::MIN_FADER_HEIGHT + 10;
    let snap = columns_snapshot(1);
    let layout = project(&snap, &UiState::new(), Rect::new(0, 0, 300, h + 10));
    let col = layout.columns.first().expect("a column");
    assert_eq!(
        col.slider.track.h, taller,
        "ten pixels of window are ten pixels of fader"
    );
}

#[test]
fn the_strip_scrollbar_shows_only_once_the_columns_overrun_the_window() {
    let fits = project(
        &columns_snapshot(1),
        &UiState::new(),
        Rect::new(0, 0, 560, 400),
    );
    assert_eq!(fits.scroll_max_x, 0);
    assert!(
        fits.strip_scrollbar.is_none(),
        "columns that fit need no scrollbar"
    );

    let over = narrow(6, 0);
    assert!(over.scroll_max_x > 0);
    let bar = over.strip_scrollbar.as_ref().expect("scrollbar");
    assert!(
        bar.slider.w < bar.track.w,
        "the slider shows the visible share"
    );
    assert!(
        bar.track.bottom() <= over.strip.bottom(),
        "the bar rides inside the strip"
    );
}

#[test]
fn the_strip_slider_runs_from_one_end_to_the_other() {
    let start = narrow(6, 0);
    let bar = start.strip_scrollbar.as_ref().expect("scrollbar");
    assert_eq!(bar.slider.x, bar.track.x);

    let end = narrow(6, start.scroll_max_x);
    let bar = end.strip_scrollbar.as_ref().expect("scrollbar");
    assert_eq!(
        bar.slider.right(),
        bar.track.right(),
        "scrolled to the last column, the slider is at the end"
    );
}

#[test]
fn the_scrollbar_takes_presses_that_land_on_it() {
    let layout = narrow(6, 0);
    let bar = layout.strip_scrollbar.as_ref().expect("scrollbar");
    let (x, y) = (bar.slider.x + 2, bar.track.y + bar.track.h / 2);
    assert_eq!(layout.hit(x, y), Some(&HitTarget::StripScrollbar));
}

/// A palette holding more commands than the list can show, scrolled to
/// `scroll` with `selected` highlighted.
fn scrolling_palette(scroll: usize, selected: usize) -> ViewSnapshot {
    let mut app = state::empty();
    app.profiles.profiles.clear();
    for i in 0..VISIBLE_ROWS + 6 {
        app.profiles.profiles.push(Profile {
            name: format!("p{i}"),
            ..Default::default()
        });
    }
    app.palette_open = true;
    app.palette_scroll = scroll;
    app.palette_selected = selected;
    build_snapshot(&app)
}

#[test]
fn a_long_list_lays_out_one_window_of_rows_keyed_by_their_place_in_it() {
    let snap = scrolling_palette(4, 4);
    let layout = project(&snap, &UiState::new(), content());
    let palette = layout.palette.as_ref().expect("palette");

    assert!(snap.palette.rows.len() > VISIBLE_ROWS);
    assert_eq!(palette.rows.len(), VISIBLE_ROWS);
    assert_eq!(palette.first_visible, 4);

    // The first row on screen answers to its index in the whole list, not
    // its place in the window, so a click runs the command under it.
    let first = palette.rows[0];
    assert_eq!(
        layout.hit(first.x + 4, first.y + first.h / 2),
        Some(&HitTarget::PaletteRow(4))
    );
}

#[test]
fn every_row_stays_inside_the_panel() {
    let snap = scrolling_palette(6, 6);
    let layout = project(&snap, &UiState::new(), content());
    let palette = layout.palette.as_ref().expect("palette");
    let panel = palette.panel;
    for r in &palette.rows {
        assert!(
            r.y >= panel.y && r.bottom() <= panel.bottom(),
            "row {r:?} escapes panel {panel:?}"
        );
    }
}

#[test]
fn the_window_follows_a_selection_the_stored_scroll_left_behind() {
    // Scroll says the top of the list, selection says the bottom: the last
    // row wins, which is what a wrap from the first row asks for.
    let last = scrolling_palette(0, 0).palette.rows.len() - 1;
    let snap = scrolling_palette(0, last);
    let layout = project(&snap, &UiState::new(), content());
    let palette = layout.palette.as_ref().expect("palette");
    assert_eq!(
        palette.first_visible + palette.rows.len() - 1,
        last,
        "the window ends on the selected row"
    );
}

#[test]
fn a_short_window_shows_fewer_rows_than_the_nominal_count() {
    let snap = scrolling_palette(0, 0);
    // Room for a handful of rows, no more.
    let layout = project(&snap, &UiState::new(), Rect::new(0, 0, 560, 300));
    let palette = layout.palette.as_ref().expect("palette");
    assert!(
        palette.rows.len() < VISIBLE_ROWS,
        "expected a narrowed window, got {}",
        palette.rows.len()
    );
    assert!(palette.panel.bottom() <= 300, "panel overflows the window");
}

#[test]
fn the_scrollbar_shows_only_when_the_list_outgrows_its_window() {
    let mut app = state::empty();
    app.palette_open = true;
    // A fresh app offers a couple of commands, well inside one window.
    let short = build_snapshot(&app);
    let layout = project(&short, &UiState::new(), content());
    assert!(
        layout
            .palette
            .as_ref()
            .expect("palette")
            .scrollbar
            .is_none(),
        "a list that fits needs no scrollbar"
    );

    let snap = scrolling_palette(0, 0);
    let layout = project(&snap, &UiState::new(), content());
    assert!(
        layout
            .palette
            .as_ref()
            .expect("palette")
            .scrollbar
            .is_some()
    );
}

#[test]
fn the_slider_rides_the_track_from_top_to_bottom() {
    let total = scrolling_palette(0, 0).palette.rows.len();
    let max_scroll = total - VISIBLE_ROWS;

    let top = project(&scrolling_palette(0, 0), &UiState::new(), content());
    let top = top.palette.as_ref().expect("palette");
    let top = top.scrollbar.as_ref().expect("scrollbar");
    assert_eq!(top.slider.y, top.track.y, "unscrolled sits at the top");

    let end = project(
        &scrolling_palette(max_scroll, max_scroll),
        &UiState::new(),
        content(),
    );
    let end = end.palette.as_ref().expect("palette");
    let end = end.scrollbar.as_ref().expect("scrollbar");
    assert_eq!(
        end.slider.bottom(),
        end.track.bottom(),
        "scrolled to the end sits at the bottom"
    );
    assert!(
        end.slider.h < end.track.h,
        "the slider is shorter than its track"
    );
}

#[test]
fn rows_give_up_the_scrollbar_lane_rather_than_run_under_it() {
    let snap = scrolling_palette(0, 0);
    let layout = project(&snap, &UiState::new(), content());
    let palette = layout.palette.as_ref().expect("palette");
    let bar = palette.scrollbar.as_ref().expect("scrollbar");
    for r in &palette.rows {
        assert!(
            r.right() <= bar.track.x,
            "row {r:?} runs into the scrollbar lane at {}",
            bar.track.x
        );
    }
}
