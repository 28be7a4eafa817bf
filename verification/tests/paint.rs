//! What a frame draws.

use bnksound::command_palette::VISIBLE_ROWS;
use bnksound::domain::{DeviceForm, Gain, Stream, StreamKind};
use bnksound::profile::Profile;
use bnksound::render::buffer::{Color, PixelBuffer};
use bnksound::render::draw as render;
use bnksound::render::draw::{can_draw, draw_fallback_icon, plain_op, Op};
use bnksound::render::paint::{paint_frame, paint_meters, Mark, ICON_RADIUS};
use bnksound::render::primitives::Rect;
use bnksound::state;
use bnksound::state::App;
use bnksound::ui::halo::FADE;
use bnksound::ui::meter::segment_coverage;
use bnksound::ui::layout::{project, HitTarget, Layout, PaletteGeom, RowId};
use bnksound::ui::theme::Palette;
use bnksound::ui::{metrics, UiState};
use bnksound::view::rows::{Level, Levels};
use bnksound::view::snapshot::ViewSnapshot;

fn sample_stream(id: u32, kind: StreamKind) -> Stream {
    Stream {
        id,
        kind,
        name: format!("node-{id}"),
        app_id: None,
        binary: None,
        pid: None,
        node_name: None,
        media_name: None,
        media_role: None,
        volume: Gain { bits: 0.5f32.to_bits() },
        muted: false,
        xdg: None,
        form: None,
        is_default: false,
        target_sink_name: None,
    }
}

/// The faders' places, without titles.
fn levels(app: &App) -> Levels {
    let mut levels = Levels::new();
    for (id, stream) in &app.streams.entries {
        let cubic = f32::from_bits(stream.volume.bits).cbrt();
        levels.insert(
            *id,
            Level {
                cubic: Gain { bits: cubic.to_bits() },
                title: None,
            },
        );
    }
    levels
}

/// The commands an app's palette offers: one per profile and two more.
fn commands(app: &App) -> Vec<String> {
    let mut commands = vec!["Create profile".to_string(), "Mute all".to_string()];
    for profile in &app.profiles.profiles {
        commands.push(format!("Apply {}", profile.name));
    }
    commands
}

fn build_snapshot(app: &App) -> ViewSnapshot {
    bnksound::view::snapshot::build_snapshot(app, &levels(app), commands(app))
}

fn copy(row: &RowId) -> RowId {
    match row {
        RowId::Sink(id) => RowId::Sink(*id),
        RowId::Source(id) => RowId::Source(*id),
        RowId::AppMember(id) => RowId::AppMember(*id),
        RowId::AppGroup(key) => RowId::AppGroup(key.clone()),
    }
}

fn peaks(v: &[f32]) -> Vec<Gain> {
    v.iter().map(|p| Gain { bits: p.to_bits() }).collect()
}

/// How much of a meter a peak lights.
fn lit_fraction(peak: f32) -> f32 {
    let db = 20.0 * peak.max(1e-6).log10();
    ((db + 60.0) / 60.0).clamp(0.0, 1.0)
}

/// What a frame's marks draw, apart from their text.
fn ops(marks: &[Mark]) -> Vec<Op> {
    marks
        .iter()
        .filter_map(|mark| match mark {
            Mark::Icon { rect, key, .. } => Some(draw_fallback_icon(*rect, key, ICON_RADIUS)),
            Mark::Level { rect, peak, index, total, color } => {
                let lit = Gain { bits: lit_fraction(f32::from_bits(peak.bits)).to_bits() };
                let alpha = segment_coverage(lit, *total, *index);
                Some(Op::Fill { rect: *rect, color: color.scale_alpha(alpha) })
            }
            _ => plain_op(mark),
        })
        .collect()
}

/// Draw marks, apart from their text.
fn draw(buf: &mut PixelBuffer, marks: &[Mark]) {
    let ops = ops(marks);
    let mut painter = buf.painter();
    assert!(ops.iter().all(|op| can_draw(op, painter.scale())));
    render::draw(&mut painter, &ops);
}

fn stream(id: u32, kind: StreamKind) -> Stream {
    Stream {
        name: format!("Device {id}"),
        node_name: Some(format!("node.{id}")),
        form: Some(DeviceForm {
            rank: 0,
            label: "SPEAKER".into(),
        }),
        is_default: id == 1,
        ..sample_stream(id, kind)
    }
}

fn scene() -> App {
    let mut a = state::empty();
    a.streams.insert(1, stream(1, StreamKind::Sink));
    a.streams.insert(2, stream(2, StreamKind::Source));
    let mut app = stream(3, StreamKind::Application);
    app.app_id = Some("com.example.Player".into());
    app.form = None;
    a.streams.insert(3, app);
    a
}

/// The same scene with a second stream under one app id, so the group's
/// column can expand and carries the marker.
fn expandable_scene() -> App {
    let mut a = scene();
    let mut extra = stream(4, StreamKind::Application);
    extra.app_id = Some("com.example.Player".into());
    extra.form = None;
    a.streams.insert(4, extra);
    a
}

fn render(app: &App, w: u32, h: u32) -> PixelBuffer {
    let snap = build_snapshot(app);
    let content = Rect::new(0, 0, w as i32, h as i32);
    let ui = UiState::new();
    let layout = project(&snap, &ui, content);
    let mut buf = PixelBuffer::new(w, h);
    let marks = paint_frame(content, &snap, &ui, &layout, &Palette::dark());
    draw(&mut buf, &marks);
    buf
}

/// The app column of a rendered scene, with its layout.
fn app_column(app: &App) -> (Layout, usize) {
    let snap = build_snapshot(app);
    let ui = UiState::new();
    let layout = project(&snap, &ui, Rect::new(0, 0, 560, 720));
    let at = layout
        .columns
        .iter()
        .position(|c| matches!(c.id, RowId::AppGroup(_)))
        .expect("an app column");
    (layout, at)
}

/// The toggle that opens a group's child columns sits one slot above the
/// topmost target pin, in the same button column, and a click there reaches
/// the expand target rather than a pin.
#[test]
fn an_expandable_group_gets_a_toggle_above_its_target_pins() {
    let app = expandable_scene();
    let (layout, at) = app_column(&app);
    let col = &layout.columns[at];
    let top_pin = col.targets.first().expect("an autoroute pin").0;

    assert_eq!(col.expand.x, top_pin.x, "same button column as the pins");
    assert!(
        col.expand.bottom() <= top_pin.y,
        "expand {:?} should sit above the topmost pin {top_pin:?}",
        col.expand
    );
    assert_eq!(
        layout.hit(
            col.expand.x + col.expand.w / 2,
            col.expand.y + col.expand.h / 2
        ),
        Some(&HitTarget::AppExpand(copy(&col.id))),
    );
}

/// A group of one has nothing to open, so it gets no toggle and the slot
/// above its pins stays empty.
#[test]
fn a_single_stream_group_gets_no_toggle() {
    let app = scene();
    let (layout, at) = app_column(&app);
    let col = &layout.columns[at];
    assert!(col.expand.is_empty(), "got {:?}", col.expand);

    let top_pin = col.targets.first().expect("an autoroute pin").0;
    let above = top_pin.y - metrics::PICK_STACK_GAP - 1;
    assert!(
        !matches!(
            layout.hit(top_pin.x + top_pin.w / 2, above),
            Some(HitTarget::AppExpand(_))
        ),
        "nothing above the pins should expand"
    );
}

/// The marker is drawn, not typeset, because the triangles it would need
/// are missing from common UI fonts. Ink inside the toggle catches it
/// vanishing; the empty-slot comparison keeps chrome from faking a pass.
#[test]
fn the_toggle_carries_a_drawn_marker() {
    let bg = Palette::dark().bg.to_opaque_u32();
    let app = expandable_scene();
    let (layout, at) = app_column(&app);
    let expand = layout.columns[at].expand;
    let buf = render(&app, 560, 720);

    // Inside the border, so only the marker inks these rows.
    let inner = expand.inset(4);
    let mut ink = 0;
    for y in inner.y..inner.bottom() {
        for x in inner.x..inner.right() {
            if buf.pixels()[y as usize * 560 + x as usize] != bg {
                ink += 1;
            }
        }
    }
    assert!(ink > 0, "the toggle should carry a drawn marker");
}

/// The palette open over a list long enough to scroll, with the geometry
/// the assertions need to know where to look.
fn palette_frame() -> (PixelBuffer, PaletteGeom) {
    let mut app = state::empty();
    app.profiles.profiles.clear();
    for i in 0..VISIBLE_ROWS + 6 {
        app.profiles.profiles.push(Profile {
            name: format!("p{i}"),
            ..Default::default()
        });
    }
    app.palette_open = true;

    let snap = build_snapshot(&app);
    let content = Rect::new(0, 0, 560, 720);
    let ui = UiState::new();
    let layout = project(&snap, &ui, content);
    let mut buf = PixelBuffer::new(560, 720);
    let marks = paint_frame(content, &snap, &ui, &layout, &Palette::dark());
    draw(&mut buf, &marks);
    (buf, layout.palette.expect("palette"))
}

/// The pixel at a point, as drawn.
fn pixel_at(buf: &PixelBuffer, x: i32, y: i32) -> u32 {
    buf.pixels()[y as usize * buf.width() as usize + x as usize]
}

#[test]
fn the_search_field_is_the_same_shade_as_the_panel_around_it() {
    let (buf, geom) = palette_frame();
    // Inside the field, then just above it in the panel's own padding.
    let inside = pixel_at(&buf, geom.input.right() - 3, geom.input.y + 3);
    let around = pixel_at(&buf, geom.input.right() - 3, geom.panel.y + 3);
    assert_eq!(
        inside, around,
        "the field should not read as a well cut into the panel"
    );
}

#[test]
fn the_scrollbar_slider_draws_lighter_than_the_panel_behind_it() {
    let (buf, geom) = palette_frame();
    let bar = geom.scrollbar.as_ref().expect("scrollbar");
    let slider = pixel_at(
        &buf,
        bar.slider.x + bar.slider.w / 2,
        bar.slider.y + bar.slider.h / 2,
    );
    // Below the slider the track is empty, so the panel shows through.
    let empty = pixel_at(
        &buf,
        bar.slider.x + bar.slider.w / 2,
        bar.track.bottom() - 2,
    );
    assert_ne!(slider, empty, "the slider should be visible on the track");
    assert!(
        slider & 0xff > empty & 0xff,
        "the slider is a wash over the panel, so it lightens it"
    );
}

/// How bright a color is.
fn brightness(c: Color) -> u32 {
    c.r as u32 + c.g as u32 + c.b as u32
}

#[test]
fn a_commands_namespace_is_drawn_dimmer_than_its_action() {
    let mut app = state::empty();
    app.palette_open = true;
    let snap = bnksound::view::snapshot::build_snapshot(
        &app,
        &levels(&app),
        vec!["profile: apply -> p0".to_string()],
    );
    let content = Rect::new(0, 0, 560, 720);
    let ui = UiState::new();
    let layout = project(&snap, &ui, content);
    let marks = paint_frame(content, &snap, &ui, &layout, &Palette::dark());
    let command = marks.iter().find_map(|m| match m {
        Mark::Command {
            namespace,
            action,
            dim,
            full,
            ..
        } => Some((namespace, action, dim, full)),
        _ => None,
    });
    let (namespace, action, dim, full) = command.expect("a command is drawn");
    assert_eq!(namespace, "profile: ");
    assert_eq!(action, "apply -> p0");
    assert!(brightness(dim.color) < brightness(full.color));
}

#[test]
fn a_frame_draws_something_over_the_background() {
    let buf = render(&scene(), 560, 720);
    let bg = Palette::dark().bg.to_opaque_u32();
    let non_bg = buf.pixels().iter().filter(|&&p| p != bg).count();
    assert!(
        non_bg > 1000,
        "expected a drawn frame, {non_bg} non-bg pixels"
    );
}



#[test]
fn identical_state_paints_identically() {
    let app = scene();
    let a = render(&app, 560, 720);
    let b = render(&app, 560, 720);
    assert_eq!(a.pixels(), b.pixels(), "rendering is deterministic");
}

/// Paint a frame, step the meters, and repaint through the damage gate.
/// Returns the gated buffer beside the full repaint it has to match, and
/// the layout both were painted from.
fn gated_and_full(
    app: &App,
    mut ui: UiState,
) -> (PixelBuffer, PixelBuffer, Layout) {
    let palette = Palette::dark();
    let (w, h) = (560, 720);
    let snap = build_snapshot(app);

    let rows: Vec<&RowId> = snap
        .meter_routes
        .entries
        .iter()
        .flat_map(|(_, route)| route.rows.iter())
        .collect();
    assert!(!rows.is_empty(), "the scene routes no meters to draw");
    for row in &rows {
        ui.meters.apply(row, &peaks(&[0.15, 0.1]));
    }

    let bounds = Rect::new(0, 0, w, h);
    let layout = project(&snap, &ui, bounds);
    assert!(
        !layout.meter_damage().is_empty(),
        "the layout offers no meter rectangles to repaint",
    );

    let mut gated = PixelBuffer::new(w as u32, h as u32);
    let marks = paint_frame(bounds, &snap, &ui, &layout, &palette);
    draw(&mut gated, &marks);

    // One tick: every bar decays, then the newest peaks fold in. That pair
    // is the only thing a meter step does to the frame.
    assert!(ui.meters.decay(), "the decay moved nothing");
    for row in &rows {
        assert!(
            ui.meters.apply(row, &peaks(&[0.95, 0.8])),
            "the peaks moved nothing"
        );
    }

    let mut full = PixelBuffer::new(w as u32, h as u32);
    let marks = paint_frame(bounds, &snap, &ui, &layout, &palette);
    draw(&mut full, &marks);
    assert!(
        gated.pixels() != full.pixels(),
        "the step changed nothing, so there is nothing to catch",
    );

    let marks = paint_meters(bounds, &snap, &ui, &layout, &palette);
    draw(&mut gated, &marks);
    (gated, full, layout)
}

/// The index of the first pixel two buffers disagree on.
fn first_difference(a: &PixelBuffer, b: &PixelBuffer) -> Option<(i32, i32)> {
    let w = a.width() as i32;
    a.pixels()
        .iter()
        .zip(b.pixels())
        .position(|(x, y)| x != y)
        .map(|i| (i as i32 % w, i as i32 / w))
}

/// The claim the shell bets a frame on: repainting only the meter
/// rectangles over the frame before leaves the pixels a full repaint would.
/// If these ever part, a window shows a mixer that has moved on.
#[test]
fn a_meters_repaint_matches_a_full_one() {
    let (gated, full, _) = gated_and_full(&scene(), UiState::new());
    assert_eq!(first_difference(&gated, &full), None);
}

/// The same with the profile menu open, which hangs over the top of the
/// columns. A meter it half covers is the case that would show a gate
/// painting straight through an overlay.
#[test]
fn a_meters_repaint_keeps_an_overlay_on_top() {
    let mut app = scene();
    for i in 0..6 {
        app.profiles.profiles.push(Profile {
            name: format!("p{i}"),
            ..Default::default()
        });
    }
    let mut ui = UiState::new();
    ui.profile_menu_open = true;
    let (gated, full, layout) = gated_and_full(&app, ui);

    let panel = layout
        .profile_menu
        .as_ref()
        .expect("the menu is open")
        .panel;
    assert!(
        layout
            .meter_damage()
            .iter()
            .any(|r| !r.intersect(panel).is_empty()),
        "the menu hangs over no meter, so it covers nothing to get wrong",
    );
    assert_eq!(first_difference(&gated, &full), None);
}

#[test]
fn empty_state_is_just_chrome() {
    // No streams: background and toolbar only, no columns.
    let buf = render(&state::empty(), 560, 720);
    let bg = Palette::dark().bg.to_opaque_u32();
    let titlebar = Palette::dark().titlebar.to_opaque_u32();
    // Toolbar band exists; the strip below is mostly background.
    let strip_start = 40 * 560;
    let strip_bg = buf.pixels()[strip_start..]
        .iter()
        .filter(|&&p| p == bg)
        .count();
    assert!(strip_bg > 560 * 600, "strip should be mostly background");
    assert!(buf.pixels()[..strip_start].contains(&titlebar));
}

/// Render with the hover ring at a given part of its fade on the first column.
fn render_with_halo(app: &App, percent: u64) -> PixelBuffer {
    let snap = build_snapshot(app);
    let content = Rect::new(0, 0, 560, 720);
    let mut ui = UiState::new();
    let layout = project(&snap, &ui, content);
    let row = layout.columns.first().map(|c| copy(&c.id));

    // Drive the fade the way a shell's tick would, far enough to reach the part
    // asked for.
    ui.halo.advance(row.as_ref(), 0);
    ui.halo.advance(row.as_ref(), FADE / 100 * percent);

    let mut buf = PixelBuffer::new(560, 720);
    let marks = paint_frame(content, &snap, &ui, &layout, &Palette::dark());
    draw(&mut buf, &marks);
    buf
}

#[test]
fn the_hover_ring_draws_and_grows_with_the_fade() {
    let app = scene();
    let cold = render_with_halo(&app, 0);
    let partway = render_with_halo(&app, 30);
    let full = render_with_halo(&app, 100);

    // The ring sits heavier the fuller it is.
    let weight = |a: &PixelBuffer, b: &PixelBuffer| -> u64 {
        a.pixels()
            .iter()
            .zip(b.pixels())
            .map(|(x, y)| {
                let channel = |v: u32, s: u32| ((v >> s) & 0xff) as i64;
                (0..3)
                    .map(|i| (channel(*x, i * 8) - channel(*y, i * 8)).unsigned_abs())
                    .sum::<u64>()
            })
            .sum()
    };

    let mid = weight(&cold, &partway);
    let end = weight(&cold, &full);
    assert!(mid > 0, "a ring partway through the fade is visible");
    assert!(
        end > mid,
        "a fuller ring sits heavier than a fainter one ({end} vs {mid})",
    );

    // The ring grows out of the knob rather than fading in at full width,
    // which is most of what makes the fade visible at this alpha.
    let covered = |a: &PixelBuffer, b: &PixelBuffer| {
        a.pixels()
            .iter()
            .zip(b.pixels())
            .filter(|(x, y)| x != y)
            .count()
    };
    assert!(
        covered(&cold, &full) > covered(&cold, &partway),
        "a fuller ring reaches further out than a fainter one",
    );
}

/// A whole frame on the pixels: the background around the columns, and of one
/// column its round knob, with the corners of the square around it left to what
/// lies behind, its mute button's border and its meter.
#[test]
fn a_frame_reaches_the_pixels() {
    let p = Palette::dark();
    let app = scene();
    let snap = build_snapshot(&app);
    let mut ui = UiState::new();
    ui.meters.apply(&RowId::Sink(1), &peaks(&[1.0, 1.0]));
    let content = Rect::new(0, 0, 560, 720);
    let layout = project(&snap, &ui, content);
    let mut buf = PixelBuffer::new(560, 720);
    let marks = paint_frame(content, &snap, &ui, &layout, &p);
    draw(&mut buf, &marks);

    assert_eq!(pixel_at(&buf, 550, 700), p.bg.to_opaque_u32());
    let at = |id: RowId| layout.columns.iter().find(|c| c.id == id).expect("a column");
    let (sink, source) = (at(RowId::Sink(1)), at(RowId::Source(2)));
    let thumb = sink.slider.thumb;
    let middle = pixel_at(&buf, thumb.x + thumb.w / 2, thumb.y + 4);
    assert_ne!(middle, p.bg.to_opaque_u32(), "the knob is there");
    assert_ne!(middle, pixel_at(&buf, thumb.x, thumb.y), "and it is round");
    let meter = sink.meter;
    let cell = pixel_at(&buf, meter.x + 3, meter.bottom() - 3);
    assert_ne!(cell, p.bg.to_opaque_u32(), "the meter is lit");
    let quiet = pixel_at(&buf, source.meter.x + 3, source.meter.bottom() - 3);
    assert_ne!(cell, quiet, "the other is not");
    // The same list once more, and the same frame comes out.
    let mut again = PixelBuffer::new(560, 720);
    draw(&mut again, &marks);
    assert_eq!(buf.pixels(), again.pixels());
}
