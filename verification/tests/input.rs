//! What events ask for.

use bnksound::command_palette::VISIBLE_ROWS;
use bnksound::domain::{Gain, Section, Stream, StreamKind};
use bnksound::profile::Profile;
use bnksound::render::primitives::Rect;
use bnksound::state;
use bnksound::state::{App, Message};
use bnksound::ui::editor::Editor;
use bnksound::ui::input::{
    caret_field, clipboard_action, edit_key, is_screenshot_key, on_key, on_pointer, window_action,
    ClipboardAction, Key, KeyEvent, Modifiers, MouseButton, PointerAction, PointerEvent, Request,
    WindowAction,
};
use bnksound::ui::layout::{project, HitTarget, Layout, ResizeEdge, RowId};
use bnksound::ui::{keysym, metrics, Drag, Focus, UiState, SUBPIXELS};
use bnksound::view::rows::{Level, Levels};
use bnksound::view::snapshot::ViewSnapshot;

/// How wide each character of a field's text is here.
const CHAR_W: i32 = 7;

/// The faders' places, without titles.
fn levels(app: &App) -> Levels {
    let mut levels = Levels::new();
    for (id, stream) in &app.streams.entries {
        let cubic = f32::from_bits(stream.volume.bits).cbrt();
        levels.insert(
            *id,
            Level {
                cubic: Gain { bits: cubic.to_bits() },
                title: None,
            },
        );
    }
    levels
}

/// The commands an app's palette offers: one per profile and two more.
fn commands(app: &App) -> Vec<String> {
    let mut commands = vec!["Create profile".to_string(), "Mute all".to_string()];
    for profile in &app.profiles.profiles {
        commands.push(format!("Apply {}", profile.name));
    }
    commands
}

fn build_snapshot(app: &App) -> ViewSnapshot {
    bnksound::view::snapshot::build_snapshot(app, &levels(app), commands(app))
}

#[test]
fn keysyms_name_the_keys_the_ui_acts_on() {
    assert_eq!(Key::from_keysym(keysym::RETURN), Some(Key::Enter));
    assert_eq!(Key::from_keysym(keysym::ESCAPE), Some(Key::Escape));
    assert_eq!(Key::from_keysym(keysym::BACKSPACE), Some(Key::Backspace));
    assert_eq!(Key::from_keysym(keysym::DELETE), Some(Key::Delete));
    assert_eq!(Key::from_keysym(keysym::TAB), Some(Key::Tab));
    assert_eq!(Key::from_keysym(keysym::LEFT), Some(Key::Left));
    assert_eq!(Key::from_keysym(keysym::RIGHT), Some(Key::Right));
    assert_eq!(Key::from_keysym(keysym::UP), Some(Key::Up));
    assert_eq!(Key::from_keysym(keysym::DOWN), Some(Key::Down));
    assert_eq!(Key::from_keysym(keysym::HOME), Some(Key::Home));
    assert_eq!(Key::from_keysym(keysym::END), Some(Key::End));
}

/// The keypad and ISO variants reach the same keys. Both shells share this
/// table now, so a keypad Enter works in either.
#[test]
fn keypad_and_iso_variants_reach_the_same_keys() {
    assert_eq!(Key::from_keysym(keysym::KP_ENTER), Some(Key::Enter));
    assert_eq!(Key::from_keysym(keysym::ISO_ENTER), Some(Key::Enter));
    assert_eq!(Key::from_keysym(keysym::ISO_LEFT_TAB), Some(Key::Tab));
    assert_eq!(Key::from_keysym(keysym::KP_DELETE), Some(Key::Delete));
    assert_eq!(Key::from_keysym(keysym::KP_LEFT), Some(Key::Left));
    assert_eq!(Key::from_keysym(keysym::KP_RIGHT), Some(Key::Right));
    assert_eq!(Key::from_keysym(keysym::KP_UP), Some(Key::Up));
    assert_eq!(Key::from_keysym(keysym::KP_DOWN), Some(Key::Down));
    assert_eq!(Key::from_keysym(keysym::KP_HOME), Some(Key::Home));
    assert_eq!(Key::from_keysym(keysym::KP_END), Some(Key::End));
}

/// Characters are not named keys: each shell turns those into Key::Char
/// with its own keysym-to-character conversion.
#[test]
fn character_keysyms_are_left_to_the_shell() {
    assert_eq!(Key::from_keysym(0x6b), None, "the keysym for k");
    assert_eq!(Key::from_keysym(0x20), None, "space");
    assert_eq!(Key::from_keysym(0), None, "no symbol at all");
}

#[test]
fn clipboard_keys_only_apply_to_a_focused_editor() {
    let ctrl = Modifiers {
        ctrl: true,
        ..Default::default()
    };
    let mut ui = UiState::new();
    let ev = |k| KeyEvent { key: k, mods: ctrl };

    // The mixer body has no text, so Ctrl+C there is not a clipboard action.
    assert_eq!(clipboard_action(&ui, ev(Key::Char('c'))), None);

    ui.focus = Focus::Palette;
    assert_eq!(
        clipboard_action(&ui, ev(Key::Char('c'))),
        Some(ClipboardAction::Copy)
    );
    assert_eq!(
        clipboard_action(&ui, ev(Key::Char('x'))),
        Some(ClipboardAction::Cut)
    );
    assert_eq!(
        clipboard_action(&ui, ev(Key::Char('v'))),
        Some(ClipboardAction::Paste)
    );
    // A bare letter is typing, not a shortcut.
    assert_eq!(
        clipboard_action(
            &ui,
            KeyEvent {
                key: Key::Char('v'),
                mods: Modifiers::default()
            }
        ),
        None
    );
}

#[test]
fn modifier_predicates() {
    assert!(Modifiers::default().is_none());
    let ctrl = Modifiers {
        ctrl: true,
        ..Default::default()
    };
    assert!(ctrl.is_ctrl());
    assert!(!ctrl.is_none());
    let ctrl_shift = Modifiers {
        ctrl: true,
        shift: true,
        alt: false,
    };
    assert!(!ctrl_shift.is_ctrl(), "ctrl+shift is not bare ctrl");
}

#[test]
fn pointer_position_reads_back() {
    let e = PointerEvent {
        x: 12 * SUBPIXELS + SUBPIXELS / 2,
        y: 7 * SUBPIXELS,
        caret: 0,
        action: PointerAction::Press(MouseButton::Left),
    };
    assert_eq!(e.position(), (12 * SUBPIXELS + SUBPIXELS / 2, 7 * SUBPIXELS));
}


/// Where a character of a field's text begins, in a font whose characters are
/// all as wide.
fn x_at_char_offset(n: usize) -> i32 {
    n as i32 * CHAR_W
}

/// The character offset a point is over in a field.
fn caret_at(ui: &UiState, field: Rect, x: i32) -> usize {
    let along = x - field.x - metrics::FIELD_PAD;
    let n = (along + CHAR_W / 2).max(0) / CHAR_W;
    (n as usize).min(ui.editor.text().chars().count())
}

fn scene() -> (UiState, Layout, ViewSnapshot) {
    let mut app = state::empty();
    app.streams.insert(
        1,
        Stream {
            id: 1,
            kind: StreamKind::Sink,
            name: "Speaker".into(),
            app_id: None,
            binary: None,
            pid: None,
            node_name: Some("node.1".into()),
            media_name: None,
            media_role: None,
            volume: Gain { bits: 0.5f32.to_bits() },
            muted: false,
            xdg: None,
            form: None,
            is_default: false,
            target_sink_name: None,
        },
    );
    let snap = build_snapshot(&app);
    let layout = project(&snap, &UiState::new(), Rect::new(0, 0, 560, 720));
    (UiState::new(), layout, snap)
}

fn press_at(
    ui: &mut UiState,
    layout: &Layout,
    snap: &ViewSnapshot,
    x: i32,
    y: i32,
) -> Vec<Request> {
    pointer_at(
        ui,
        layout,
        snap,
        PointerAction::Press(MouseButton::Left),
        x,
        y,
        0,
    )
}

fn pointer_at(
    ui: &mut UiState,
    layout: &Layout,
    snap: &ViewSnapshot,
    action: PointerAction,
    x: i32,
    y: i32,
    ms: u64,
) -> Vec<Request> {
    let mut event = PointerEvent {
        x: x * SUBPIXELS,
        y: y * SUBPIXELS,
        caret: 0,
        action,
    };
    if let Some(field) = caret_field(ui, layout, event) {
        event.caret = caret_at(ui, field, x);
    }
    on_pointer(ui, layout, snap, event, ms)
}

/// A strip holding more columns than the window fits, so there is somewhere
/// to scroll to.
fn wide_scene() -> (UiState, Layout, ViewSnapshot) {
    let mut app = state::empty();
    for id in 1..=8 {
        app.streams.insert(
            id,
            Stream {
                id,
                kind: StreamKind::Sink,
                name: format!("Speaker {id}"),
                app_id: None,
                binary: None,
                pid: None,
                node_name: Some(format!("node.{id}")),
                media_name: None,
                media_role: None,
                volume: Gain { bits: 0.5f32.to_bits() },
                muted: false,
                xdg: None,
                form: None,
                is_default: false,
                target_sink_name: None,
            },
        );
    }
    let snap = build_snapshot(&app);
    let ui = UiState::new();
    let layout = project(&snap, &ui, Rect::new(0, 0, 560, 720));
    (ui, layout, snap)
}

fn scroll_by(
    ui: &mut UiState,
    layout: &Layout,
    snap: &ViewSnapshot,
    dx: f32,
    dy: f32,
) -> Vec<Request> {
    let parts = |v: f32| (v * SUBPIXELS as f32).round() as i32;
    let action = PointerAction::Scroll {
        dx: parts(dx),
        dy: parts(dy),
    };
    pointer_at(ui, layout, snap, action, 0, 0, 0)
}

/// A touchpad swiped sideways reports its delta on the horizontal axis, and
/// the strip it is over runs sideways, so it has to move.
#[test]
fn a_sideways_swipe_scrolls_the_strip() {
    let (mut ui, layout, snap) = wide_scene();
    assert!(
        layout.scroll_max_x > 0,
        "the scene is wider than the window"
    );

    scroll_by(&mut ui, &layout, &snap, 30.0, 0.0);
    assert_eq!(ui.scroll_x, 30, "a horizontal swipe moves the strip");

    // A wheel notch, which only ever reports the vertical axis, moves the
    // same strip the same way.
    scroll_by(&mut ui, &layout, &snap, 0.0, 10.0);
    assert_eq!(ui.scroll_x, 40);

    // Scrolling back past the start stops at it.
    scroll_by(&mut ui, &layout, &snap, -500.0, 0.0);
    assert_eq!(ui.scroll_x, 0);
}

/// Dragging the scrollbar takes the strip with it, and the slider keeps
/// the part of itself that was grabbed under the pointer.
#[test]
fn dragging_the_scrollbar_scrolls_the_strip() {
    let (mut ui, layout, snap) = wide_scene();
    let bar = layout.strip_scrollbar.as_ref().expect("scrollbar");
    let y = bar.track.y + bar.track.h / 2;
    let grab = 3;

    press_at(&mut ui, &layout, &snap, bar.slider.x + grab, y);
    assert!(matches!(ui.drag, Some(Drag::StripScroll { grab: 3 })));
    assert_eq!(ui.scroll_x, 0, "the press alone moves nothing");

    // Drag to the far end of the track, which is the end of the strip.
    pointer_at(
        &mut ui,
        &layout,
        &snap,
        PointerAction::Motion,
        bar.track.right(),
        y,
        0,
    );
    assert_eq!(ui.scroll_x, layout.scroll_max_x);

    pointer_at(&mut ui, &layout, &snap, PointerAction::Motion, 0, y, 0);
    assert_eq!(ui.scroll_x, 0, "and back to the first column");
}

/// A press beside the slider is how a scrollbar pages: the slider comes to
/// the pointer instead of waiting to be dragged there.
#[test]
fn pressing_the_track_brings_the_slider_to_the_pointer() {
    let (mut ui, layout, snap) = wide_scene();
    let bar = layout.strip_scrollbar.as_ref().expect("scrollbar");
    let y = bar.track.y + bar.track.h / 2;

    press_at(&mut ui, &layout, &snap, bar.track.right() - 1, y);
    assert_eq!(ui.scroll_x, layout.scroll_max_x);
    assert!(
        matches!(ui.drag, Some(Drag::StripScroll { .. })),
        "the same press keeps hold of the slider"
    );
}

#[test]
fn a_strip_that_fits_has_no_scrollbar_to_press() {
    let (_, layout, _) = scene();
    assert_eq!(layout.scroll_max_x, 0);
    assert!(layout.strip_scrollbar.is_none());
}

/// A touchpad reports fractions of a pixel. Truncating each one on its own
/// leaves a slow drag moving nothing at all, however far it goes.
#[test]
fn sub_pixel_scrolls_accumulate_instead_of_vanishing() {
    let (mut ui, layout, snap) = wide_scene();
    for _ in 0..3 {
        scroll_by(&mut ui, &layout, &snap, 0.0, 0.3);
        assert_eq!(ui.scroll_x, 0, "under a pixel, so nothing has moved yet");
    }
    scroll_by(&mut ui, &layout, &snap, 0.0, 0.3);
    assert_eq!(ui.scroll_x, 1, "four tenths-of-a-pixel steps add up to one");
}

/// A palette holding more commands than one window of rows can show.
fn scrolling_palette_scene() -> (UiState, Layout, ViewSnapshot) {
    let mut app = state::empty();
    app.profiles.profiles.clear();
    for i in 0..VISIBLE_ROWS + 6 {
        app.profiles.profiles.push(Profile {
            name: format!("p{i}"),
            ..Default::default()
        });
    }
    app.palette_open = true;
    let snap = build_snapshot(&app);
    let mut ui = UiState::new();
    ui.focus = Focus::Palette;
    let layout = project(&snap, &ui, Rect::new(0, 0, 560, 720));
    (ui, layout, snap)
}

/// With the palette open the wheel belongs to its list, and it counts in
/// rows rather than pixels.
#[test]
fn the_wheel_moves_the_palette_list_and_leaves_the_strip_alone() {
    let (mut ui, layout, snap) = scrolling_palette_scene();
    let row_h = metrics::PALETTE_ROW_H as f32;

    let msgs = scroll_by(&mut ui, &layout, &snap, 0.0, row_h * 2.0);
    assert!(matches!(msgs.as_slice(), [Request::Send(Message::PaletteScrollTo(2))]));
    assert_eq!(ui.scroll_x, 0, "the mixer behind it stays put");

    // Half a row moves nothing yet; the other half gets there.
    let msgs = scroll_by(&mut ui, &layout, &snap, 0.0, row_h / 2.0);
    assert!(msgs.is_empty(), "under a row, so the list has not moved");
    let msgs = scroll_by(&mut ui, &layout, &snap, 0.0, row_h / 2.0);
    assert!(
        matches!(msgs.as_slice(), [Request::Send(Message::PaletteScrollTo(1))]),
        "the offset is counted from the window on screen, not the gesture"
    );
}

#[test]
fn the_wheel_stops_at_both_ends_of_the_list() {
    let (mut ui, layout, snap) = scrolling_palette_scene();
    let row_h = metrics::PALETTE_ROW_H as f32;
    let palette = layout.palette.as_ref().expect("palette");
    let last = snap.palette.rows.len() - palette.rows.len();

    let msgs = scroll_by(&mut ui, &layout, &snap, 0.0, row_h * 100.0);
    assert!(
        matches!(msgs.as_slice(), [Request::Send(Message::PaletteScrollTo(row))] if *row == last),
        "the end of the list is as far as it goes"
    );
    // Already at the top, so scrolling up asks for nothing at all.
    let msgs = scroll_by(&mut ui, &layout, &snap, 0.0, -row_h * 100.0);
    assert!(msgs.is_empty());
}

#[test]
fn only_the_knob_lights_the_ring_though_the_whole_track_takes_a_click() {
    let (mut ui, layout, snap) = scene();
    let col = layout
        .columns
        .iter()
        .find(|c| c.id == RowId::Sink(1))
        .expect("sink column");
    let thumb = col.slider.thumb;
    let track = col.slider.track;

    // Over the knob: the ring is lit.
    pointer_at(
        &mut ui,
        &layout,
        &snap,
        PointerAction::Motion,
        thumb.x + thumb.w / 2,
        thumb.y + thumb.h / 2,
        0,
    );
    assert_eq!(ui.lit_knob(), Some(RowId::Sink(1)), "the knob lights it");

    // Further up the same track, well clear of the knob: still the
    // slider's hit target, but no ring.
    let above = thumb.y - thumb.h * 2;
    assert!(
        above > track.y,
        "the scene has track above the knob to aim at"
    );
    pointer_at(
        &mut ui,
        &layout,
        &snap,
        PointerAction::Motion,
        track.x + track.w / 2,
        above,
        1,
    );
    assert!(
        matches!(ui.hover, Some(HitTarget::RowSlider(_))),
        "the track is still what a click would land on",
    );
    assert_eq!(ui.lit_knob(), None, "but the ring stays dark");
}

/// Both shells report the pointer leaving the window as a motion to a point
/// outside it, so that one move has to put every hover-driven thing back to
/// rest. Without it the last thing hovered keeps its highlight and its ring
/// after the pointer is gone.
#[test]
fn a_motion_outside_the_window_clears_every_hover() {
    let (mut ui, layout, snap) = scene();
    let col = layout
        .columns
        .iter()
        .find(|c| c.id == RowId::Sink(1))
        .expect("sink column");
    let thumb = col.slider.thumb;

    pointer_at(
        &mut ui,
        &layout,
        &snap,
        PointerAction::Motion,
        thumb.x + thumb.w / 2,
        thumb.y + thumb.h / 2,
        0,
    );
    assert!(ui.hover.is_some());
    assert!(ui.knob_hover.is_some());

    pointer_at(&mut ui, &layout, &snap, PointerAction::Motion, -1, -1, 1);
    assert_eq!(ui.hover, None, "nothing is hovered once the pointer is out");
    assert_eq!(ui.knob_hover, None, "and no knob keeps its ring");
    assert_eq!(ui.lit_knob(), None);
}

#[test]
fn a_drag_keeps_the_ring_lit_after_the_pointer_leaves_the_knob() {
    let (mut ui, layout, snap) = scene();
    let col = layout
        .columns
        .iter()
        .find(|c| c.id == RowId::Sink(1))
        .expect("sink column");
    let thumb = col.slider.thumb;

    press_at(
        &mut ui,
        &layout,
        &snap,
        thumb.x + thumb.w / 2,
        thumb.y + thumb.h / 2,
    );
    // Dragging past the knob keeps hold of it, so the ring stays.
    pointer_at(
        &mut ui,
        &layout,
        &snap,
        PointerAction::Motion,
        thumb.x + thumb.w / 2,
        col.slider.track.y,
        1,
    );
    assert_eq!(
        ui.lit_knob(),
        Some(RowId::Sink(1)),
        "the grab holds the ring even off the knob",
    );
}

#[test]
fn pressing_a_mute_button_emits_mute_toggled() {
    let (mut ui, layout, snap) = scene();
    let col = layout
        .columns
        .iter()
        .find(|c| c.id == RowId::Sink(1))
        .expect("sink column");
    let msgs = press_at(
        &mut ui,
        &layout,
        &snap,
        col.mute.x + col.mute.w / 2,
        col.mute.y + col.mute.h / 2,
    );
    assert!(matches!(msgs.as_slice(), [Request::Send(Message::MuteToggled(1))]));
}

#[test]
fn pressing_a_slider_starts_a_drag_and_sets_volume() {
    let (mut ui, layout, snap) = scene();
    let col = layout
        .columns
        .iter()
        .find(|c| c.id == RowId::Sink(1))
        .expect("sink column");
    // Press at the very top of the track: near maximum volume.
    let msgs = press_at(
        &mut ui,
        &layout,
        &snap,
        col.slider.track.x + col.slider.track.w / 2,
        col.slider.track.y,
    );
    assert!(matches!(ui.drag, Some(Drag::Slider(RowId::Sink(1)))));
    match msgs.as_slice() {
        [Request::Volume {
            row: RowId::Sink(1),
            cubic,
        }] => {
            let v = f32::from_bits(cubic.bits);
            assert!(v > 1.4, "top is near max, got {v}")
        }
        other => panic!("expected VolumeChanged, got {other:?}"),
    }
}

#[test]
fn ctrl_k_toggles_the_palette_and_takes_focus() {
    let (mut ui, _layout, snap) = scene();
    let msgs = on_key(
        &mut ui,
        &snap,
        KeyEvent {
            key: Key::Char('k'),
            mods: Modifiers {
                ctrl: true,
                ..Default::default()
            },
        },
    );
    assert_eq!(ui.focus, Focus::Palette);
    assert!(matches!(msgs.as_slice(), [Request::Send(Message::TogglePalette)]));
}

/// A scene with the palette open, so the overlay geometry exists.
fn palette_scene(query: &str) -> (UiState, Layout, ViewSnapshot) {
    let mut app = state::empty();
    app.palette_open = true;
    app.palette_query = query.to_string();
    let snap = build_snapshot(&app);
    let mut ui = UiState::new();
    ui.focus = Focus::Palette;
    ui.editor.set_text(query);
    let layout = project(&snap, &ui, Rect::new(0, 0, 560, 720));
    (ui, layout, snap)
}

#[test]
fn clicking_in_a_text_field_puts_the_caret_under_the_pointer() {
    let (mut ui, layout, snap) = palette_scene("hello world");
    let field = layout.focused_field(Focus::Palette).expect("palette field");
    // Land halfway through the text and check the caret follows.
    let target = 5;
    let x = field.x
        + metrics::FIELD_PAD
        + x_at_char_offset(target);
    press_at(&mut ui, &layout, &snap, x, field.y + field.h / 2);
    assert_eq!(ui.editor.cursor(), target);
    assert_eq!(
        ui.editor.selection(),
        None,
        "a single click selects nothing"
    );
    assert_eq!(
        ui.drag,
        Some(Drag::TextSelect),
        "the press begins a selection"
    );
}

#[test]
fn dragging_in_a_text_field_extends_the_selection() {
    let (mut ui, layout, snap) = palette_scene("hello world");
    let field = layout.focused_field(Focus::Palette).expect("palette field");
    let at = |n| {
        field.x
            + metrics::FIELD_PAD
            + x_at_char_offset(n)
    };
    let y = field.y + field.h / 2;
    press_at(&mut ui, &layout, &snap, at(2), y);
    pointer_at(&mut ui, &layout, &snap, PointerAction::Motion, at(7), y, 10);
    assert_eq!(ui.editor.selection(), Some((2, 7)));
    assert_eq!(ui.editor.selected_text().as_deref(), Some("llo w"));

    // The drag keeps tracking the field after the pointer leaves it.
    pointer_at(
        &mut ui,
        &layout,
        &snap,
        PointerAction::Motion,
        at(11) + 400,
        y,
        20,
    );
    assert_eq!(ui.editor.selection(), Some((2, 11)));
}

#[test]
fn a_double_click_in_a_field_selects_the_word() {
    let (mut ui, layout, snap) = palette_scene("hello world");
    let field = layout.focused_field(Focus::Palette).expect("palette field");
    let x = field.x
        + metrics::FIELD_PAD
        + x_at_char_offset(8);
    let y = field.y + field.h / 2;
    let press = PointerAction::Press(MouseButton::Left);
    pointer_at(&mut ui, &layout, &snap, press, x, y, 0);
    pointer_at(&mut ui, &layout, &snap, press, x, y, 100);
    assert_eq!(ui.editor.selected_text().as_deref(), Some("world"));
}


/// The dimmed area is not a hole: a press there dismisses rather than
/// falling through to whatever the overlay is covering.
#[test]
fn pressing_the_backdrop_closes_the_overlay_and_hits_nothing_behind_it() {
    let (mut ui, layout, snap) = palette_scene("");
    // Bottom-left corner: inside the content, well clear of the panel.
    let (x, y) = (4, layout.content.bottom() - 4);
    assert_eq!(layout.hit(x, y), Some(&HitTarget::Backdrop));
    let msgs = press_at(&mut ui, &layout, &snap, x, y);
    assert!(matches!(msgs.as_slice(), [Request::Send(Message::TogglePalette)]));
    assert_eq!(ui.focus, Focus::Body);
}

#[test]
fn window_targets_map_to_window_actions_and_nothing_else_does() {
    assert_eq!(
        window_action(&HitTarget::TitlebarDrag),
        Some(WindowAction::Move)
    );
    assert_eq!(
        window_action(&HitTarget::WindowClose),
        Some(WindowAction::Close)
    );
    assert_eq!(
        window_action(&HitTarget::WindowMaximize),
        Some(WindowAction::ToggleMaximize)
    );
    assert_eq!(
        window_action(&HitTarget::WindowMinimize),
        Some(WindowAction::Minimize)
    );
    assert_eq!(
        window_action(&HitTarget::ResizeEdge(ResizeEdge::BottomRight)),
        Some(WindowAction::Resize(ResizeEdge::BottomRight))
    );
    // Mixer targets are not the window's business.
    assert_eq!(window_action(&HitTarget::MuteAll), None);
    assert_eq!(window_action(&HitTarget::RowMute(RowId::Sink(1))), None);
}

/// A scene with the profile dropdown open over two profiles.
fn menu_scene() -> (UiState, Layout, ViewSnapshot) {
    let mut app = state::empty();
    app.profiles.profiles.clear();
    for name in ["Gaming", "Music"] {
        app.profiles.profiles.push(Profile {
            name: name.to_string(),
            ..Default::default()
        });
    }
    let snap = build_snapshot(&app);
    let mut ui = UiState::new();
    ui.profile_menu_open = true;
    let layout = project(&snap, &ui, Rect::new(0, 0, 560, 720));
    (ui, layout, snap)
}

/// Pressing a profile can mean either apply or reorder, so nothing happens
/// until release says which. Released where it started, it applies.
#[test]
fn releasing_a_profile_where_it_was_pressed_applies_it() {
    let (mut ui, layout, snap) = menu_scene();
    let row = &layout.profile_menu.as_ref().expect("menu").rows[0].rect;
    let (x, y) = (row.x + 4, row.y + row.h / 2);

    let msgs = press_at(&mut ui, &layout, &snap, x, y);
    assert!(msgs.is_empty(), "the press alone applies nothing");
    assert_eq!(ui.drag, Some(Drag::ProfileReorder("Gaming".into())));

    let msgs = pointer_at(
        &mut ui,
        &layout,
        &snap,
        PointerAction::Release(MouseButton::Left),
        x,
        y,
        10,
    );
    assert!(matches!(
        msgs.as_slice(),
        [Request::Send(Message::ApplyProfile(n))] if n == "Gaming"
    ));
    assert!(!ui.profile_menu_open, "applying closes the dropdown");
}

#[test]
fn dragging_a_profile_onto_another_row_reorders_it() {
    let (mut ui, layout, snap) = menu_scene();
    let menu = layout.profile_menu.as_ref().expect("menu");
    let (from, onto) = (menu.rows[0].rect, menu.rows[1].rect);
    press_at(&mut ui, &layout, &snap, from.x + 4, from.y + from.h / 2);

    // Released on the top half of the second row: it lands before it.
    let msgs = pointer_at(
        &mut ui,
        &layout,
        &snap,
        PointerAction::Release(MouseButton::Left),
        onto.x + 4,
        onto.y + 1,
        10,
    );
    match msgs.as_slice() {
        [Request::Send(Message::ReorderProfile {
            name,
            target,
            before,
        })] => {
            assert_eq!(name, "Gaming");
            assert_eq!(target, "Music");
            assert!(*before, "the top half drops before the target");
        }
        other => panic!("expected a reorder, got {other:?}"),
    }

    // The bottom half drops after it.
    let (mut ui, layout, snap) = menu_scene();
    press_at(&mut ui, &layout, &snap, from.x + 4, from.y + from.h / 2);
    let msgs = pointer_at(
        &mut ui,
        &layout,
        &snap,
        PointerAction::Release(MouseButton::Left),
        onto.x + 4,
        onto.bottom() - 1,
        10,
    );
    assert!(matches!(
        msgs.as_slice(),
        [Request::Send(Message::ReorderProfile { before: false, .. })]
    ));
}

#[test]
fn releasing_a_profile_drag_off_the_menu_cancels_it() {
    let (mut ui, layout, snap) = menu_scene();
    let row = layout.profile_menu.as_ref().expect("menu").rows[0].rect;
    press_at(&mut ui, &layout, &snap, row.x + 4, row.y + row.h / 2);
    let msgs = pointer_at(
        &mut ui,
        &layout,
        &snap,
        PointerAction::Release(MouseButton::Left),
        10,
        700,
        10,
    );
    assert!(msgs.is_empty(), "a drag dropped nowhere does nothing");
    assert_eq!(ui.drag, None);
}

#[test]
fn only_ctrl_shift_s_asks_for_a_screenshot() {
    let key = |key, ctrl, shift| KeyEvent {
        key,
        mods: Modifiers {
            ctrl,
            shift,
            alt: false,
        },
    };
    assert!(is_screenshot_key(key(Key::Char('s'), true, true)));
    assert!(is_screenshot_key(key(Key::Char('S'), true, true)));
    assert!(!is_screenshot_key(key(Key::Char('s'), true, false)));
    assert!(!is_screenshot_key(key(Key::Char('s'), false, true)));
    assert!(!is_screenshot_key(key(Key::Char('k'), true, true)));
}

#[test]
fn a_section_filter_press_toggles_that_section() {
    let (mut ui, layout, snap) = scene();
    let hit = layout
        .hits
        .iter()
        .find(|h| matches!(h.target, HitTarget::SectionFilter(Section::Outputs)))
        .expect("outputs filter");
    let msgs = press_at(
        &mut ui,
        &layout,
        &snap,
        hit.rect.x + hit.rect.w / 2,
        hit.rect.y + hit.rect.h / 2,
    );
    assert!(matches!(
        msgs.as_slice(),
        [Request::Send(Message::ToggleSection(Section::Outputs))]
    ));
}

fn edited(editor: &mut Editor, key: Key) -> bool {
    edit_key(
        editor,
        KeyEvent {
            key,
            mods: Modifiers::default(),
        },
    )
}

/// Whether a key changed the text is what the text says, not the key.
#[test]
fn editing_keys_report_a_change_only_where_the_text_changed() {
    let mut e = Editor::new();
    assert!(!edited(&mut e, Key::Backspace));
    assert_eq!(e.text(), "");
    assert!(!edited(&mut e, Key::Delete));
    assert!(edited(&mut e, Key::Char('a')));
    assert!(!edited(&mut e, Key::Delete), "nothing behind the caret");
    assert!(!edited(&mut e, Key::Left));
    assert!(!edited(&mut e, Key::Backspace), "nothing before the caret");
    e.select_all();
    assert!(!edited(&mut e, Key::Char('a')), "the same letter over itself");
    assert_eq!(e.text(), "a");
    e.select_all();
    assert!(edited(&mut e, Key::Char('b')));
    assert_eq!(e.text(), "b");
    assert!(edited(&mut e, Key::Backspace));
    assert_eq!(e.text(), "");
}

#[test]
fn backspace_in_an_empty_palette_field_asks_for_nothing() {
    let (mut ui, _, snap) = palette_scene("");
    let asks = on_key(
        &mut ui,
        &snap,
        KeyEvent {
            key: Key::Backspace,
            mods: Modifiers::default(),
        },
    );
    assert!(asks.is_empty());
    let (mut ui, _, snap) = palette_scene("ab");
    let asks = on_key(
        &mut ui,
        &snap,
        KeyEvent {
            key: Key::Backspace,
            mods: Modifiers::default(),
        },
    );
    assert!(matches!(
        asks.as_slice(),
        [Request::Send(Message::PaletteQueryChanged(q))] if q == "a"
    ));
}
