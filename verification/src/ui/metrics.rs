//! Fixed pixel metrics of the mixer body, in logical (pre-scale) pixels. The
//! values match the GTK reference layout's column and row sizing.

use vstd::prelude::*;

verus! {

/// Width of one device or app column.
pub const COLUMN_WIDTH: i32 = 106;

/// Height of a column's header block (icon, name, subtitle).
pub const COLUMN_HEADER_HEIGHT: i32 = 46;

/// Square side of an application icon.
pub const ICON_SIZE: i32 = 26;

/// Height reserved for the icon block above a name.
pub const ICON_BOX_HEIGHT: i32 = 28;

/// Height a column keeps when the strip is shorter than one, which only happens
/// when a window manager forces a size past the minimum. The column is clipped
/// rather than squashed to nothing.
pub const SLIDER_TRACK_HEIGHT: i32 = 140;

/// Shortest the meter and fader get before the window stops shrinking. Short
/// enough for the window to tuck into a corner of the screen, long enough to
/// still aim at.
pub const MIN_FADER_HEIGHT: i32 = 130;

/// Gap between the target/expand picker row and the mute button. Wider than the
/// gap between the pins, which is what sets the mute apart from the choices
/// above it.
pub const PICKER_MUTE_GAP: i32 = 9;

/// Gap between the target pins themselves. Tighter than the gap to the mute
/// button, so the pins read as one set of linked choices and the mute reads as
/// something else sitting below them.
pub const PICK_STACK_GAP: i32 = 2;

/// Section-toolbar action button width (mute-all, reset).
pub const ACTION_BTN_WIDTH: i32 = 32;

/// Height of one action-bar or picker button.
pub const ACTION_BTN_HEIGHT: i32 = 20;

/// Width of the left action bar the buttons are centered in.
pub const SIDEBAR_WIDTH: i32 = 48;

/// Gap between two stacked action-bar buttons.
pub const ACTION_GAP: i32 = 4;

/// Gap separating the filter cluster from the action cluster.
pub const ACTION_CLUSTER_GAP: i32 = 15;

/// The action bar's own vertical padding.
pub const SIDEBAR_PAD: i32 = 12;

/// Width of the slider trough, matching the meter's segment pitch.
pub const SLIDER_WIDTH: i32 = 16;

/// Diameter of the slider knob. It overhangs the trough on both sides.
pub const KNOB_SIZE: i32 = 28;

/// Side of a small square picker button (target pins, mute).
pub const PICK_SIZE: i32 = 22;

/// Bottom margin shared by the meter, the slider, and the mute button, so all
/// three end on the same line.
pub const COLUMN_BOTTOM: i32 = 12;

/// Height of the strip carrying the profile selector.
pub const PROFILE_STRIP_HEIGHT: i32 = 34;

/// Width of the profile selector chip.
pub const PROFILE_CHIP_WIDTH: i32 = 140;

/// Inset from the strip's left edge to the chip. The chip sits nearer the
/// window edge than the columns do, so it reads as part of the chrome.
pub const PROFILE_CHIP_PAD: i32 = 4;

/// Inset from a text field's left edge to its first glyph. Drawing and caret
/// hit-testing both measure from here, so they cannot drift apart.
pub const FIELD_PAD: i32 = 8;

/// Inset from a text field's top edge to the text's top.
pub const FIELD_TEXT_TOP: i32 = 7;

/// The bits of the pixel size of editable field text, 13, shared by the drawing
/// and the caret.
pub const FIELD_TEXT_SIZE: u32 = 0x4150_0000;

/// Pitch of one command-palette row. Layout stacks rows on it and the wheel
/// turns pixels into rows with it.
pub const PALETTE_ROW_H: i32 = 30;

/// Height of the client-drawn titlebar.
pub const TITLEBAR_HEIGHT: i32 = 34;

/// Square side of a window button (minimize, maximize, close).
pub const WINDOW_BTN: i32 = 28;

/// Grab thickness of a resize edge; a corner grab is twice this.
pub const RESIZE_GRAB: i32 = 6;

/// Padding around the columns, on the left, the right and the top.
pub const STRIP_PAD: i32 = 10;

/// The 1px rule between columns; the separator is drawn in it.
pub const COL_GAP: i32 = 1;

/// Inset from a column's left edge to its meter. The meter, fader, and button
/// stack sit at fixed offsets rather than being centred, which is what keeps
/// them lined up across columns of differing content.
pub const METER_INSET: i32 = 24;

/// Air between the fader and the button stack beside it.
pub const FADER_BUTTON_GAP: i32 = 9;

/// The strip's bottom padding, which is tighter than its top.
pub const STRIP_PAD_BOTTOM: i32 = 2;

pub const ICON_TOP: i32 = 8;

pub const NAME_H: i32 = 16;

pub const SLIDER_METER_GAP: i32 = 12;

/// Inset from a column's top to its heading.
pub const HEADER_TOP: i32 = 3;

/// Air between the header block and the top of the meter and fader.
pub const HEADER_GAP: i32 = 16;

/// Profile dropdown metrics.
pub const MENU_ROW_H: i32 = 26;

pub const MENU_PAD: i32 = 4;

/// The rule above the create row, a hairline like every other divider.
pub const MENU_SEP_H: i32 = 1;

pub const MENU_MIN_W: i32 = 200;

/// Height of a text field.
pub const FIELD_H: i32 = 30;

/// Palette height that is not rows: the search field with its margins above the
/// list, plus the panel's bottom padding.
pub const PALETTE_CHROME_H: i32 = 56;

/// Thickness of the lane a scrollbar runs in, slider plus the air either side.
pub const SCROLLBAR_LANE: i32 = 8;

pub const SCROLLBAR_INSET: i32 = 2;

/// Shortest a slider gets, so a long run still leaves something to grab.
pub const SCROLLBAR_MIN_LEN: i32 = 24;

pub const MODAL_W: i32 = 300;

} // verus!
