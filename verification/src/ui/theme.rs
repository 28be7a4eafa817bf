//! The shared mixer palette, expressed in renderer colors: 8-bit channels with
//! straight alpha.

use crate::render::buffer::Color;
use vstd::prelude::*;

verus! {

/// Every color the mixer body paints, named by role. Copy, so it threads
/// through the render chain by value.
#[derive(Clone, Copy, PartialEq, Eq, Debug, Structural)]
pub struct Palette {
    // Chrome surfaces.
    pub bg: Color,
    pub surface: Color,
    pub titlebar: Color,
    pub field_bg: Color,
    // Text hierarchy.
    pub text: Color,
    pub text_subtle: Color,
    pub text_muted: Color,
    pub text_modal_body: Color,
    pub text_idle: Color,
    pub on_filled: Color,
    // Accent and status. The brand pink (accent) is only ever the
    // active/selected state, never structural chrome.
    pub accent: Color,
    pub warning: Color,
    pub volume_ok: Color,
    pub filter: Color,
    pub filter_hover: Color,
    // Borders.
    pub border: Color,
    // Modal action buttons.
    pub cta_bg: Color,
    pub cta_bg_hover: Color,
    pub danger_bg: Color,
    pub danger_bg_hover: Color,
    // Volume slider fill.
    pub scale_fill: Color,
    pub scale_fill_warning: Color,
    // Ring drawn around the knob while hovered or dragged.
    pub knob_halo: Color,
    // Contrast washes, named by alpha percentage. dim_grid is the faintest,
    // shared by the slider trough and the meter's unlit grid.
    pub dim_grid: Color,
    pub wash_4: Color,
    pub wash_5: Color,
    pub wash_6: Color,
    pub wash_8: Color,
    pub wash_10: Color,
    pub wash_18: Color,
    pub wash_20: Color,
    pub wash_30: Color,
    // Overlays.
    pub backdrop: Color,
    pub shadow_strong: Color,
    pub shadow_soft: Color,
    // Level meter tints. Deliberately distinct from the slider fill: these read
    // "how loud", not "what gain".
    pub meter_red: Color,
    pub meter_amber: Color,
    pub meter_green: Color,
    pub meter_neutral: Color,
    // Unity-gain reference notch on the slider trough.
    pub unity_notch: Color,
}

impl Palette {
    /// The dark palette's colors.
    pub open spec fn night() -> Palette {
        Palette {
            bg: Color { r: 0x1f, g: 0x21, b: 0x24, a: 255 },
            surface: Color { r: 0x26, g: 0x29, b: 0x2e, a: 255 },
            titlebar: Color { r: 0x29, g: 0x2b, b: 0x30, a: 255 },
            field_bg: Color { r: 0x2c, g: 0x2f, b: 0x34, a: 255 },
            text: Color { r: 0xec, g: 0xec, b: 0xec, a: 255 },
            text_subtle: Color { r: 0xaa, g: 0xaa, b: 0xaa, a: 255 },
            text_muted: Color { r: 0x88, g: 0x88, b: 0x88, a: 255 },
            text_modal_body: Color { r: 0xcc, g: 0xcc, b: 0xcc, a: 255 },
            text_idle: Color { r: 0x6b, g: 0x69, b: 0x69, a: 255 },
            on_filled: Color { r: 0xff, g: 0xff, b: 0xff, a: 255 },
            accent: Color { r: 0xff, g: 0x00, b: 0xaa, a: 255 },
            warning: Color { r: 0xff, g: 0x70, b: 0x43, a: 255 },
            volume_ok: Color { r: 0x66, g: 0xbb, b: 0x6a, a: 255 },
            filter: Color { r: 0xe5, g: 0xa9, b: 0x21, a: 255 },
            filter_hover: Color { r: 0xd6, g: 0x9e, b: 0x2e, a: 255 },
            border: Color { r: 0x33, g: 0x33, b: 0x33, a: 255 },
            cta_bg: Color { r: 0x31, g: 0x38, b: 0x44, a: 255 },
            cta_bg_hover: Color { r: 0x3d, g: 0x44, b: 0x50, a: 255 },
            danger_bg: Color { r: 0x5a, g: 0x2d, b: 0x2d, a: 255 },
            danger_bg_hover: Color { r: 0x6e, g: 0x36, b: 0x36, a: 255 },
            scale_fill: Color { r: 0x4c, g: 0xaf, b: 0x50, a: 255 },
            scale_fill_warning: Color { r: 0xf4, g: 0x51, b: 0x1e, a: 255 },
            knob_halo: Color { r: 0xff, g: 0xff, b: 0xff, a: 18 },
            dim_grid: Color { r: 0xff, g: 0xff, b: 0xff, a: 8 },
            wash_4: Color { r: 0xff, g: 0xff, b: 0xff, a: 10 },
            wash_5: Color { r: 0xff, g: 0xff, b: 0xff, a: 13 },
            wash_6: Color { r: 0xff, g: 0xff, b: 0xff, a: 15 },
            wash_8: Color { r: 0xff, g: 0xff, b: 0xff, a: 20 },
            wash_10: Color { r: 0xff, g: 0xff, b: 0xff, a: 26 },
            wash_18: Color { r: 0xff, g: 0xff, b: 0xff, a: 46 },
            wash_20: Color { r: 0xff, g: 0xff, b: 0xff, a: 51 },
            wash_30: Color { r: 0xff, g: 0xff, b: 0xff, a: 77 },
            backdrop: Color { r: 0x00, g: 0x00, b: 0x00, a: 128 },
            shadow_strong: Color { r: 0x00, g: 0x00, b: 0x00, a: 64 },
            shadow_soft: Color { r: 0x00, g: 0x00, b: 0x00, a: 46 },
            meter_red: Color { r: 0xff, g: 0x4d, b: 0x4d, a: 242 },
            meter_amber: Color { r: 0xff, g: 0xc7, b: 0x4d, a: 242 },
            meter_green: Color { r: 0x4d, g: 0xcc, b: 0x73, a: 242 },
            meter_neutral: Color { r: 0x8c, g: 0xa6, b: 0xc7, a: 217 },
            unity_notch: Color { r: 0x99, g: 0x99, b: 0x99, a: 140 },
        }
    }

    /// The dark palette (the only theme today).
    pub fn dark() -> (p: Self)
        ensures
            p == Palette::night(),
    {
        Palette {
            bg: Color { r: 0x1f, g: 0x21, b: 0x24, a: 255 },
            surface: Color { r: 0x26, g: 0x29, b: 0x2e, a: 255 },
            titlebar: Color { r: 0x29, g: 0x2b, b: 0x30, a: 255 },
            field_bg: Color { r: 0x2c, g: 0x2f, b: 0x34, a: 255 },
            text: Color { r: 0xec, g: 0xec, b: 0xec, a: 255 },
            text_subtle: Color { r: 0xaa, g: 0xaa, b: 0xaa, a: 255 },
            text_muted: Color { r: 0x88, g: 0x88, b: 0x88, a: 255 },
            text_modal_body: Color { r: 0xcc, g: 0xcc, b: 0xcc, a: 255 },
            text_idle: Color { r: 0x6b, g: 0x69, b: 0x69, a: 255 },
            on_filled: Color { r: 0xff, g: 0xff, b: 0xff, a: 255 },
            accent: Color { r: 0xff, g: 0x00, b: 0xaa, a: 255 },
            warning: Color { r: 0xff, g: 0x70, b: 0x43, a: 255 },
            volume_ok: Color { r: 0x66, g: 0xbb, b: 0x6a, a: 255 },
            filter: Color { r: 0xe5, g: 0xa9, b: 0x21, a: 255 },
            filter_hover: Color { r: 0xd6, g: 0x9e, b: 0x2e, a: 255 },
            border: Color { r: 0x33, g: 0x33, b: 0x33, a: 255 },
            cta_bg: Color { r: 0x31, g: 0x38, b: 0x44, a: 255 },
            cta_bg_hover: Color { r: 0x3d, g: 0x44, b: 0x50, a: 255 },
            danger_bg: Color { r: 0x5a, g: 0x2d, b: 0x2d, a: 255 },
            danger_bg_hover: Color { r: 0x6e, g: 0x36, b: 0x36, a: 255 },
            scale_fill: Color { r: 0x4c, g: 0xaf, b: 0x50, a: 255 },
            scale_fill_warning: Color { r: 0xf4, g: 0x51, b: 0x1e, a: 255 },
            knob_halo: Color { r: 0xff, g: 0xff, b: 0xff, a: 18 },
            dim_grid: Color { r: 0xff, g: 0xff, b: 0xff, a: 8 },
            wash_4: Color { r: 0xff, g: 0xff, b: 0xff, a: 10 },
            wash_5: Color { r: 0xff, g: 0xff, b: 0xff, a: 13 },
            wash_6: Color { r: 0xff, g: 0xff, b: 0xff, a: 15 },
            wash_8: Color { r: 0xff, g: 0xff, b: 0xff, a: 20 },
            wash_10: Color { r: 0xff, g: 0xff, b: 0xff, a: 26 },
            wash_18: Color { r: 0xff, g: 0xff, b: 0xff, a: 46 },
            wash_20: Color { r: 0xff, g: 0xff, b: 0xff, a: 51 },
            wash_30: Color { r: 0xff, g: 0xff, b: 0xff, a: 77 },
            backdrop: Color { r: 0x00, g: 0x00, b: 0x00, a: 128 },
            shadow_strong: Color { r: 0x00, g: 0x00, b: 0x00, a: 64 },
            shadow_soft: Color { r: 0x00, g: 0x00, b: 0x00, a: 46 },
            meter_red: Color { r: 0xff, g: 0x4d, b: 0x4d, a: 242 },
            meter_amber: Color { r: 0xff, g: 0xc7, b: 0x4d, a: 242 },
            meter_green: Color { r: 0x4d, g: 0xcc, b: 0x73, a: 242 },
            meter_neutral: Color { r: 0x8c, g: 0xa6, b: 0xc7, a: 217 },
            unity_notch: Color { r: 0x99, g: 0x99, b: 0x99, a: 140 },
        }
    }
}

} // verus!
