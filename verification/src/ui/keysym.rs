//! X11 keysym values for the keys the UI acts on. Wayland and GDK both speak
//! these numbers.

use vstd::prelude::*;

verus! {

pub const BACKSPACE: u32 = 0xff08;

pub const TAB: u32 = 0xff09;

pub const RETURN: u32 = 0xff0d;

pub const ESCAPE: u32 = 0xff1b;

pub const HOME: u32 = 0xff50;

pub const LEFT: u32 = 0xff51;

pub const UP: u32 = 0xff52;

pub const RIGHT: u32 = 0xff53;

pub const DOWN: u32 = 0xff54;

pub const END: u32 = 0xff57;

pub const KP_ENTER: u32 = 0xff8d;

pub const KP_HOME: u32 = 0xff95;

pub const KP_LEFT: u32 = 0xff96;

pub const KP_UP: u32 = 0xff97;

pub const KP_RIGHT: u32 = 0xff98;

pub const KP_DOWN: u32 = 0xff99;

pub const KP_END: u32 = 0xff9c;

pub const KP_DELETE: u32 = 0xff9f;

pub const ISO_LEFT_TAB: u32 = 0xfe20;

pub const ISO_ENTER: u32 = 0xfe34;

pub const DELETE: u32 = 0xffff;

} // verus!
