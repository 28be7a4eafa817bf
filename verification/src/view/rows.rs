//! Concrete row data the view projection hands to a renderer.
//!
//! These are plain values computed from state and the grouping pass. No
//! widgets, so both the GTK widget path and the native renderer build from the
//! same numbers.

use crate::domain::Gain;
use crate::ordered::OrderedMap;
use crate::text;
use vstd::prelude::*;

verus! {

/// What is known of a stream beyond its state: where its gain puts a fader, and
/// the title of what its player is playing.
pub struct Level {
    /// Cubic gain (0 = silent, 1 = unity).
    pub cubic: Gain,
    pub title: Option<String>,
}

#[verifier::ext_equal]
pub struct LevelView {
    pub cubic: Gain,
    pub title: Option<Seq<char>>,
}

impl View for Level {
    type V = LevelView;

    open spec fn view(&self) -> LevelView {
        LevelView { cubic: self.cubic, title: text::opt(self.title) }
    }
}

/// Levels by node id.
pub type Levels = OrderedMap<u32, Level>;

pub type LevelEntries = Seq<(u32, LevelView)>;

/// Aggregate state for a collapsed app row, materialised by
/// [`crate::view::app_group::AppRowGroup::to_info`] so the row renderer never
/// revisits the streams.
pub struct AppRowInfo {
    /// Stable row key for the Group* messages from the picker/mute/slider.
    pub key: String,
    /// May be the player's title (e.g. "Spotify · Track").
    pub display_name: String,
    pub icon_path: Option<String>,
    /// Cubic master volume (max of member cubics), drives slider + readout.
    pub master_cubic: Gain,
    /// True iff there are members and every one is muted.
    pub all_muted: bool,
    /// Some(name) only when every member pins the same sink; mixed/no-pin
    /// leaves "A" autoroute as the active button.
    pub effective_target: Option<String>,
    /// True iff there are members and every one is tombstoned; drives the
    /// dimmed "idle" name.
    pub all_tombstoned: bool,
    /// Stream count; > 1 surfaces a ×N badge in the name label.
    pub member_count: usize,
    /// Whether the row is expanded; drives the toggle glyph.
    pub is_expanded: bool,
}

#[verifier::ext_equal]
pub struct InfoModel {
    pub key: Seq<char>,
    pub display_name: Seq<char>,
    pub icon_path: Option<Seq<char>>,
    pub master_cubic: Gain,
    pub all_muted: bool,
    pub effective_target: Option<Seq<char>>,
    pub all_tombstoned: bool,
    pub member_count: usize,
    pub is_expanded: bool,
}

impl View for AppRowInfo {
    type V = InfoModel;

    open spec fn view(&self) -> InfoModel {
        InfoModel {
            key: self.key@,
            display_name: self.display_name@,
            icon_path: text::opt(self.icon_path),
            master_cubic: self.master_cubic,
            all_muted: self.all_muted,
            effective_target: text::opt(self.effective_target),
            all_tombstoned: self.all_tombstoned,
            member_count: self.member_count,
            is_expanded: self.is_expanded,
        }
    }
}

} // verus!
