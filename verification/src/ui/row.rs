//! What a column says: the words and marks on it, whichever toolkit shows them.

use crate::domain::{Gain, Stream, StreamView};
use crate::gain;
use crate::gain::is_above;
use crate::render::primitives;
use crate::render::primitives::Rect;
use crate::single;
use crate::single::percent_of;
use crate::text;
use crate::text::{chars_of, decimal_text, same_opt, text_of};
use crate::ui::layout;
use crate::ui::layout::{same_row, RowId, RowIdView};
use crate::view::app_group;
use crate::view::snapshot::VOLUME_WARNING_THRESHOLD;
use vstd::prelude::*;
use vstd::string::*;

verus! {

/// Longest name a column shows, counted after any suffix. Cutting it here is
/// what leaves a gap at both edges of the column.
pub const MAX_NAME_CHARS: usize = 14;

/// A text cut to its first `n` characters.
pub open spec fn capped(s: Seq<char>, n: int) -> Seq<char> {
    if s.len() <= n {
        s
    } else {
        s.take(n)
    }
}

/// A row's name with what it has to add: how many streams it stands for, and that
/// it is idle.
pub open spec fn full_name(label: Seq<char>, tombstoned: bool, members: usize) -> Seq<char> {
    label + (if members > 1 {
        " ×"@ + text::decimal(members as nat)
    } else {
        Seq::empty()
    }) + (if tombstoned {
        " · idle"@
    } else {
        Seq::empty()
    })
}

/// The name a column shows, suffixes inside the cap, so a grouped or idle app
/// cannot push the name wider than a plain one.
pub open spec fn name_shown(label: Seq<char>, tombstoned: bool, members: usize) -> Seq<char> {
    capped(full_name(label, tombstoned, members), MAX_NAME_CHARS as int)
}

fn cap(s: &str, n: usize) -> (out: String)
    ensures
        out@ == capped(s@, n as int),
{
    let v = chars_of(s);
    if v.len() <= n {
        return s.to_owned();
    }
    let out = text_of(&v, 0, n);
    assert(out@ =~= s@.take(n as int));
    out
}

/// The name a column shows: cut to fit, without an ellipsis.
pub fn name_text(label: &str, tombstoned: bool, members: usize) -> (name: String)
    ensures
        name@ == name_shown(label@, tombstoned, members),
{
    let mut s: String = label.to_owned();
    if members > 1 {
        s.append(" ×");
        s.append(decimal_text(members as u64).as_str());
    }
    if tombstoned {
        s.append(" · idle");
    }
    assert(s@ =~= full_name(label@, tombstoned, members));
    cap(s.as_str(), MAX_NAME_CHARS)
}

/// A name shown is never longer than the cap, and begins with its label as far as
/// that goes.
pub proof fn names_stay_in_their_column(label: Seq<char>, tombstoned: bool, members: usize)
    ensures
        name_shown(label, tombstoned, members).len() <= MAX_NAME_CHARS,
        label.len() >= MAX_NAME_CHARS ==> name_shown(label, tombstoned, members) == label.take(
            MAX_NAME_CHARS as int,
        ),
        label.len() < MAX_NAME_CHARS ==> name_shown(label, tombstoned, members).take(
            label.len() as int,
        ) == label,
{
    let full = full_name(label, tombstoned, members);
    let shown = name_shown(label, tombstoned, members);
    assert(full.take(label.len() as int) =~= label);
    if label.len() >= MAX_NAME_CHARS {
        assert(shown =~= label.take(MAX_NAME_CHARS as int));
    } else {
        assert(shown.take(label.len() as int) =~= label);
    }
}

/// What a row's readout says: its gain in whole percent.
pub open spec fn readout(cubic: Gain) -> Seq<char> {
    let v = single::percent(cubic);
    if v < 0 {
        "-"@ + text::decimal((-v) as nat)
    } else {
        text::decimal(v as nat)
    }
}

/// A row's readout.
pub fn readout_text(cubic: Gain) -> (s: String)
    ensures
        s@ == readout(cubic),
{
    let v: i64 = percent_of(cubic) as i64;
    if v < 0 {
        "-".to_owned().concat(decimal_text((-v) as u64).as_str())
    } else {
        decimal_text(v as u64)
    }
}

/// Past the threshold the slider and the readout turn to the warning color;
/// routine use at full gain stays plain.
pub fn is_loud(cubic: Gain) -> (loud: bool)
    ensures
        loud == gain::above(cubic, VOLUME_WARNING_THRESHOLD),
{
    is_above(cubic, VOLUME_WARNING_THRESHOLD)
}

/// Longest label of a small button.
pub const PICK_LABEL_MAX: usize = 8;

/// A small button's label, cut to fit.
pub fn pick_label(label: &str) -> (s: String)
    ensures
        s@ == capped(label@, PICK_LABEL_MAX as int),
{
    cap(label, PICK_LABEL_MAX)
}

// --- The routing picker ---------------------------------------------------------------------------

/// One button of a row's routing picker: the sink it pins to, or none for
/// automatic; its letter, if its form has one; whether it is the choice in force.
#[derive(Clone, Copy, PartialEq, Eq, Debug, Structural)]
pub struct Pick {
    pub sink: Option<u32>,
    pub label: Option<char>,
    pub active: bool,
}

/// A sink's button: none while its form is unknown.
pub open spec fn sink_pick(sink: StreamView, target: Option<Seq<char>>) -> Seq<Pick> {
    match sink.form {
        Some(form) => seq![
            Pick {
                sink: Some(sink.id),
                label: if form.label.len() > 0 {
                    Some(form.label[0])
                } else {
                    None
                },
                active: sink.node_name is Some && sink.node_name == target,
            },
        ],
        None => Seq::empty(),
    }
}

/// The buttons of the first `n` sinks.
pub open spec fn sink_picks(sinks: Seq<StreamView>, target: Option<Seq<char>>, n: int) -> Seq<Pick>
    decreases n,
{
    if n <= 0 {
        Seq::empty()
    } else {
        sink_picks(sinks, target, n - 1) + sink_pick(sinks[n - 1], target)
    }
}

/// A row's routing picker: automatic first, then one button per sink, and none at
/// all until there are two sinks to choose from.
pub open spec fn picker(sinks: Seq<StreamView>, target: Option<Seq<char>>) -> Seq<Pick> {
    let picks = sink_picks(sinks, target, sinks.len() as int);
    if picks.len() < 2 {
        Seq::empty()
    } else {
        seq![Pick { sink: None, label: Some('A'), active: target is None }] + picks
    }
}

/// The routing picker of a row whose streams are pinned to `target`.
pub fn sink_picker(sinks: &Vec<&Stream>, target: &Option<String>) -> (picks: Vec<Pick>)
    ensures
        picks@ == picker(app_group::stream_views(sinks@), text::opt(*target)),
{
    let ghost all = app_group::stream_views(sinks@);
    let mut picks: Vec<Pick> = Vec::new();
    picks.push(Pick { sink: None, label: Some('A'), active: target.is_none() });
    let ghost first = picks@;
    let mut i: usize = 0;
    assert(picks@ =~= first + sink_picks(all, text::opt(*target), 0));
    while i < sinks.len()
        invariant
            i <= sinks@.len(),
            all == app_group::stream_views(sinks@),
            first.len() == 1,
            picks@ == first + sink_picks(all, text::opt(*target), i as int),
        decreases sinks@.len() - i,
    {
        let sink: &Stream = sinks[i];
        assert(all[i as int] == sink@);
        let ghost before = picks@;
        assert(sink@.node_name == text::opt(sink.node_name));
        if let Some(form) = &sink.form {
            let letters = chars_of(form.label.as_str());
            let label: Option<char> = if letters.len() > 0 {
                Some(letters[0])
            } else {
                None
            };
            assert(sink@.form == Some(form@));
            let active = sink.node_name.is_some() && same_opt(&sink.node_name, target);
            picks.push(Pick { sink: Some(sink.id), label, active });
        }
        assert(picks@ =~= before + sink_pick(all[i as int], text::opt(*target)));
        i = i + 1;
        assert(picks@ =~= first + sink_picks(all, text::opt(*target), i as int));
    }
    if picks.len() < 3 {
        return Vec::new();
    }
    picks
}

/// Whether a picker offers a sink.
pub open spec fn offers(picks: Seq<Pick>, sink: u32) -> bool {
    exists|i: int| 0 <= i < picks.len() && (#[trigger] picks[i]).sink == Some(sink)
}

proof fn picks_offer(sinks: Seq<StreamView>, target: Option<Seq<char>>, n: int, k: int)
    requires
        0 <= k < n <= sinks.len(),
        sinks[k].form is Some,
    ensures
        offers(sink_picks(sinks, target, n), sinks[k].id),
    decreases n,
{
    let before = sink_picks(sinks, target, n - 1);
    let after = sink_picks(sinks, target, n);
    if k == n - 1 {
        assert(after[before.len() as int].sink == Some(sinks[k].id));
    } else {
        picks_offer(sinks, target, n - 1, k);
        let i = choose|i: int|
            0 <= i < before.len() && (#[trigger] before[i]).sink == Some(sinks[k].id);
        assert(after[i].sink == Some(sinks[k].id));
    }
}

/// A picker offers automatic first and then every sink with a known form, or
/// nothing: one sink is no choice.
pub proof fn a_picker_offers_a_choice(sinks: Seq<StreamView>, target: Option<Seq<char>>, k: int)
    requires
        0 <= k < sinks.len(),
        sinks[k].form is Some,
    ensures
        picker(sinks, target).len() == 0 || {
            &&& picker(sinks, target).len() >= 3
            &&& picker(sinks, target)[0].sink is None
            &&& offers(picker(sinks, target), sinks[k].id)
        },
{
    let picks = sink_picks(sinks, target, sinks.len() as int);
    let all = picker(sinks, target);
    picks_offer(sinks, target, sinks.len() as int, k);
    let i = choose|i: int| 0 <= i < picks.len() && (#[trigger] picks[i]).sink == Some(sinks[k].id);
    if all.len() > 0 {
        assert(all[i + 1].sink == Some(sinks[k].id));
    }
}

// --- Hovering --------------------------------------------------------------------------------------

/// The row hovered once the pointer has left `left`: none if it still was that
/// one. Moving from one column to the next enters the new one before it leaves
/// the old.
pub open spec fn after_leaving(hovered: Option<RowIdView>, left: RowIdView) -> Option<RowIdView> {
    if hovered == Some(left) {
        None
    } else {
        hovered
    }
}

/// Forget the hovered row if the pointer left it.
pub fn leave_row(hovered: &mut Option<RowId>, left: &RowId)
    ensures
        layout::row_view(*final(hovered)) == after_leaving(
            layout::row_view(*old(hovered)),
            left@,
        ),
{
    let gone = match hovered {
        Some(row) => same_row(row, left),
        None => false,
    };
    if gone {
        *hovered = None;
    }
}

/// Sliding from one column to the next leaves the next one hovered, in either
/// order of the two events.
pub proof fn sliding_over_keeps_the_new_row(from: RowIdView, to: RowIdView)
    requires
        from != to,
    ensures
        after_leaving(Some(to), from) == Some(to),
        after_leaving(Some(from), from) is None,
{
}

// --- Placing --------------------------------------------------------------------------------------

/// Pixels the buttons slide into the fader's right edge, trimming the gap its
/// knob leaves.
pub const BUTTONS_SLIDER_OVERLAP: i32 = 4;

/// Where the buttons beside a fader go: the fader and its meter keep their
/// natural width in the middle of what they are given, and the buttons lap over
/// that pair's right edge.
pub open spec fn beside(fader: Rect, natural: int, width: int) -> Rect {
    primitives::rect(
        fader.x + (fader.w + natural) / 2 - BUTTONS_SLIDER_OVERLAP,
        fader.y as int,
        width,
        fader.h as int,
    )
}

/// Where the buttons beside a fader go, once it has been given any width.
pub fn side_place(fader: Rect, natural: i32, width: i32) -> (place: Option<Rect>)
    requires
        -0x1000_0000 <= fader.x <= 0x1000_0000,
        0 <= fader.w <= 0x1000_0000,
        0 <= natural <= 0x1000_0000,
    ensures
        place == if fader.w == 0 {
            None
        } else {
            Some(beside(fader, natural as int, width as int))
        },
{
    if fader.w == 0 {
        return None;
    }
    Some(
        Rect {
            x: fader.x + (fader.w + natural) / 2 - BUTTONS_SLIDER_OVERLAP,
            y: fader.y,
            w: width,
            h: fader.h,
        },
    )
}

/// Where a readout of a natural size goes so that it sits on its knob's middle.
pub fn knob_place(cx: i32, cy: i32, w: i32, h: i32) -> (place: Rect)
    requires
        -0x1000_0000 <= cx <= 0x1000_0000,
        -0x1000_0000 <= cy <= 0x1000_0000,
        0 <= w <= 0x1000_0000,
        0 <= h <= 0x1000_0000,
    ensures
        place == primitives::rect(cx - w / 2, cy - h / 2, w as int, h as int),
{
    Rect { x: cx - w / 2, y: cy - h / 2, w, h }
}

/// Whether a button stands for a sink: it sends there, carries the first letter of its
/// heading, and is lit where the row is pinned to it.
pub open spec fn stands_for(pick: Pick, sink: StreamView, target: Option<Seq<char>>) -> bool {
    &&& pick.sink == Some(sink.id)
    &&& pick.active == (target is Some && target == sink.node_name)
    &&& sink.form matches Some(f) ==> (f.label.len() > 0 ==> pick.label == Some(f.label[0]))
}

proof fn picks_stand_for_sinks(sinks: Seq<StreamView>, target: Option<Seq<char>>, n: int)
    requires
        0 <= n <= sinks.len(),
        forall|k: int| 0 <= k < n ==> (#[trigger] sinks[k]).form is Some,
    ensures
        sink_picks(sinks, target, n).len() == n,
        forall|k: int|
            0 <= k < n ==> stands_for(
                #[trigger] sink_picks(sinks, target, n)[k],
                sinks[k],
                target,
            ),
    decreases n,
{
    if n > 0 {
        picks_stand_for_sinks(sinks, target, n - 1);
        let before = sink_picks(sinks, target, n - 1);
        assert forall|k: int| 0 <= k < n implies stands_for(
            #[trigger] sink_picks(sinks, target, n)[k],
            sinks[k],
            target,
        ) by {
            if k < n - 1 {
                assert(sink_picks(sinks, target, n)[k] == before[k]);
            }
        }
    }
}

/// A picker's first button lets the row follow the default and is lit while it does; then
/// comes one for each sink, in their order, lit where the row is pinned to it.
pub proof fn a_pick_is_lit_where_the_row_goes(
    sinks: Seq<StreamView>,
    target: Option<Seq<char>>,
    k: int,
)
    requires
        sinks.len() >= 2,
        forall|j: int| 0 <= j < sinks.len() ==> (#[trigger] sinks[j]).form is Some,
        0 <= k < sinks.len(),
    ensures
        picker(sinks, target).len() == sinks.len() + 1,
        picker(sinks, target)[0].sink is None,
        picker(sinks, target)[0].active == (target is None),
        stands_for(picker(sinks, target)[k + 1], sinks[k], target),
{
    picks_stand_for_sinks(sinks, target, sinks.len() as int);
    assert(picker(sinks, target)[k + 1] == sink_picks(sinks, target, sinks.len() as int)[k]);
}

} // verus!
