//! What the chrome and the overlays say.

use crate::domain::Section;
use crate::number::Number;
use crate::render::column_laws;
use crate::render::paint;
use crate::render::paint::{MarkView, SUB_SIZE};
use crate::render::primitives::Rect;
use crate::render::text::TextStyle;
use crate::ui::layout::{
    HitModel, HitTargetView, LayoutModel, ModalGeom, PaletteGeomModel, ProfileRowGeomModel,
};
use crate::ui::panels;
use crate::ui::theme::Palette;
use crate::ui::UiModel;
use crate::view::snapshot::{ModalModel, SnapshotModel};
use vstd::prelude::*;

verus! {

proof fn frame_has_what_lies_over(
    bounds: Rect,
    layout: LayoutModel,
    snap: SnapshotModel,
    ui: UiModel,
    p: Palette,
)
    ensures
        ({
            let list = paint::frame_marks(bounds, layout, snap, ui, p);
            &&& layout.profile_menu is Some ==> column_laws::has_all(
                list,
                paint::menu_marks(layout.profile_menu->Some_0, ui, p),
            )
            &&& layout.palette is Some ==> column_laws::has_all(
                list,
                paint::palette_marks(layout.palette->Some_0, layout.content, snap, ui, p),
            )
            &&& snap.modal is Some && layout.modal is Some ==> column_laws::has_all(
                list,
                paint::modal_marks(
                    snap.modal->Some_0,
                    layout.modal->Some_0,
                    layout.content,
                    ui,
                    p,
                ),
            )
            &&& column_laws::has_all(
                list,
                paint::hits_marks(layout.hits, snap, ui, p, layout.hits.len() as int),
            )
        }),
{
    let list = paint::frame_marks(bounds, layout, snap, ui, p);
    let back = seq![MarkView::Fill { rect: bounds, color: p.bg }];
    let bar = match layout.titlebar {
        Some(bar) => paint::titlebar_marks(bar, ui, p),
        None => Seq::empty(),
    };
    let chrome = paint::chrome_marks(layout, snap, ui, p);
    let clip = seq![MarkView::Clip(layout.strip)];
    let columns = paint::columns_marks(
        layout.columns,
        snap,
        ui,
        p,
        layout.columns.len() as int,
    );
    let unclip = seq![MarkView::Unclip];
    let scroll = paint::bar_marks(layout, ui, p);
    let over = paint::over_marks(layout, snap, ui, p);
    let border = paint::marks_if(
        ui.settings.show_window_border,
        seq![MarkView::Border { rect: layout.window, color: p.border }],
    );
    let a = back + bar;
    let b = a + chrome;
    let c = b + clip + columns + unclip + scroll;
    assert(list == c + over + border);
    column_laws::ends_with(a, chrome);
    column_laws::goes_on(b, chrome, clip);
    column_laws::goes_on(b + clip, chrome, columns);
    column_laws::goes_on(b + clip + columns, chrome, unclip);
    column_laws::goes_on(b + clip + columns + unclip, chrome, scroll);
    column_laws::goes_on(c, chrome, over);
    column_laws::goes_on(c + over, chrome, border);
    let hits = paint::hits_marks(layout.hits, snap, ui, p, layout.hits.len() as int);
    column_laws::ends_with(paint::backing_marks(layout, p), hits);
    column_laws::part_of_part(list, chrome, hits);
    column_laws::ends_with(c, over);
    column_laws::goes_on(c + over, over, border);
    let menu = match layout.profile_menu {
        Some(menu) => paint::menu_marks(menu, ui, p),
        None => Seq::empty(),
    };
    let palette = match layout.palette {
        Some(geom) => paint::palette_marks(geom, layout.content, snap, ui, p),
        None => Seq::empty(),
    };
    let modal = match (snap.modal, layout.modal) {
        (Some(view), Some(geom)) => paint::modal_marks(view, geom, layout.content, ui, p),
        _ => Seq::empty(),
    };
    assert(over == menu + palette + modal);
    column_laws::part_between(Seq::empty(), menu, palette + modal);
    assert(Seq::<MarkView>::empty() + menu + (palette + modal) =~= over);
    column_laws::part_between(menu, palette, modal);
    column_laws::ends_with(menu + palette, modal);
    column_laws::part_of_part(list, over, menu);
    column_laws::part_of_part(list, over, palette);
    column_laws::part_of_part(list, over, modal);
}

proof fn profiles_are_parts(rows: Seq<ProfileRowGeomModel>, ui: UiModel, p: Palette, n: int, i: int)
    requires
        0 <= i < n,
    ensures
        column_laws::has_all(
            paint::profiles_marks(rows, ui, p, n),
            paint::profile_marks(rows[i], ui, p),
        ),
    decreases n,
{
    let rest = paint::profiles_marks(rows, ui, p, n - 1);
    let own = paint::profile_marks(rows[n - 1], ui, p);
    if i == n - 1 {
        column_laws::ends_with(rest, own);
    } else {
        profiles_are_parts(rows, ui, p, n - 1, i);
        column_laws::goes_on(rest, paint::profile_marks(rows[i], ui, p), own);
    }
}

/// The open menu names every profile on its own row, the active one in the accent and no
/// other.
pub proof fn the_menu_names_every_profile(
    bounds: Rect,
    layout: LayoutModel,
    snap: SnapshotModel,
    ui: UiModel,
    p: Palette,
    i: int,
)
    requires
        layout.profile_menu is Some,
        0 <= i < layout.profile_menu->Some_0.rows.len(),
    ensures
        ({
            let row = layout.profile_menu->Some_0.rows[i];
            column_laws::says_in(
                paint::frame_marks(bounds, layout, snap, ui, p),
                paint::menu_label(row.rect),
                row.name,
                if row.active {
                    p.accent
                } else {
                    p.text
                },
            )
        }),
{
    let list = paint::frame_marks(bounds, layout, snap, ui, p);
    let menu = layout.profile_menu->Some_0;
    let all = paint::menu_marks(menu, ui, p);
    frame_has_what_lies_over(bounds, layout, snap, ui, p);
    let n = menu.rows.len() as int;
    let head = seq![
        MarkView::Rounded { rect: menu.panel, radius: 6, color: p.surface },
        MarkView::Outline { rect: menu.panel, radius: 6, color: p.border },
    ];
    let rows = paint::profiles_marks(menu.rows, ui, p, n);
    let rule = seq![MarkView::Fill { rect: menu.separator, color: p.border }];
    let lit = paint::marks_if(
        ui.hover == Some(HitTargetView::ProfileCreate),
        seq![
            MarkView::Rounded {
                rect: menu.create,
                radius: paint::MENU_ROW_RADIUS,
                color: p.wash_8,
            },
        ],
    );
    let last = seq![all.last()];
    column_laws::ends_with(head, rows);
    column_laws::goes_on(head + rows, rows, rule);
    column_laws::goes_on(head + rows + rule, rows, lit);
    column_laws::goes_on(head + rows + rule + lit, rows, last);
    assert(head + rows + rule + lit + last =~= all);
    column_laws::part_of_part(list, all, rows);
    profiles_are_parts(menu.rows, ui, p, n, i);
    let own = paint::profile_marks(menu.rows[i], ui, p);
    column_laws::part_of_part(list, rows, own);
    column_laws::in_part(list, own, own.len() - 1);
    column_laws::has_is_said(list, own[own.len() - 1]);
}

proof fn commands_are_parts(
    geom: PaletteGeomModel,
    snap: SnapshotModel,
    ui: UiModel,
    p: Palette,
    n: int,
    k: int,
)
    requires
        0 <= k < n,
    ensures
        column_laws::has_all(
            paint::commands_marks(geom, snap, ui, p, n),
            paint::command_marks(geom, snap, ui, p, k),
        ),
    decreases n,
{
    let rest = paint::commands_marks(geom, snap, ui, p, n - 1);
    let own = paint::command_marks(geom, snap, ui, p, n - 1);
    if k == n - 1 {
        column_laws::ends_with(rest, own);
    } else {
        commands_are_parts(geom, snap, ui, p, n - 1, k);
        column_laws::goes_on(rest, paint::command_marks(geom, snap, ui, p, k), own);
    }
}

/// Whether a list of marks has a command's label at the height of a row.
pub open spec fn names_command(list: Seq<MarkView>, row: Rect, label: Seq<char>) -> bool {
    exists|j: int|
        0 <= j < list.len() && (#[trigger] list[j]) is Command && list[j]->namespace
            + list[j]->action == label && list[j]->Command_rect.y == row.y
            && list[j]->Command_rect.h == row.h
}

/// The palette lists its commands from the first one on show, each on its own row, and
/// lights the selected one.
pub proof fn the_palette_lists_its_commands(
    bounds: Rect,
    layout: LayoutModel,
    snap: SnapshotModel,
    ui: UiModel,
    p: Palette,
    k: int,
)
    requires
        layout.palette is Some,
        0 <= k < layout.palette->Some_0.rows.len(),
        0 <= layout.palette->Some_0.first_visible + k < snap.palette.rows.len(),
    ensures
        ({
            let list = paint::frame_marks(bounds, layout, snap, ui, p);
            let geom = layout.palette->Some_0;
            let i = geom.first_visible + k;
            &&& names_command(list, geom.rows[k], snap.palette.rows[i])
            &&& i == snap.palette.selected ==> column_laws::has(
                list,
                MarkView::Rounded { rect: geom.rows[k], radius: 5, color: p.wash_10 },
            )
        }),
{
    let list = paint::frame_marks(bounds, layout, snap, ui, p);
    let geom = layout.palette->Some_0;
    let n = geom.rows.len() as int;
    let all = paint::palette_marks(geom, layout.content, snap, ui, p);
    frame_has_what_lies_over(bounds, layout, snap, ui, p);
    let search = paint::search_marks(geom, layout.content, snap, ui, p);
    let rows = paint::commands_marks(geom, snap, ui, p, n);
    let tail = all.skip((search.len() + rows.len()) as int);
    assert(search + rows + tail =~= all);
    column_laws::part_between(search, rows, tail);
    column_laws::part_of_part(list, all, rows);
    commands_are_parts(geom, snap, ui, p, n, k);
    let own = paint::command_marks(geom, snap, ui, p, k);
    column_laws::part_of_part(list, rows, own);
    column_laws::in_part(list, own, own.len() - 1);
    column_laws::in_part(list, own, 0);
    let label = snap.palette.rows[geom.first_visible + k];
    panels::splitting_loses_nothing(label);
    let mark = own[own.len() - 1];
    let j = choose|j: int| 0 <= j < list.len() && #[trigger] list[j] == mark;
    assert(list[j] is Command);
}

/// A modal says what it is about: its title, its body and its error where it has them,
/// and on the button that confirms what that does, in the colour of danger where it
/// destroys something.
pub proof fn a_modal_says_what_it_is_about(
    bounds: Rect,
    layout: LayoutModel,
    snap: SnapshotModel,
    ui: UiModel,
    p: Palette,
    modal: ModalModel,
    geom: ModalGeom,
)
    requires
        snap.modal == Some(modal),
        layout.modal == Some(geom),
    ensures
        ({
            let list = paint::frame_marks(bounds, layout, snap, ui, p);
            &&& column_laws::says(list, geom.title, modal.title)
            &&& modal.body.len() > 0 ==> column_laws::says(list, geom.body, modal.body)
            &&& modal.error is Some ==> column_laws::says_in(
                list,
                geom.error,
                modal.error->Some_0,
                p.warning,
            )
            &&& geom.input is Some ==> column_laws::has(
                list,
                MarkView::Field {
                    rect: geom.input->Some_0,
                    text: modal.input_value,
                    color: p.text,
                },
            )
            &&& column_laws::says(list, geom.cancel, "Cancel"@)
            &&& column_laws::says(list, geom.confirm, modal.confirm_label)
            &&& column_laws::has(
                list,
                MarkView::Rounded {
                    rect: geom.confirm,
                    radius: 5,
                    color: if modal.destructive {
                        p.danger_bg
                    } else {
                        p.cta_bg
                    },
                },
            )
        }),
{
    let list = paint::frame_marks(bounds, layout, snap, ui, p);
    let all = paint::modal_marks(modal, geom, layout.content, ui, p);
    frame_has_what_lies_over(bounds, layout, snap, ui, p);
    modal_parts(modal, geom, layout.content, ui, p);
    let words = paint::modal_words(modal, geom, ui, p);
    column_laws::part_of_part(list, all, words);
    words_are_said(list, modal, geom, ui, p);
    let foot = buttons_of(modal, geom, p);
    column_laws::part_of_part(list, all, foot);
    column_laws::in_part(list, foot, 1);
    column_laws::has_is_said(list, foot[1]);
    column_laws::in_part(list, foot, 2);
    column_laws::in_part(list, foot, 3);
    column_laws::has_is_said(list, foot[3]);
}

/// A modal's two buttons.
spec fn buttons_of(modal: ModalModel, geom: ModalGeom, p: Palette) -> Seq<MarkView> {
    seq![
        MarkView::Rounded { rect: geom.cancel, radius: 5, color: p.wash_8 },
        paint::said(
            geom.cancel,
            "Cancel"@,
            TextStyle::plain(Number { bits: SUB_SIZE }, p.text_subtle),
        ),
        MarkView::Rounded {
            rect: geom.confirm,
            radius: 5,
            color: if modal.destructive {
                p.danger_bg
            } else {
                p.cta_bg
            },
        },
        paint::said(
            geom.confirm,
            modal.confirm_label,
            TextStyle::plain(Number { bits: SUB_SIZE }, p.on_filled),
        ),
    ]
}

proof fn modal_parts(modal: ModalModel, geom: ModalGeom, content: Rect, ui: UiModel, p: Palette)
    ensures
        column_laws::has_all(
            paint::modal_marks(modal, geom, content, ui, p),
            paint::modal_words(modal, geom, ui, p),
        ),
        column_laws::has_all(
            paint::modal_marks(modal, geom, content, ui, p),
            buttons_of(modal, geom, p),
        ),
{
    let words = paint::modal_words(modal, geom, ui, p);
    let head = seq![
        MarkView::Fill { rect: content, color: p.backdrop },
        MarkView::Rounded { rect: geom.panel, radius: 8, color: p.surface },
        MarkView::Outline { rect: geom.panel, radius: 8, color: p.border },
    ];
    let foot = buttons_of(modal, geom, p);
    assert(paint::modal_marks(modal, geom, content, ui, p) == head + words + foot);
    column_laws::part_between(head, words, foot);
    column_laws::ends_with(head + words, foot);
}

proof fn words_are_said(
    list: Seq<MarkView>,
    modal: ModalModel,
    geom: ModalGeom,
    ui: UiModel,
    p: Palette,
)
    requires
        column_laws::has_all(list, paint::modal_words(modal, geom, ui, p)),
    ensures
        column_laws::says(list, geom.title, modal.title),
        modal.body.len() > 0 ==> column_laws::says(list, geom.body, modal.body),
        modal.error is Some ==> column_laws::says_in(
            list,
            geom.error,
            modal.error->Some_0,
            p.warning,
        ),
        geom.input is Some ==> column_laws::has(
            list,
            MarkView::Field { rect: geom.input->Some_0, text: modal.input_value, color: p.text },
        ),
{
    let words = paint::modal_words(modal, geom, ui, p);
    column_laws::in_part(list, words, 0);
    column_laws::has_is_said(list, words[0]);
    let body: int = if modal.body.len() > 0 {
        1
    } else {
        0
    };
    if modal.body.len() > 0 {
        column_laws::in_part(list, words, 1);
        column_laws::has_is_said(list, words[1]);
    }
    if geom.input is Some {
        column_laws::in_part(list, words, 1 + body + 1);
    }
    if modal.error is Some {
        let last = words.len() - 1;
        column_laws::in_part(list, words, last);
        column_laws::has_is_said(list, words[last]);
    }
}

proof fn hits_are_parts(
    hits: Seq<HitModel>,
    snap: SnapshotModel,
    ui: UiModel,
    p: Palette,
    n: int,
    k: int,
)
    requires
        0 <= k < n,
    ensures
        column_laws::has_all(
            paint::hits_marks(hits, snap, ui, p, n),
            paint::hit_marks(hits[k], snap, ui, p),
        ),
    decreases n,
{
    let rest = paint::hits_marks(hits, snap, ui, p, n - 1);
    let own = paint::hit_marks(hits[n - 1], snap, ui, p);
    if k == n - 1 {
        column_laws::ends_with(rest, own);
    } else {
        hits_are_parts(hits, snap, ui, p, n - 1, k);
        column_laws::goes_on(rest, paint::hit_marks(hits[k], snap, ui, p), own);
    }
}

/// Whether a list of marks has a text at the height of a place.
pub open spec fn says_beside(list: Seq<MarkView>, rect: Rect, text: Seq<char>) -> bool {
    exists|j: int|
        0 <= j < list.len() && (#[trigger] list[j]) is Text && list[j]->Text_rect.y == rect.y
            && list[j]->Text_rect.h == rect.h && list[j]->Text_text == text
}

/// The toolbar's buttons say what they are where they can be pressed: a section's its
/// name, filled while that section is on show and not otherwise, and the chip the active
/// profile's name.
pub proof fn the_toolbar_says_what_it_does(
    bounds: Rect,
    layout: LayoutModel,
    snap: SnapshotModel,
    ui: UiModel,
    p: Palette,
    k: int,
)
    requires
        0 <= k < layout.hits.len(),
    ensures
        ({
            let list = paint::frame_marks(bounds, layout, snap, ui, p);
            let hit = layout.hits[k];
            match hit.target {
                HitTargetView::SectionFilter(section) => column_laws::says_in(
                    list,
                    hit.rect,
                    match section {
                        Section::Inputs => "IN"@,
                        Section::Outputs => "OUT"@,
                        Section::Apps => "APP"@,
                    },
                    if snap.filter.showing(section) {
                        p.on_filled
                    } else {
                        p.text_subtle
                    },
                ),
                HitTargetView::MuteAll => column_laws::says(list, hit.rect, "M"@),
                HitTargetView::ResetTargets => column_laws::says(list, hit.rect, "R"@),
                HitTargetView::ProfileSelector => says_beside(
                    list,
                    hit.rect,
                    match snap.profile.active {
                        Some(name) => name,
                        None => "Profiles"@,
                    },
                ),
                _ => true,
            }
        }),
{
    let list = paint::frame_marks(bounds, layout, snap, ui, p);
    let n = layout.hits.len() as int;
    let hits = paint::hits_marks(layout.hits, snap, ui, p, n);
    frame_has_what_lies_over(bounds, layout, snap, ui, p);
    hits_are_parts(layout.hits, snap, ui, p, n, k);
    let own = paint::hit_marks(layout.hits[k], snap, ui, p);
    column_laws::part_of_part(list, hits, own);
    match layout.hits[k].target {
        HitTargetView::ProfileSelector => {
            column_laws::in_part(list, own, 1);
            let j = choose|j: int| 0 <= j < list.len() && #[trigger] list[j] == own[1];
            assert(list[j] is Text);
        },
        HitTargetView::SectionFilter(_) => {
            column_laws::in_part(list, own, own.len() - 1);
            column_laws::has_is_said(list, own[own.len() - 1]);
        },
        HitTargetView::MuteAll => {
            column_laws::in_part(list, own, own.len() - 1);
            column_laws::has_is_said(list, own[own.len() - 1]);
        },
        HitTargetView::ResetTargets => {
            column_laws::in_part(list, own, own.len() - 1);
            column_laws::has_is_said(list, own[own.len() - 1]);
        },
        _ => {},
    }
}

} // verus!
