//! What the overlays' keys and rows mean when a toolkit hosts them.

use crate::state::{Message, MessageView};
use crate::text::{chars_of, text_of};
use crate::ui::input;
use crate::ui::input::{Key, Request, RequestView};
use vstd::prelude::*;
use vstd::string::*;

verus! {

/// What a key pressed in the palette's search field asks for: the arrows move the
/// selection, Escape closes the palette, anything else is the field's own.
pub open spec fn palette_key_asks(key: Key, rows: usize) -> Option<MessageView> {
    match key {
        Key::Up => Some(MessageView::PaletteSelectPrev { rows }),
        Key::Down => Some(MessageView::PaletteSelectNext { rows }),
        Key::Escape => Some(MessageView::TogglePalette),
        _ => None,
    }
}

pub fn palette_key(key: Key, rows: usize) -> (message: Option<Message>)
    ensures
        input::message_view(message) == palette_key_asks(key, rows),
{
    match key {
        Key::Up => Some(Message::PaletteSelectPrev { rows }),
        Key::Down => Some(Message::PaletteSelectNext { rows }),
        Key::Escape => Some(Message::TogglePalette),
        _ => None,
    }
}

/// What activating a row of the palette asks for: the palette closes, then the
/// row's command runs.
pub open spec fn activation(index: usize, rows: usize) -> Seq<RequestView> {
    if index < rows {
        seq![RequestView::Send(MessageView::TogglePalette), RequestView::Command(index)]
    } else {
        Seq::empty()
    }
}

pub fn activate_row(index: usize, rows: usize) -> (asks: Vec<Request>)
    ensures
        input::requests(asks@) == activation(index, rows),
{
    let mut asks: Vec<Request> = Vec::new();
    if index < rows {
        asks.push(Request::Send(Message::TogglePalette));
        asks.push(Request::Command(index));
    }
    assert(input::requests(asks@) =~= activation(index, rows));
    asks
}

/// What a key pressed in a modal asks for: Escape dismisses it, anything else is
/// its own.
pub fn modal_key(key: Key) -> (message: Option<Message>)
    ensures
        input::message_view(message) == if key == Key::Escape {
            Some(MessageView::ModalDismiss)
        } else {
            None
        },
{
    match key {
        Key::Escape => Some(Message::ModalDismiss),
        _ => None,
    }
}

/// Where a command's action begins: behind the first colon and space, which end
/// the namespace it opens with.
pub open spec fn action_at(label: Seq<char>, from: int) -> Option<int>
    decreases label.len() - from,
{
    if from + 1 >= label.len() {
        None
    } else if label[from] == ':' && label[from + 1] == ' ' {
        Some(from + 2)
    } else {
        action_at(label, from + 1)
    }
}

/// A command's namespace, empty where it has none, and its action.
pub open spec fn split_command(label: Seq<char>) -> (Seq<char>, Seq<char>) {
    match action_at(label, 0) {
        Some(i) => (label.take(i), label.skip(i)),
        None => (Seq::empty(), label),
    }
}

proof fn action_bounds(label: Seq<char>, from: int)
    requires
        0 <= from,
    ensures
        action_at(label, from) matches Some(i) ==> from + 2 <= i <= label.len(),
    decreases label.len() - from,
{
    if from + 1 < label.len() && !(label[from] == ':' && label[from + 1] == ' ') {
        action_bounds(label, from + 1);
    }
}

/// Split a command's label. The namespace it opens with ("profile: ") names a
/// group rather than the action, so the two are drawn apart.
pub fn command_parts(label: &str) -> (parts: (String, String))
    ensures
        (parts.0@, parts.1@) == split_command(label@),
{
    let v = chars_of(label);
    let mut i: usize = 0;
    while i < v.len() && i + 1 < v.len()
        invariant
            i <= v@.len(),
            v@ == label@,
            action_at(label@, 0) == action_at(label@, i as int),
        decreases v@.len() - i,
    {
        if v[i] == ':' && v[i + 1] == ' ' {
            let namespace = text_of(&v, 0, i + 2);
            let action = text_of(&v, i + 2, v.len());
            assert(namespace@ =~= label@.take(i + 2));
            assert(action@ =~= label@.skip(i + 2));
            return (namespace, action);
        }
        i = i + 1;
    }
    let none: String = String::new();
    assert(none@ =~= Seq::<char>::empty());
    (none, label.to_owned())
}

/// Splitting loses nothing: the two parts are the label again.
pub proof fn splitting_loses_nothing(label: Seq<char>)
    ensures
        split_command(label).0 + split_command(label).1 == label,
{
    action_bounds(label, 0);
    if let Some(i) = action_at(label, 0) {
        assert(label.take(i) + label.skip(i) =~= label);
    } else {
        assert(Seq::<char>::empty() + label =~= label);
    }
}

} // verus!
