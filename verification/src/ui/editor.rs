//! The text-editing model: the text, the caret, and the selection anchor.
//!
//! Pure logic. Nothing here knows about the renderer, the clipboard, or the
//! shell; the shell turns key presses and clicks into these calls and takes the
//! answers back.
//!
//! Positions are char offsets, not byte offsets, because that is what a caret
//! is; bytes only bound how much a field holds.

use crate::text;
use crate::text::{byte_len, char_size, chars_of, text_of};
use vstd::prelude::*;
use vstd::string::*;

verus! {

/// Byte capacity of an editable field (palette query, profile name).
pub const MAX_LEN: usize = 1024;

/// The text being edited, the caret, and where a selection started.
///
/// An anchor equal to the cursor is not a selection: Shift+Left then
/// Shift+Right lands exactly there, and treating it as one would select a
/// character the user never asked for.
#[derive(Debug)]
pub struct Editor {
    pub text: String,
    pub cursor: usize,
    pub anchor: Option<usize>,
}

#[verifier::ext_equal]
pub struct EditorView {
    pub text: Seq<char>,
    pub cursor: usize,
    pub anchor: Option<usize>,
}

impl View for Editor {
    type V = EditorView;

    open spec fn view(&self) -> EditorView {
        EditorView { text: self.text@, cursor: self.cursor, anchor: self.anchor }
    }
}

/// Part of a word: a letter, a number, or an underscore.
pub open spec fn is_word(c: char) -> bool {
    text::is_alnum(c) || c == '_'
}

/// Where the run of same-kind characters that reaches up to `at` begins.
pub open spec fn run_start(s: Seq<char>, at: int, want: bool) -> int
    decreases at,
{
    if 0 < at <= s.len() && is_word(s[at - 1]) == want {
        run_start(s, at - 1, want)
    } else {
        at
    }
}

/// Where the run of same-kind characters that goes on from `at` ends.
pub open spec fn run_end(s: Seq<char>, at: int, want: bool) -> int
    decreases s.len() - at,
{
    if 0 <= at < s.len() && is_word(s[at]) == want {
        run_end(s, at + 1, want)
    } else {
        at
    }
}

/// The word around a char offset, as (start, end) char offsets. A click in the
/// run of separators between two words selects that run, matching every other
/// text field.
pub open spec fn word_around(s: Seq<char>, at: int) -> (int, int) {
    if s.len() == 0 {
        (0, 0)
    } else {
        let pos = if at < s.len() {
            at
        } else {
            s.len() - 1
        };
        let want = is_word(s[pos]);
        (run_start(s, pos, want), run_end(s, pos, want))
    }
}

/// A text with the stretch from `from` to `to` replaced.
pub open spec fn spliced(s: Seq<char>, from: int, to: int, with: Seq<char>) -> Seq<char> {
    s.subrange(0, from) + with + s.subrange(to, s.len() as int)
}

impl EditorView {
    /// The caret and the anchor are in the text, or right behind it.
    pub open spec fn wf(self) -> bool {
        &&& self.cursor <= self.text.len()
        &&& self.anchor matches Some(a) ==> a <= self.text.len()
    }

    /// An empty field.
    pub open spec fn blank() -> EditorView {
        EditorView { text: Seq::empty(), cursor: 0, anchor: None }
    }

    /// A field holding a text, the caret behind it.
    pub open spec fn holding(s: Seq<char>) -> EditorView {
        EditorView { text: s, cursor: s.len() as usize, anchor: None }
    }

    /// The selected stretch, from its start to its end.
    pub open spec fn selection(self) -> Option<(usize, usize)> {
        match self.anchor {
            Some(a) => if a == self.cursor {
                None
            } else if a < self.cursor {
                Some((a, self.cursor))
            } else {
                Some((self.cursor, a))
            },
            None => None,
        }
    }

    pub open spec fn selected(self) -> Option<Seq<char>> {
        match self.selection() {
            Some((start, end)) => Some(self.text.subrange(start as int, end as int)),
            None => None,
        }
    }

    /// The selected stretch gone and the caret where it was; the same where
    /// nothing is selected.
    pub open spec fn without_selection(self) -> EditorView {
        match self.selection() {
            Some((start, end)) => EditorView {
                text: spliced(self.text, start as int, end as int, Seq::empty()),
                cursor: start,
                anchor: None,
            },
            None => self,
        }
    }

    /// A text put in at the caret, which moves behind it.
    pub open spec fn inserted(self, s: Seq<char>) -> EditorView {
        EditorView {
            text: spliced(self.text, self.cursor as int, self.cursor as int, s),
            cursor: (self.cursor + s.len()) as usize,
            anchor: None,
        }
    }

    /// A text fits once the selection is gone.
    pub open spec fn fits(self, s: Seq<char>) -> bool {
        text::size(self.without_selection().text) + text::size(s) <= MAX_LEN
    }

    /// A character typed: it takes the selection's place. A full field ignores it,
    /// selection and all; an anchor that marks no selection is let go.
    pub open spec fn typed(self, ch: char) -> EditorView {
        if self.fits(seq![ch]) {
            self.without_selection().inserted(seq![ch])
        } else if self.selection() is Some {
            self
        } else {
            EditorView { anchor: None, ..self }
        }
    }

    /// A text pasted in the selection's place, whole or not at all.
    pub open spec fn pasted(self, s: Seq<char>) -> EditorView {
        if self.fits(s) {
            self.without_selection().inserted(s)
        } else {
            self
        }
    }

    /// The selection deleted, or the character before the caret.
    pub open spec fn backspaced(self) -> EditorView {
        if self.selection() is Some {
            self.without_selection()
        } else if self.cursor > 0 {
            EditorView {
                text: self.text.remove(self.cursor - 1),
                cursor: (self.cursor - 1) as usize,
                anchor: None,
            }
        } else {
            EditorView { anchor: None, ..self }
        }
    }

    /// The selection deleted, or the character after the caret.
    pub open spec fn deleted(self) -> EditorView {
        if self.selection() is Some {
            self.without_selection()
        } else if self.cursor < self.text.len() {
            EditorView { text: self.text.remove(self.cursor as int), anchor: None, ..self }
        } else {
            EditorView { anchor: None, ..self }
        }
    }

    /// The anchor a selection extends from: the one there is, else the caret.
    pub open spec fn anchored(self) -> Option<usize> {
        match self.anchor {
            Some(a) => Some(a),
            None => Some(self.cursor),
        }
    }

    pub open spec fn gone_left(self, shift: bool) -> EditorView {
        let back = if self.cursor > 0 {
            (self.cursor - 1) as usize
        } else {
            0
        };
        if shift {
            EditorView { cursor: back, anchor: self.anchored(), ..self }
        } else {
            match self.selection() {
                Some((start, _)) => EditorView { cursor: start, anchor: None, ..self },
                None => EditorView { cursor: back, anchor: None, ..self },
            }
        }
    }

    pub open spec fn gone_right(self, shift: bool) -> EditorView {
        let on = if self.cursor < self.text.len() {
            (self.cursor + 1) as usize
        } else {
            self.cursor
        };
        if shift {
            EditorView { cursor: on, anchor: self.anchored(), ..self }
        } else {
            match self.selection() {
                Some((_, end)) => EditorView { cursor: end, anchor: None, ..self },
                None => EditorView { cursor: on, anchor: None, ..self },
            }
        }
    }

    /// The caret moved somewhere, the selection extended with it or dropped.
    pub open spec fn gone_to(self, at: int, shift: bool) -> EditorView {
        EditorView {
            cursor: at as usize,
            anchor: if shift {
                self.anchored()
            } else {
                None
            },
            ..self
        }
    }

    pub open spec fn all_selected(self) -> EditorView {
        EditorView { cursor: self.text.len() as usize, anchor: Some(0), ..self }
    }

    /// A char offset, or the end of the text when it lies beyond.
    pub open spec fn within(self, at: usize) -> int {
        if at < self.text.len() {
            at as int
        } else {
            self.text.len() as int
        }
    }

    pub open spec fn clicked(self, at: usize, count: u32) -> EditorView {
        if count == 2 {
            let (start, end) = word_around(self.text, at as int);
            EditorView { cursor: end as usize, anchor: Some(start as usize), ..self }
        } else if count >= 3 {
            self.all_selected()
        } else {
            self.gone_to(self.within(at), false)
        }
    }
}

proof fn run_bounds(s: Seq<char>, at: int, want: bool)
    requires
        0 <= at <= s.len(),
    ensures
        0 <= run_start(s, at, want) <= at <= run_end(s, at, want) <= s.len(),
    decreases s.len(),
{
    run_start_bounds(s, at, want);
    run_end_bounds(s, at, want);
}

proof fn run_start_bounds(s: Seq<char>, at: int, want: bool)
    requires
        0 <= at <= s.len(),
    ensures
        0 <= run_start(s, at, want) <= at,
    decreases at,
{
    if 0 < at && is_word(s[at - 1]) == want {
        run_start_bounds(s, at - 1, want);
    }
}

proof fn run_end_bounds(s: Seq<char>, at: int, want: bool)
    requires
        0 <= at <= s.len(),
    ensures
        at <= run_end(s, at, want) <= s.len(),
    decreases s.len() - at,
{
    if at < s.len() && is_word(s[at]) == want {
        run_end_bounds(s, at + 1, want);
    }
}

fn part_of_word(c: char) -> (b: bool)
    ensures
        b == is_word(c),
{
    c.is_alphanumeric() || c == '_'
}

/// A text with the stretch from `from` to `to` replaced.
fn splice(s: &str, from: usize, to: usize, with: &str) -> (out: String)
    requires
        from <= to <= s@.len(),
    ensures
        out@ == spliced(s@, from as int, to as int, with@),
{
    let v = chars_of(s);
    let head = text_of(&v, 0, from);
    let tail = text_of(&v, to, v.len());
    head.concat(with).concat(tail.as_str())
}

impl Editor {
    pub fn new() -> (e: Self)
        ensures
            e@ == EditorView::blank(),
            e@.wf(),
    {
        Editor { text: String::new(), cursor: 0, anchor: None }
    }

    pub fn text(&self) -> (s: &str)
        ensures
            s@ == self@.text,
    {
        self.text.as_str()
    }

    pub fn cursor(&self) -> (at: usize)
        ensures
            at == self@.cursor,
    {
        self.cursor
    }

    /// How many chars the text holds. The caret can sit at any of them, or one
    /// past the last.
    pub fn len(&self) -> (n: usize)
        ensures
            n == self@.text.len(),
    {
        chars_of(self.text.as_str()).len()
    }

    pub fn is_empty(&self) -> (e: bool)
        ensures
            e == (self@.text.len() == 0),
    {
        self.len() == 0
    }

    /// The selection as (start, end) char offsets, or None when there is none.
    pub fn selection(&self) -> (range: Option<(usize, usize)>)
        ensures
            range == self@.selection(),
    {
        match self.anchor {
            Some(a) => if a == self.cursor {
                None
            } else if a < self.cursor {
                Some((a, self.cursor))
            } else {
                Some((self.cursor, a))
            },
            None => None,
        }
    }

    /// The selected text, if any.
    pub fn selected_text(&self) -> (s: Option<String>)
        requires
            self@.wf(),
        ensures
            text::opt(s) == self@.selected(),
    {
        match self.selection() {
            Some((start, end)) => {
                let v = chars_of(self.text.as_str());
                Some(text_of(&v, start, end))
            },
            None => None,
        }
    }

    /// Replace the whole text and drop the caret at the end, no selection. Used
    /// to seed the field when an overlay opens with an existing value.
    pub fn set_text(&mut self, s: &str)
        ensures
            final(self)@ == EditorView::holding(s@),
            final(self)@.wf(),
    {
        self.text = s.to_owned();
        self.cursor = self.len();
        self.anchor = None;
    }

    /// Clear everything.
    pub fn clear(&mut self)
        ensures
            final(self)@ == EditorView::blank(),
            final(self)@.wf(),
    {
        self.text = String::new();
        self.cursor = 0;
        self.anchor = None;
    }

    /// Type a character, replacing the selection. Ignored when the field is full:
    /// advancing the caret past text that was never inserted desyncs it, and
    /// every later edit lands in the wrong place.
    pub fn insert(&mut self, ch: char) -> (typed: bool)
        requires
            old(self)@.wf(),
        ensures
            final(self)@ == old(self)@.typed(ch),
            final(self)@.wf(),
            typed == old(self)@.fits(seq![ch]),
    {
        let held: usize = self.len_without_selection();
        let more: usize = char_size(ch);
        if held > MAX_LEN || more > MAX_LEN - held {
            if self.selection().is_none() {
                self.anchor = None;
            }
            return false;
        }
        let gone = self.delete_selection();
        let mut s: String = String::new();
        s.push(ch);
        assert(s@ =~= seq![ch]);
        self.put(s.as_str());
        true
    }

    /// How many bytes are left once the selection is gone.
    fn len_without_selection(&self) -> (held: usize)
        requires
            self@.wf(),
        ensures
            held == text::size(self@.without_selection().text),
    {
        proof {
            reveal_strlit("");
            assert(""@ =~= Seq::<char>::empty());
        }
        match self.selection() {
            Some((start, end)) => byte_len(splice(self.text.as_str(), start, end, "").as_str()),
            None => byte_len(self.text.as_str()),
        }
    }

    /// Put a text in at the caret, which moves behind it.
    fn put(&mut self, s: &str)
        requires
            old(self)@.wf(),
        ensures
            final(self)@ == old(self)@.inserted(s@),
            final(self)@.wf(),
    {
        let n: usize = chars_of(s).len();
        let next = splice(self.text.as_str(), self.cursor, self.cursor, s);
        let total = chars_of(next.as_str());
        assert(total.len() == total@.len());
        self.text = next;
        self.cursor = self.cursor + n;
        self.anchor = None;
    }

    /// Replace the selection with s, or insert it at the caret. All or nothing:
    /// deleting the selection first and then failing to fit would leave neither
    /// the old text nor the pasted text.
    pub fn paste(&mut self, s: &str) -> (pasted: bool)
        requires
            old(self)@.wf(),
        ensures
            final(self)@ == old(self)@.pasted(s@),
            final(self)@.wf(),
            pasted == old(self)@.fits(s@),
    {
        let held: usize = self.len_without_selection();
        let more: usize = byte_len(s);
        if held > MAX_LEN || more > MAX_LEN - held {
            return false;
        }
        let gone = self.delete_selection();
        self.put(s);
        true
    }

    /// Delete the selection, or the char before the caret.
    pub fn backspace(&mut self)
        requires
            old(self)@.wf(),
        ensures
            final(self)@ == old(self)@.backspaced(),
            final(self)@.wf(),
    {
        if self.delete_selection() {
            return;
        }
        // An anchor that took no part in this edit would, once the caret moves
        // off it, read as a one-character selection the next keystroke eats.
        self.anchor = None;
        if self.cursor > 0 {
            self.cursor = self.cursor - 1;
            self.drop_char();
        }
    }

    /// Take out the char after the caret.
    fn drop_char(&mut self)
        requires
            old(self)@.wf(),
            old(self)@.cursor < old(self)@.text.len(),
        ensures
            final(self)@ == (EditorView {
                text: old(self)@.text.remove(old(self)@.cursor as int),
                ..old(self)@
            }),
    {
        let at: usize = self.cursor;
        let n: usize = self.len();
        assert(at < n);
        self.text = splice(self.text.as_str(), at, at + 1, "");
        proof {
            reveal_strlit("");
            assert(self@.text =~= old(self)@.text.remove(at as int));
        }
    }

    /// Delete the selection, or the char after the caret.
    pub fn delete(&mut self)
        requires
            old(self)@.wf(),
        ensures
            final(self)@ == old(self)@.deleted(),
            final(self)@.wf(),
    {
        if self.delete_selection() {
            return;
        }
        self.anchor = None;
        if self.cursor < self.len() {
            self.drop_char();
        }
    }

    /// Delete the selection and put the caret where it started. False when there
    /// was nothing selected.
    pub fn delete_selection(&mut self) -> (gone: bool)
        requires
            old(self)@.wf(),
        ensures
            final(self)@ == old(self)@.without_selection(),
            final(self)@.wf(),
            gone == (old(self)@.selection() is Some),
    {
        match self.selection() {
            Some((start, end)) => {
                self.text = splice(self.text.as_str(), start, end, "");
                self.cursor = start;
                self.anchor = None;
                proof {
                    reveal_strlit("");
                    assert(""@ =~= Seq::<char>::empty());
                }
                true
            },
            None => false,
        }
    }

    /// Anchor a selection at the caret, unless one is anchored already.
    fn hold_anchor(&mut self)
        ensures
            final(self)@ == (EditorView { anchor: old(self)@.anchored(), ..old(self)@ }),
    {
        if self.anchor.is_none() {
            self.anchor = Some(self.cursor);
        }
    }

    /// Move the caret one char left. With shift, extend the selection; without
    /// it, a selection collapses to its start rather than moving the caret.
    pub fn left(&mut self, shift: bool)
        requires
            old(self)@.wf(),
        ensures
            final(self)@ == old(self)@.gone_left(shift),
            final(self)@.wf(),
    {
        if shift {
            self.hold_anchor();
        } else if let Some((start, _)) = self.selection() {
            self.cursor = start;
            self.anchor = None;
            return;
        } else {
            self.anchor = None;
        }
        if self.cursor > 0 {
            self.cursor = self.cursor - 1;
        }
    }

    /// Move the caret one char right, or collapse a selection to its end.
    pub fn right(&mut self, shift: bool)
        requires
            old(self)@.wf(),
        ensures
            final(self)@ == old(self)@.gone_right(shift),
            final(self)@.wf(),
    {
        if shift {
            self.hold_anchor();
        } else if let Some((_, end)) = self.selection() {
            self.cursor = end;
            self.anchor = None;
            return;
        } else {
            self.anchor = None;
        }
        if self.cursor < self.len() {
            self.cursor = self.cursor + 1;
        }
    }

    pub fn home(&mut self, shift: bool)
        requires
            old(self)@.wf(),
        ensures
            final(self)@ == old(self)@.gone_to(0, shift),
            final(self)@.wf(),
    {
        if shift {
            self.hold_anchor();
        } else {
            self.anchor = None;
        }
        self.cursor = 0;
    }

    pub fn end(&mut self, shift: bool)
        requires
            old(self)@.wf(),
        ensures
            final(self)@ == old(self)@.gone_to(old(self)@.text.len() as int, shift),
            final(self)@.wf(),
    {
        if shift {
            self.hold_anchor();
        } else {
            self.anchor = None;
        }
        self.cursor = self.len();
    }

    pub fn select_all(&mut self)
        ensures
            final(self)@ == old(self)@.all_selected(),
            final(self)@.wf(),
    {
        self.anchor = Some(0);
        self.cursor = self.len();
    }

    /// A click at a char offset. One click places the caret, two select the word
    /// under it, three or more select everything.
    pub fn click(&mut self, at: usize, count: u32)
        requires
            old(self)@.wf(),
        ensures
            final(self)@ == old(self)@.clicked(at, count),
            final(self)@.wf(),
    {
        if count == 2 {
            let (start, end) = self.word_at(at);
            self.anchor = Some(start);
            self.cursor = end;
        } else if count >= 3 {
            self.select_all();
        } else {
            let n: usize = self.len();
            self.cursor = if at < n {
                at
            } else {
                n
            };
            self.anchor = None;
        }
    }

    /// A drag to a char offset, extending from wherever the drag began.
    pub fn drag(&mut self, to: usize)
        requires
            old(self)@.wf(),
        ensures
            final(self)@ == old(self)@.gone_to(old(self)@.within(to), true),
            final(self)@.wf(),
    {
        self.hold_anchor();
        let n: usize = self.len();
        self.cursor = if to < n {
            to
        } else {
            n
        };
    }

    /// The word around a char offset, as (start, end) char offsets. A click in
    /// the run of separators between two words selects that run, matching every
    /// other text field.
    fn word_at(&self, at: usize) -> (word: (usize, usize))
        ensures
            word.0 == word_around(self@.text, at as int).0,
            word.1 == word_around(self@.text, at as int).1,
            word.0 <= word.1 <= self@.text.len(),
    {
        let chars = chars_of(self.text.as_str());
        let len: usize = chars.len();
        if len == 0 {
            return (0, 0);
        }
        let pos: usize = if at < len {
            at
        } else {
            len - 1
        };
        // Grow both ways over chars of the same kind as the one clicked.
        let want = part_of_word(chars[pos]);
        proof {
            run_bounds(chars@, pos as int, want);
        }
        let mut start: usize = pos;
        while start > 0 && part_of_word(chars[start - 1]) == want
            invariant
                start <= pos < chars@.len(),
                run_start(chars@, pos as int, want) == run_start(chars@, start as int, want),
            decreases start,
        {
            start = start - 1;
        }
        let mut end: usize = pos;
        while end < len && part_of_word(chars[end]) == want
            invariant
                pos <= end <= len == chars@.len(),
                run_end(chars@, pos as int, want) == run_end(chars@, end as int, want),
            decreases len - end,
        {
            end = end + 1;
        }
        (start, end)
    }
}

impl Default for Editor {
    fn default() -> (e: Self)
        ensures
            e@ == EditorView::blank(),
    {
        Editor::new()
    }
}

/// The caret and the anchor stay in the text whatever is done to it.
pub proof fn edits_keep_the_caret_in_the_text(
    e: EditorView,
    ch: char,
    s: Seq<char>,
    at: usize,
    count: u32,
    shift: bool,
)
    requires
        e.wf(),
        e.text.len() + s.len() <= usize::MAX,
        e.text.len() < usize::MAX,
    ensures
        e.without_selection().wf(),
        e.typed(ch).wf(),
        e.pasted(s).wf(),
        e.backspaced().wf(),
        e.deleted().wf(),
        e.gone_left(shift).wf(),
        e.gone_right(shift).wf(),
        e.gone_to(0, shift).wf(),
        e.gone_to(e.text.len() as int, shift).wf(),
        e.gone_to(e.within(at), shift).wf(),
        e.all_selected().wf(),
        e.clicked(at, count).wf(),
{
    if e.text.len() > 0 {
        let pos = if at < e.text.len() {
            at as int
        } else {
            e.text.len() - 1
        };
        run_bounds(e.text, pos, is_word(e.text[pos]));
    }
}

/// A field never takes in more than it holds: one within its capacity stays
/// within it whatever is typed or pasted.
pub proof fn fields_never_overfill(e: EditorView, ch: char, s: Seq<char>)
    requires
        e.wf(),
        text::size(e.text) <= MAX_LEN,
    ensures
        text::size(e.without_selection().text) <= text::size(e.text),
        text::size(e.typed(ch).text) <= MAX_LEN,
        text::size(e.pasted(s).text) <= MAX_LEN,
{
    let t = e.without_selection();
    match e.selection() {
        Some((start, end)) => {
            let (a, b, c) = (
                e.text.subrange(0, start as int),
                e.text.subrange(start as int, end as int),
                e.text.subrange(end as int, e.text.len() as int),
            );
            assert(e.text =~= a + b + c);
            assert(t.text =~= a + c);
            text::size_of_both(a + b, c);
            text::size_of_both(a, b);
            text::size_of_both(a, c);
        },
        None => {},
    }
    size_of_inserted(t, seq![ch]);
    size_of_inserted(t, s);
}

proof fn size_of_inserted(e: EditorView, s: Seq<char>)
    requires
        e.wf(),
    ensures
        text::size(e.inserted(s).text) == text::size(e.text) + text::size(s),
{
    let a = e.text.subrange(0, e.cursor as int);
    let b = e.text.subrange(e.cursor as int, e.text.len() as int);
    assert(e.text =~= a + b);
    text::size_of_both(a, b);
    text::size_of_both(a + s, b);
    text::size_of_both(a, s);
}

/// A paste happens whole or not at all: one that does not fit changes nothing,
/// selection and caret with it, and one that fits stands where the selection
/// was, with the caret behind it.
pub proof fn pastes_are_all_or_nothing(e: EditorView, s: Seq<char>)
    requires
        e.wf(),
        e.text.len() + s.len() <= usize::MAX,
    ensures
        !e.fits(s) ==> e.pasted(s) == e,
        e.fits(s) ==> {
            let p = e.pasted(s);
            &&& p.text.subrange(p.cursor - s.len(), p.cursor as int) == s
            &&& p.selection() is None
            &&& p.text.len() == e.without_selection().text.len() + s.len()
        },
{
    if e.fits(s) {
        let p = e.pasted(s);
        assert(p.text.subrange(p.cursor - s.len(), p.cursor as int) =~= s);
    }
}

/// Typing a character and taking it back leaves the text and the caret as they
/// were with the selection gone.
pub proof fn backspace_undoes_typing(e: EditorView, ch: char)
    requires
        e.wf(),
        e.fits(seq![ch]),
        e.text.len() < usize::MAX,
    ensures
        e.typed(ch).backspaced() == (EditorView { anchor: None, ..e.without_selection() }),
{
    let t = e.without_selection();
    let u = e.typed(ch);
    assert(u.text.remove(u.cursor - 1) =~= t.text);
}

/// An edit leaves no selection behind, so the next key takes nothing that was
/// not asked for.
pub proof fn edits_leave_no_selection(e: EditorView, ch: char)
    ensures
        e.fits(seq![ch]) ==> e.typed(ch).selection() is None,
        e.backspaced().selection() is None,
        e.deleted().selection() is None,
        e.without_selection().selection() is None,
{
}

/// A character that does not fit is ignored: the text, the caret and what is
/// selected stay as they were.
pub proof fn a_full_field_ignores_typing(e: EditorView, ch: char)
    requires
        !e.fits(seq![ch]),
    ensures
        e.typed(ch).text == e.text,
        e.typed(ch).cursor == e.cursor,
        e.typed(ch).selection() == e.selection(),
{
}

/// Where what is selected begins, or the caret where nothing is: the nearer of the two
/// ends.
pub open spec fn near_end(e: EditorView) -> int {
    match e.anchor {
        Some(a) if a < e.cursor => a as int,
        _ => e.cursor as int,
    }
}

/// Where what is selected ends, or the caret where nothing is: the farther of the two
/// ends.
pub open spec fn far_end(e: EditorView) -> int {
    match e.anchor {
        Some(a) if a > e.cursor => a as int,
        _ => e.cursor as int,
    }
}

/// Whether a text is another with what stood between two places gone and something in
/// its place, every character elsewhere as it was.
pub open spec fn put_between(was: Seq<char>, from: int, to: int, with: Seq<char>, is: Seq<char>) -> bool {
    &&& is.len() == was.len() - (to - from) + with.len()
    &&& forall|i: int| 0 <= i < from ==> #[trigger] is[i] == was[i]
    &&& forall|i: int| 0 <= i < with.len() ==> #[trigger] with[i] == is[from + i]
    &&& forall|i: int| to <= i < was.len() ==> #[trigger] was[i] == is[i - to + from + with.len()]
}

/// What is typed or pasted takes the place of what is selected, or goes in at the caret,
/// which then stands behind it; nothing else of the text changes.
pub proof fn what_is_put_in_stands_at_the_caret(e: EditorView, s: Seq<char>, ch: char)
    requires
        e.wf(),
        e.text.len() + s.len() < usize::MAX,
    ensures
        e.fits(s) ==> put_between(e.text, near_end(e), far_end(e), s, e.pasted(s).text),
        e.fits(s) ==> e.pasted(s).cursor == near_end(e) + s.len(),
        e.fits(seq![ch]) ==> put_between(
            e.text,
            near_end(e),
            far_end(e),
            seq![ch],
            e.typed(ch).text,
        ),
        e.fits(seq![ch]) ==> e.typed(ch).cursor == near_end(e) + 1,
{
    put_in_place(e, s);
    put_in_place(e, seq![ch]);
}

proof fn put_in_place(e: EditorView, s: Seq<char>)
    requires
        e.wf(),
        e.text.len() + s.len() <= usize::MAX,
    ensures
        put_between(
            e.text,
            near_end(e),
            far_end(e),
            s,
            e.without_selection().inserted(s).text,
        ),
        e.without_selection().inserted(s).cursor == near_end(e) + s.len(),
{
    let (from, to) = (near_end(e), far_end(e));
    assert(e.without_selection().inserted(s).text =~= e.text.take(from) + s + e.text.skip(to));
}

/// Backspace and Delete take what is selected. Where nothing is, Backspace takes the
/// character before the caret and Delete the one after it, the caret staying between the
/// same two characters; at the ends there is none to take.
pub proof fn what_is_taken_out_stood_at_the_caret(e: EditorView)
    requires
        e.wf(),
    ensures
        near_end(e) < far_end(e) ==> {
            &&& put_between(e.text, near_end(e), far_end(e), Seq::empty(), e.backspaced().text)
            &&& put_between(e.text, near_end(e), far_end(e), Seq::empty(), e.deleted().text)
            &&& e.backspaced().cursor == near_end(e)
            &&& e.deleted().cursor == near_end(e)
        },
        near_end(e) == far_end(e) && e.cursor > 0 ==> {
            &&& put_between(e.text, e.cursor - 1, e.cursor as int, Seq::empty(), e.backspaced().text)
            &&& e.backspaced().cursor == e.cursor - 1
        },
        near_end(e) == far_end(e) && e.cursor < e.text.len() ==> {
            &&& put_between(e.text, e.cursor as int, e.cursor + 1, Seq::empty(), e.deleted().text)
            &&& e.deleted().cursor == e.cursor
        },
        near_end(e) == far_end(e) && e.cursor == 0 ==> e.backspaced().text == e.text
            && e.backspaced().cursor == 0,
        near_end(e) == far_end(e) && e.cursor == e.text.len() ==> e.deleted().text == e.text
            && e.deleted().cursor == e.cursor,
{
    let (from, to) = (near_end(e), far_end(e));
    if from < to {
        assert(e.without_selection().text =~= e.text.take(from) + e.text.skip(to));
    }
}

/// An arrow moves the caret by one and stops at the ends; one way and the other lead back.
/// With something selected it goes to the end the arrow points at. With Shift the caret
/// moves on and the other end of the selection stays.
pub proof fn arrows_step_and_stop(e: EditorView)
    requires
        e.wf(),
        e.text.len() <= usize::MAX,
    ensures
        e.gone_left(false).text == e.text,
        e.gone_right(false).text == e.text,
        e.gone_left(true).text == e.text,
        e.gone_right(true).text == e.text,
        near_end(e) < far_end(e) ==> e.gone_left(false).cursor == near_end(e)
            && e.gone_right(false).cursor == far_end(e),
        near_end(e) == far_end(e) && 0 < e.cursor ==> e.gone_left(false).cursor == e.cursor - 1
            && e.gone_left(false).gone_right(false).cursor == e.cursor,
        near_end(e) == far_end(e) && e.cursor < e.text.len() ==> e.gone_right(false).cursor
            == e.cursor + 1 && e.gone_right(false).gone_left(false).cursor == e.cursor,
        e.cursor == 0 ==> e.gone_left(true).cursor == 0,
        e.cursor == e.text.len() ==> e.gone_right(true).cursor == e.cursor,
        0 < e.cursor ==> e.gone_left(true).cursor == e.cursor - 1,
        e.cursor < e.text.len() ==> e.gone_right(true).cursor == e.cursor + 1,
        e.gone_left(false).selection() is None,
        e.gone_right(false).selection() is None,
        e.gone_left(true).anchor == Some(e.anchor.unwrap_or(e.cursor)),
        e.gone_right(true).anchor == Some(e.anchor.unwrap_or(e.cursor)),
{
}

proof fn runs_are_of_a_kind(s: Seq<char>, at: int, want: bool, i: int)
    requires
        0 <= at <= s.len(),
    ensures
        run_start(s, at, want) <= i < run_end(s, at, want) ==> is_word(s[i]) == want,
        run_start(s, at, want) > 0 ==> is_word(s[run_start(s, at, want) - 1]) != want,
        run_end(s, at, want) < s.len() ==> is_word(s[run_end(s, at, want)]) != want,
    decreases s.len(),
{
    run_goes_back(s, at, want, i);
    run_goes_on(s, at, want, i);
}

proof fn run_goes_back(s: Seq<char>, at: int, want: bool, i: int)
    requires
        0 <= at <= s.len(),
    ensures
        run_start(s, at, want) <= i < at ==> is_word(s[i]) == want,
        run_start(s, at, want) > 0 ==> is_word(s[run_start(s, at, want) - 1]) != want,
    decreases at,
{
    if 0 < at && is_word(s[at - 1]) == want {
        run_goes_back(s, at - 1, want, i);
    }
}

proof fn run_goes_on(s: Seq<char>, at: int, want: bool, i: int)
    requires
        0 <= at <= s.len(),
    ensures
        at <= i < run_end(s, at, want) ==> is_word(s[i]) == want,
        run_end(s, at, want) < s.len() ==> is_word(s[run_end(s, at, want)]) != want,
    decreases s.len() - at,
{
    if at < s.len() && is_word(s[at]) == want {
        run_goes_on(s, at + 1, want, i);
    }
}

/// A click puts the caret there and selects nothing. A second one selects the word it is
/// in, or the run of what is no word: all of one kind, and no further. A third selects
/// everything.
pub proof fn clicks_put_the_caret_or_select(e: EditorView, at: usize, i: int)
    requires
        e.wf(),
        e.text.len() <= usize::MAX,
    ensures
        at <= e.text.len() ==> e.clicked(at, 1).cursor == at,
        at > e.text.len() ==> e.clicked(at, 1).cursor == e.text.len(),
        e.clicked(at, 1).selection() is None,
        e.clicked(at, 1).text == e.text,
        at < e.text.len() ==> {
            let f = e.clicked(at, 2);
            &&& f.text == e.text
            &&& near_end(f) <= at < far_end(f) <= e.text.len()
            &&& near_end(f) <= i < far_end(f) ==> is_word(e.text[i]) == is_word(e.text[at as int])
            &&& near_end(f) > 0 ==> is_word(e.text[near_end(f) - 1]) != is_word(e.text[at as int])
            &&& far_end(f) < e.text.len() ==> is_word(e.text[far_end(f)]) != is_word(
                e.text[at as int],
            )
        },
        near_end(e.clicked(at, 3)) == 0,
        far_end(e.clicked(at, 3)) == e.text.len(),
        e.clicked(at, 3).text == e.text,
{
    if at < e.text.len() {
        let want = is_word(e.text[at as int]);
        run_bounds(e.text, at as int, want);
        run_end_bounds(e.text, at + 1, want);
        runs_are_of_a_kind(e.text, at as int, want, i);
    }
}

} // verus!
