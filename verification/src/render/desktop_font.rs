//! The desktop's configured UI font.
//!
//! The answer to "which font" is a font description, "Family Style Size", where
//! everything before a trailing number is the family. Every step is optional: a
//! desktop that configures nothing lands on a generic family.

use crate::text;
use crate::text::{chars_of, is_same_but_case, lines_of, same_text, text_of, trim, words_of};
use vstd::prelude::*;
use vstd::string::*;

verus! {

// --- Numbers --------------------------------------------------------------------------------

pub open spec fn is_digit(c: char) -> bool {
    '0' <= c <= '9'
}

/// Where the run of digits from `at` ends.
pub open spec fn digits_end(s: Seq<char>, at: int) -> int
    decreases s.len() - at,
{
    if 0 <= at < s.len() && is_digit(s[at]) {
        digits_end(s, at + 1)
    } else {
        at
    }
}

/// Behind the sign at `at`, if there is one.
pub open spec fn sign_end(s: Seq<char>, at: int) -> int {
    if 0 <= at < s.len() && (s[at] == '+' || s[at] == '-') {
        at + 1
    } else {
        at
    }
}

/// Nothing is left, or an exponent with digits and nothing more.
pub open spec fn exponent_from(s: Seq<char>, at: int) -> bool {
    at == s.len() || (0 <= at < s.len() && (s[at] == 'e' || s[at] == 'E') && {
        let from = sign_end(s, at + 1);
        from < digits_end(s, from) == s.len()
    })
}

/// Digits with at most one point among them, then perhaps an exponent.
pub open spec fn decimal_from(s: Seq<char>, at: int) -> bool {
    let point = digits_end(s, at);
    if 0 <= point < s.len() && s[point] == '.' {
        let end = digits_end(s, point + 1);
        (point > at || end > point + 1) && exponent_from(s, end)
    } else {
        point > at && exponent_from(s, point)
    }
}

/// A text that reads as a number: a sign, then a decimal or one of the names for
/// what is no number or beyond all of them.
pub open spec fn is_number(s: Seq<char>) -> bool {
    let at = sign_end(s, 0);
    let rest = s.skip(at);
    ||| text::same_but_case(rest, "inf"@)
    ||| text::same_but_case(rest, "infinity"@)
    ||| text::same_but_case(rest, "nan"@)
    ||| decimal_from(s, at)
}

fn find_digits_end(v: &Vec<char>, at: usize) -> (end: usize)
    requires
        at <= v@.len(),
    ensures
        end == digits_end(v@, at as int),
        at <= end <= v@.len(),
{
    let mut i: usize = at;
    while i < v.len() && '0' <= v[i] && v[i] <= '9'
        invariant
            at <= i <= v@.len(),
            digits_end(v@, at as int) == digits_end(v@, i as int),
        decreases v@.len() - i,
    {
        i = i + 1;
    }
    i
}

fn skip_sign(v: &Vec<char>, at: usize) -> (end: usize)
    requires
        at <= v@.len(),
    ensures
        end == sign_end(v@, at as int),
        at <= end <= v@.len(),
{
    if at < v.len() && (v[at] == '+' || v[at] == '-') {
        at + 1
    } else {
        at
    }
}

fn ends_in_exponent(v: &Vec<char>, at: usize) -> (yes: bool)
    requires
        at <= v@.len(),
    ensures
        yes == exponent_from(v@, at as int),
{
    if at == v.len() {
        return true;
    }
    if v[at] != 'e' && v[at] != 'E' {
        return false;
    }
    let from: usize = skip_sign(v, at + 1);
    let end: usize = find_digits_end(v, from);
    from < end && end == v.len()
}

fn reads_decimal(v: &Vec<char>, at: usize) -> (yes: bool)
    requires
        at <= v@.len(),
    ensures
        yes == decimal_from(v@, at as int),
{
    let point: usize = find_digits_end(v, at);
    if point < v.len() && v[point] == '.' {
        let end: usize = find_digits_end(v, point + 1);
        (point > at || end > point + 1) && ends_in_exponent(v, end)
    } else {
        point > at && ends_in_exponent(v, point)
    }
}

/// Whether a text reads as a number.
pub fn reads_as_number(s: &str) -> (yes: bool)
    ensures
        yes == is_number(s@),
{
    let v = chars_of(s);
    let at: usize = skip_sign(&v, 0);
    let rest = text_of(&v, at, v.len());
    assert(rest@ =~= s@.skip(at as int));
    is_same_but_case(rest.as_str(), "inf") || is_same_but_case(rest.as_str(), "infinity")
        || is_same_but_case(rest.as_str(), "nan") || reads_decimal(&v, at)
}

// --- Families -------------------------------------------------------------------------------

/// Words a description uses for a style rather than as part of a family.
pub open spec fn is_style(word: Seq<char>) -> bool {
    ||| text::same_but_case(word, "thin"@)
    ||| text::same_but_case(word, "ultralight"@)
    ||| text::same_but_case(word, "extralight"@)
    ||| text::same_but_case(word, "light"@)
    ||| text::same_but_case(word, "semilight"@)
    ||| text::same_but_case(word, "book"@)
    ||| text::same_but_case(word, "regular"@)
    ||| text::same_but_case(word, "medium"@)
    ||| text::same_but_case(word, "semibold"@)
    ||| text::same_but_case(word, "demibold"@)
    ||| text::same_but_case(word, "bold"@)
    ||| text::same_but_case(word, "ultrabold"@)
    ||| text::same_but_case(word, "extrabold"@)
    ||| text::same_but_case(word, "heavy"@)
    ||| text::same_but_case(word, "black"@)
    ||| text::same_but_case(word, "italic"@)
    ||| text::same_but_case(word, "oblique"@)
    ||| text::same_but_case(word, "condensed"@)
    ||| text::same_but_case(word, "expanded"@)
}

fn names_style(word: &str) -> (yes: bool)
    ensures
        yes == is_style(word@),
{
    is_same_but_case(word, "thin") || is_same_but_case(word, "ultralight") || is_same_but_case(
        word,
        "extralight",
    ) || is_same_but_case(word, "light") || is_same_but_case(word, "semilight")
        || is_same_but_case(word, "book") || is_same_but_case(word, "regular")
        || is_same_but_case(word, "medium") || is_same_but_case(word, "semibold")
        || is_same_but_case(word, "demibold") || is_same_but_case(word, "bold")
        || is_same_but_case(word, "ultrabold") || is_same_but_case(word, "extrabold")
        || is_same_but_case(word, "heavy") || is_same_but_case(word, "black")
        || is_same_but_case(word, "italic") || is_same_but_case(word, "oblique")
        || is_same_but_case(word, "condensed") || is_same_but_case(word, "expanded")
}

/// Words without the size they may end in.
pub open spec fn without_size(words: Seq<Seq<char>>) -> Seq<Seq<char>> {
    if words.len() > 0 && is_number(words.last()) {
        words.drop_last()
    } else {
        words
    }
}

/// Words without the styles they may end in.
pub open spec fn without_styles(words: Seq<Seq<char>>) -> Seq<Seq<char>>
    decreases words.len(),
{
    if words.len() > 0 && is_style(words.last()) {
        without_styles(words.drop_last())
    } else {
        words
    }
}

/// Words with a space between each two.
pub open spec fn spaced(words: Seq<Seq<char>>) -> Seq<char>
    decreases words.len(),
{
    if words.len() == 0 {
        Seq::empty()
    } else if words.len() == 1 {
        words[0]
    } else {
        spaced(words.drop_last()).push(' ') + words.last()
    }
}

/// The family a font description names: what comes before a comma, without a
/// trailing size and without the style words before that.
pub open spec fn family_of(description: Seq<char>) -> Seq<char> {
    let asked = description.take(text::until(description, ','));
    spaced(without_styles(without_size(text::words(asked))))
}

fn join_words(words: &Vec<String>, n: usize) -> (s: String)
    requires
        n <= words@.len(),
    ensures
        s@ == spaced(text::texts(words@).take(n as int)),
{
    let mut s: String = String::new();
    let ghost all = text::texts(words@);
    let mut i: usize = 0;
    assert(all.take(0) =~= Seq::<Seq<char>>::empty());
    assert(s@ =~= Seq::<char>::empty());
    while i < n
        invariant
            i <= n <= words@.len(),
            all == text::texts(words@),
            s@ == spaced(all.take(i as int)),
        decreases n - i,
    {
        assert(all.take(i + 1).drop_last() =~= all.take(i as int));
        assert(all.take(i + 1).last() == words@[i as int]@);
        if i > 0 {
            s.push(' ');
        }
        s.append(words[i].as_str());
        i = i + 1;
        assert(s@ =~= spaced(all.take(i as int)));
    }
    s
}

fn find_comma(v: &Vec<char>) -> (at: usize)
    ensures
        at == text::until(v@, ','),
        at <= v@.len(),
{
    let mut i: usize = 0;
    assert(v@.skip(0) =~= v@);
    while i < v.len() && v[i] != ','
        invariant
            i <= v@.len(),
            text::until(v@, ',') == i + text::until(v@.skip(i as int), ','),
        decreases v@.len() - i,
    {
        assert(v@.skip(i as int).drop_first() =~= v@.skip(i + 1));
        i = i + 1;
    }
    i
}

/// Take the family out of a font description.
///
/// A comma separates the family from the style and size, and may also separate
/// alternative families; the first entry is the one that was asked for. Leaving
/// the comma attached would make the name match nothing.
pub fn parse_family(description: &str) -> (family: String)
    ensures
        family@ == family_of(description@),
{
    let v = chars_of(description);
    let comma: usize = find_comma(&v);
    let asked = text_of(&v, 0, comma);
    assert(asked@ =~= description@.take(text::until(description@, ',')));
    let words = words_of(&chars_of(asked.as_str()));
    let ghost all = text::texts(words@);
    let mut n: usize = words.len();
    assert(all.take(n as int) =~= all);
    if n > 0 {
        assert(all.last() == words@[n - 1]@);
        if reads_as_number(words[n - 1].as_str()) {
            n = n - 1;
            assert(all.take(n as int) =~= all.drop_last());
        }
    }
    let ghost sized = all.take(n as int);
    assert(sized == without_size(all));
    while n > 0 && names_style(words[n - 1].as_str())
        invariant
            n <= words@.len(),
            all == text::texts(words@),
            without_styles(sized) == without_styles(all.take(n as int)),
        decreases n,
    {
        assert(all.take(n as int).last() == words@[n - 1]@);
        assert(all.take(n as int).drop_last() =~= all.take(n - 1));
        n = n - 1;
    }
    assert(n > 0 ==> all.take(n as int).last() == words@[n - 1]@);
    join_words(&words, n)
}

// --- What is configured -----------------------------------------------------------------------

/// Used when nothing configured is readable; the font lookup maps it to the
/// system's default sans face.
pub const FALLBACK_FAMILY: &'static str = "sans-serif";

/// The value of a key on a line "key = value".
pub open spec fn setting_on(line: Seq<char>, key: Seq<char>) -> Option<Seq<char>> {
    let at = text::until(line, '=');
    if at < line.len() && text::trimmed(line.take(at)) == key {
        Some(text::trimmed(line.skip(at + 1)))
    } else {
        None
    }
}

/// The value of a key on the first line from `from` on that has it.
pub open spec fn setting_in(lines: Seq<Seq<char>>, key: Seq<char>, from: int) -> Option<Seq<char>>
    decreases lines.len() - from,
{
    if from >= lines.len() {
        None
    } else {
        match setting_on(lines[from], key) {
            Some(v) => Some(v),
            None => setting_in(lines, key, from + 1),
        }
    }
}

fn read_setting(line: &str, key: &str) -> (value: Option<String>)
    ensures
        text::opt(value) == setting_on(line@, key@),
{
    let v = chars_of(line);
    let mut at: usize = 0;
    assert(v@.skip(0) =~= v@);
    while at < v.len() && v[at] != '='
        invariant
            at <= v@.len(),
            text::until(v@, '=') == at + text::until(v@.skip(at as int), '='),
        decreases v@.len() - at,
    {
        assert(v@.skip(at as int).drop_first() =~= v@.skip(at + 1));
        at = at + 1;
    }
    if at == v.len() {
        return None;
    }
    let name = text_of(&v, 0, at);
    assert(name@ =~= line@.take(at as int));
    if !same_text(trim(name.as_str()).as_str(), key) {
        return None;
    }
    let value = text_of(&v, at + 1, v.len());
    assert(value@ =~= line@.skip(at + 1));
    Some(trim(value.as_str()))
}

/// Read one key from the text of a settings file.
pub fn gtk_setting(text: &str, key: &str) -> (value: Option<String>)
    ensures
        text::opt(value) == setting_in(text::lines(text@), key@, 0),
{
    let lines = lines_of(text);
    let ghost all = text::lines(text@);
    let mut i: usize = 0;
    while i < lines.len()
        invariant
            i <= lines@.len(),
            all == text::texts(lines@),
            all == text::lines(text@),
            setting_in(all, key@, 0) == setting_in(all, key@, i as int),
        decreases lines@.len() - i,
    {
        assert(all[i as int] == lines@[i as int]@);
        if let Some(v) = read_setting(lines[i].as_str(), key) {
            return Some(v);
        }
        i = i + 1;
    }
    None
}

/// The family of the desktop's description, if it names one.
pub open spec fn family_from(configured: Option<Seq<char>>) -> Seq<char> {
    match configured {
        Some(description) => if family_of(description).len() > 0 {
            family_of(description)
        } else {
            FALLBACK_FAMILY@
        },
        None => FALLBACK_FAMILY@,
    }
}

/// The configured UI font family, or [`FALLBACK_FAMILY`]: from the desktop
/// portal's answer, else from the settings file's text.
pub fn family(portal: Option<&str>, settings: Option<&str>) -> (family: String)
    ensures
        family@ == family_from(
            match portal {
                Some(s) => Some(s@),
                None => match settings {
                    Some(t) => setting_in(text::lines(t@), "gtk-font-name"@, 0),
                    None => None,
                },
            },
        ),
{
    let named: Option<String> = match portal {
        Some(s) => Some(parse_family(s)),
        None => match settings {
            Some(t) => match gtk_setting(t, "gtk-font-name") {
                Some(d) => Some(parse_family(d.as_str())),
                None => None,
            },
            None => None,
        },
    };
    if let Some(f) = named {
        if chars_of(f.as_str()).len() > 0 {
            return f;
        }
    }
    FALLBACK_FAMILY.to_owned()
}

/// A family is never empty, so loading a font has no case of none.
pub proof fn a_family_is_always_named(configured: Option<Seq<char>>)
    ensures
        family_from(configured).len() > 0,
{
    reveal_strlit("sans-serif");
}

} // verus!
