//! Text as characters: comparing, building and spelling out numbers.

use vstd::prelude::*;
use vstd::string::*;
use vstd::utf8::*;

verus! {

/// `String::push` puts the character behind those already there.
pub assume_specification[ String::push ](s: &mut String, c: char)
    ensures
        final(s)@ == old(s)@.push(c),
;

/// The decimal digit for a number below ten.
pub open spec fn digit_char(d: nat) -> char {
    (48 + d) as char
}

/// A number in decimal, without leading zeros.
pub open spec fn decimal(n: nat) -> Seq<char>
    decreases n,
{
    if n < 10 {
        seq![digit_char(n)]
    } else {
        decimal(n / 10).push(digit_char(n % 10))
    }
}

/// The characters of a text.
pub fn chars_of(s: &str) -> (v: Vec<char>)
    ensures
        v@ == s@,
{
    let mut v: Vec<char> = Vec::new();
    for c in it: s.chars()
        invariant
            v@ == it.seq().take(it.index() as int),
            it.seq() == s@,
    {
        v.push(c);
    }
    v
}

/// The text with the given characters, those from `from` up to `to`.
pub fn text_of(v: &Vec<char>, from: usize, to: usize) -> (s: String)
    requires
        from <= to <= v@.len(),
    ensures
        s@ == v@.subrange(from as int, to as int),
{
    let mut s: String = String::new();
    let mut i: usize = from;
    while i < to
        invariant
            from <= i <= to <= v@.len(),
            s@ == v@.subrange(from as int, i as int),
        decreases to - i,
    {
        s.push(v[i]);
        i = i + 1;
        assert(s@ =~= v@.subrange(from as int, i as int));
    }
    s
}

/// Whether two texts have the same characters.
pub fn same_text(a: &str, b: &str) -> (same: bool)
    ensures
        same == (a@ == b@),
{
    let x = chars_of(a);
    let y = chars_of(b);
    if x.len() != y.len() {
        return false;
    }
    let mut i: usize = 0;
    while i < x.len()
        invariant
            i <= x@.len() == y@.len(),
            x@ == a@,
            y@ == b@,
            forall|k: int| 0 <= k < i ==> x@[k] == y@[k],
        decreases x@.len() - i,
    {
        if x[i] != y[i] {
            return false;
        }
        i = i + 1;
    }
    assert(x@ =~= y@);
    true
}

/// A digit below ten, as its character.
fn digit(d: u64) -> (c: char)
    requires
        d < 10,
    ensures
        c == digit_char(d as nat),
{
    (48u8 + d as u8) as char
}

/// Spell out a number in decimal.
pub fn decimal_text(n: u64) -> (s: String)
    ensures
        s@ == decimal(n as nat),
{
    let mut digits: Vec<char> = Vec::new();
    let mut rest: u64 = n;
    while rest >= 10
        invariant
            decimal(n as nat) == decimal(rest as nat) + digits@.reverse(),
        decreases rest,
    {
        let ghost before = digits@;
        digits.push(digit(rest % 10));
        proof {
            let d = digit_char((rest % 10) as nat);
            assert(before.push(d).reverse() =~= seq![d] + before.reverse());
            assert(decimal((rest / 10) as nat) + digits@.reverse() =~= decimal(rest as nat)
                + before.reverse());
        }
        rest = rest / 10;
    }
    let mut s: String = String::new();
    s.push(digit(rest));
    let mut i: usize = digits.len();
    assert(s@ =~= decimal(rest as nat));
    assert(s@ + digits@.subrange(0, i as int).reverse() =~= decimal(n as nat)) by {
        assert(digits@.subrange(0, i as int) =~= digits@);
    }
    while i > 0
        invariant
            i <= digits@.len(),
            s@ + digits@.subrange(0, i as int).reverse() == decimal(n as nat),
        decreases i,
    {
        i = i - 1;
        let ghost before = s@;
        s.push(digits[i]);
        assert(s@ + digits@.subrange(0, i as int).reverse() =~= before + digits@.subrange(
            0,
            i + 1,
        ).reverse());
    }
    assert(s@ + digits@.subrange(0, 0).reverse() =~= s@);
    s
}

// --- Texts that may be absent --------------------------------------------------

/// The characters of a text that may be absent.
pub open spec fn opt(s: Option<String>) -> Option<Seq<char>> {
    match s {
        Some(t) => Some(t@),
        None => None,
    }
}

/// A copy of a text that may be absent.
pub fn clone_opt(s: &Option<String>) -> (r: Option<String>)
    ensures
        opt(r) == opt(*s),
{
    match s {
        Some(t) => Some(t.clone()),
        None => None,
    }
}

/// Whether a text is there and reads `want`.
pub fn opt_is(s: &Option<String>, want: &str) -> (same: bool)
    ensures
        same == (opt(*s) == Some(want@)),
{
    match s {
        Some(t) => same_text(t.as_str(), want),
        None => false,
    }
}

/// Whether two texts are both absent or read the same.
pub fn same_opt(a: &Option<String>, b: &Option<String>) -> (same: bool)
    ensures
        same == (opt(*a) == opt(*b)),
{
    match (a, b) {
        (Some(x), Some(y)) => same_text(x.as_str(), y.as_str()),
        (None, None) => true,
        _ => false,
    }
}

// --- The order of texts ----------------------------------------------------------

/// Whether `a` comes before `b`, character by character.
pub open spec fn text_before(a: Seq<char>, b: Seq<char>) -> bool
    decreases a.len(),
{
    if b.len() == 0 {
        false
    } else if a.len() == 0 {
        true
    } else if a[0] != b[0] {
        a[0] < b[0]
    } else {
        text_before(a.drop_first(), b.drop_first())
    }
}

pub proof fn text_before_irreflexive(a: Seq<char>)
    ensures
        !text_before(a, a),
    decreases a.len(),
{
    if a.len() > 0 {
        text_before_irreflexive(a.drop_first());
    }
}

pub proof fn text_before_transitive(a: Seq<char>, b: Seq<char>, c: Seq<char>)
    requires
        text_before(a, b),
        text_before(b, c),
    ensures
        text_before(a, c),
    decreases a.len(),
{
    if a.len() > 0 && a[0] == b[0] && b[0] == c[0] {
        text_before_transitive(a.drop_first(), b.drop_first(), c.drop_first());
    }
}

pub proof fn text_before_total(a: Seq<char>, b: Seq<char>)
    ensures
        a == b || text_before(a, b) || text_before(b, a),
    decreases a.len(),
{
    if a.len() > 0 && b.len() > 0 && a[0] == b[0] {
        text_before_total(a.drop_first(), b.drop_first());
        if a.drop_first() == b.drop_first() {
            assert(a =~= seq![a[0]] + a.drop_first());
            assert(b =~= seq![b[0]] + b.drop_first());
        }
    } else if a.len() == 0 && b.len() == 0 {
        assert(a =~= b);
    }
}

/// Whether `a` comes before `b`, character by character.
pub fn is_before(a: &str, b: &str) -> (before: bool)
    ensures
        before == text_before(a@, b@),
{
    let x = chars_of(a);
    let y = chars_of(b);
    let mut i: usize = 0;
    assert(x@.subrange(0, x@.len() as int) =~= x@);
    assert(y@.subrange(0, y@.len() as int) =~= y@);
    while i < x.len() && i < y.len()
        invariant
            i <= x@.len(),
            i <= y@.len(),
            x@ == a@,
            y@ == b@,
            text_before(a@, b@) == text_before(
                x@.subrange(i as int, x@.len() as int),
                y@.subrange(i as int, y@.len() as int),
            ),
        decreases x@.len() - i,
    {
        let ghost u = x@.subrange(i as int, x@.len() as int);
        let ghost v = y@.subrange(i as int, y@.len() as int);
        if x[i] != y[i] {
            return x[i] < y[i];
        }
        assert(u.drop_first() =~= x@.subrange(i + 1, x@.len() as int));
        assert(v.drop_first() =~= y@.subrange(i + 1, y@.len() as int));
        i = i + 1;
    }
    i < y.len()
}

// --- Kinds of character ------------------------------------------------------------

/// Whether a character has Unicode's White_Space property: tabs and line ends, the
/// spaces, and the two separators.
pub open spec fn is_white(c: char) -> bool {
    let n = c as u32;
    ||| 0x9 <= n <= 0xd
    ||| n == 0x20
    ||| n == 0x85
    ||| n == 0xa0
    ||| n == 0x1680
    ||| 0x2000 <= n <= 0x200a
    ||| n == 0x2028
    ||| n == 0x2029
    ||| n == 0x202f
    ||| n == 0x205f
    ||| n == 0x3000
}

/// `char::is_whitespace`: whether the character has the White_Space property, as
/// the Unicode Character Database lists it.
pub assume_specification[ char::is_whitespace ](c: char) -> (white: bool)
    ensures
        white == is_white(c),
;

/// Whether `char::is_alphanumeric` holds of a character.
pub uninterp spec fn is_alnum(c: char) -> bool;

/// `char::is_alphanumeric`: whether the character is a letter or a number,
/// which depends on the character alone.
pub assume_specification[ char::is_alphanumeric ](c: char) -> (alnum: bool)
    ensures
        alnum == is_alnum(c),
;

/// How many characters of whitespace a text begins with.
pub open spec fn leading_white(s: Seq<char>) -> int
    decreases s.len(),
{
    if s.len() == 0 || !is_white(s[0]) {
        0
    } else {
        1 + leading_white(s.drop_first())
    }
}

/// How many characters remain once the whitespace a text ends with is dropped.
pub open spec fn trailing_end(s: Seq<char>) -> int
    decreases s.len(),
{
    if s.len() == 0 || !is_white(s.last()) {
        s.len() as int
    } else {
        trailing_end(s.drop_last())
    }
}

/// A text without the whitespace around it.
pub open spec fn trimmed(s: Seq<char>) -> Seq<char> {
    let rest = s.subrange(leading_white(s), s.len() as int);
    rest.subrange(0, trailing_end(rest))
}

/// A text without the whitespace around it.
pub fn trim(s: &str) -> (out: String)
    ensures
        out@ == trimmed(s@),
{
    let v = chars_of(s);
    let mut from: usize = 0;
    assert(v@.subrange(0, v@.len() as int) =~= v@);
    while from < v.len() && v[from].is_whitespace()
        invariant
            from <= v@.len(),
            leading_white(v@) == from + leading_white(v@.subrange(from as int, v@.len() as int)),
        decreases v@.len() - from,
    {
        assert(v@.subrange(from as int, v@.len() as int).drop_first() =~= v@.subrange(
            from + 1,
            v@.len() as int,
        ));
        from = from + 1;
    }
    let ghost rest = v@.subrange(from as int, v@.len() as int);
    assert(leading_white(v@) == from);
    let mut to: usize = v.len();
    assert(rest.subrange(0, to - from) =~= rest);
    while to > from && v[to - 1].is_whitespace()
        invariant
            from <= to <= v@.len(),
            rest == v@.subrange(from as int, v@.len() as int),
            trailing_end(rest) == trailing_end(rest.subrange(0, to - from)),
        decreases to - from,
    {
        assert(rest.subrange(0, to - from).drop_last() =~= rest.subrange(0, to - 1 - from));
        to = to - 1;
    }
    proof {
        let left = rest.subrange(0, to - from);
        assert(trailing_end(left) == to - from);
        assert(v@.subrange(from as int, to as int) =~= left);
    }
    text_of(&v, from, to)
}

/// Where a character of whitespace first stands, or the text's length.
pub open spec fn first_white(s: Seq<char>) -> int
    decreases s.len(),
{
    if s.len() == 0 || is_white(s[0]) {
        0
    } else {
        1 + first_white(s.drop_first())
    }
}

/// Where whitespace first stands among characters, or how many there are.
pub fn find_white(v: &Vec<char>) -> (at: usize)
    ensures
        at == first_white(v@),
        at <= v@.len(),
{
    let mut i: usize = 0;
    assert(v@.subrange(0, v@.len() as int) =~= v@);
    while i < v.len() && !v[i].is_whitespace()
        invariant
            i <= v@.len(),
            first_white(v@) == i + first_white(v@.subrange(i as int, v@.len() as int)),
        decreases v@.len() - i,
    {
        assert(v@.subrange(i as int, v@.len() as int).drop_first() =~= v@.subrange(
            i + 1,
            v@.len() as int,
        ));
        i = i + 1;
    }
    i
}

pub proof fn first_white_bounds(s: Seq<char>)
    ensures
        0 <= first_white(s) <= s.len(),
    decreases s.len(),
{
    if s.len() > 0 && !is_white(s[0]) {
        first_white_bounds(s.drop_first());
    }
}

/// The words of a text: what whitespace leaves between it.
pub open spec fn words(s: Seq<char>) -> Seq<Seq<char>>
    decreases s.len(),
{
    if s.len() == 0 {
        Seq::empty()
    } else if is_white(s[0]) {
        words(s.drop_first())
    } else {
        let end = first_white(s);
        proof {
            first_white_bounds(s);
            first_white_bounds(s.drop_first());
        }
        seq![s.take(end)] + words(s.skip(end))
    }
}

/// The words of a text.
pub fn words_of(v: &Vec<char>) -> (out: Vec<String>)
    ensures
        texts(out@) == words(v@),
{
    let mut out: Vec<String> = Vec::new();
    let mut at: usize = 0;
    assert(v@.skip(0) =~= v@);
    assert(texts(out@) + words(v@) =~= words(v@));
    while at < v.len()
        invariant
            at <= v@.len(),
            texts(out@) + words(v@.skip(at as int)) == words(v@),
        decreases v@.len() - at,
    {
        let ghost rest = v@.skip(at as int);
        let ghost before = texts(out@);
        if v[at].is_whitespace() {
            assert(rest.drop_first() =~= v@.skip(at + 1));
            at = at + 1;
        } else {
            let mut end: usize = at;
            while end < v.len() && !v[end].is_whitespace()
                invariant
                    at <= end <= v@.len(),
                    rest == v@.skip(at as int),
                    first_white(rest) == end - at + first_white(v@.skip(end as int)),
                decreases v@.len() - end,
            {
                assert(v@.skip(end as int).drop_first() =~= v@.skip(end + 1));
                end = end + 1;
            }
            assert(at < end);
            let word = text_of(v, at, end);
            assert(word@ =~= rest.take(end - at));
            assert(rest.skip(end - at) =~= v@.skip(end as int));
            let ghost text = word@;
            out.push(word);
            proof {
                assert(texts(out@) =~= before.push(text));
                let tail = words(v@.skip(end as int));
                assert(before.push(text) + tail =~= before + (seq![text] + tail));
            }
            at = end;
        }
    }
    assert(texts(out@) + words(v@.skip(at as int)) =~= texts(out@));
    out
}

/// An ASCII capital as its small letter, anything else as it is.
pub open spec fn lowered(c: char) -> char {
    if 'A' <= c <= 'Z' {
        (c as u32 + 32) as char
    } else {
        c
    }
}

/// Two texts are the same but for the case of ASCII letters.
pub open spec fn same_but_case(a: Seq<char>, b: Seq<char>) -> bool {
    a.len() == b.len() && forall|i: int|
        0 <= i < a.len() ==> lowered(#[trigger] a[i]) == lowered(b[i])
}

fn same_letter(a: char, b: char) -> (same: bool)
    ensures
        same == (lowered(a) == lowered(b)),
{
    let x: u32 = if 'A' <= a && a <= 'Z' {
        a as u32 + 32
    } else {
        a as u32
    };
    let y: u32 = if 'A' <= b && b <= 'Z' {
        b as u32 + 32
    } else {
        b as u32
    };
    x == y
}

/// Whether two texts are the same but for the case of ASCII letters.
pub fn is_same_but_case(a: &str, b: &str) -> (same: bool)
    ensures
        same == same_but_case(a@, b@),
{
    let x = chars_of(a);
    let y = chars_of(b);
    if x.len() != y.len() {
        return false;
    }
    let mut i: usize = 0;
    while i < x.len()
        invariant
            x@ == a@,
            y@ == b@,
            x@.len() == y@.len(),
            i <= x@.len(),
            forall|k: int| 0 <= k < i ==> lowered(#[trigger] a@[k]) == lowered(b@[k]),
        decreases x@.len() - i,
    {
        if !same_letter(x[i], y[i]) {
            assert(lowered(a@[i as int]) != lowered(b@[i as int]));
            return false;
        }
        i = i + 1;
    }
    true
}

// --- Lines -----------------------------------------------------------------------------

/// Where a character first stands, or the text's length.
pub open spec fn until(s: Seq<char>, c: char) -> int
    decreases s.len(),
{
    if s.len() == 0 || s[0] == c {
        0
    } else {
        1 + until(s.drop_first(), c)
    }
}

pub proof fn until_bounds(s: Seq<char>, c: char)
    ensures
        0 <= until(s, c) <= s.len(),
    decreases s.len(),
{
    if s.len() > 0 && s[0] != c {
        until_bounds(s.drop_first(), c);
    }
}

/// A line without the carriage return it may end in.
pub open spec fn chomped(line: Seq<char>) -> Seq<char> {
    if line.len() > 0 && line.last() == '\r' {
        line.drop_last()
    } else {
        line
    }
}

/// The lines of a text: ended by a newline or a carriage return and a newline,
/// the last one perhaps by neither.
pub open spec fn lines(s: Seq<char>) -> Seq<Seq<char>>
    decreases s.len(),
{
    let end = until(s, '\n');
    if s.len() == 0 {
        Seq::empty()
    } else if end >= s.len() {
        seq![s]
    } else {
        proof {
            until_bounds(s, '\n');
        }
        seq![chomped(s.subrange(0, end))] + lines(s.subrange(end + 1, s.len() as int))
    }
}

/// The characters of each of some texts.
pub open spec fn texts(v: Seq<String>) -> Seq<Seq<char>> {
    Seq::new(v.len(), |i: int| v[i]@)
}

/// The lines of a text.
pub fn lines_of(s: &str) -> (out: Vec<String>)
    ensures
        texts(out@) == lines(s@),
{
    let v = chars_of(s);
    let mut out: Vec<String> = Vec::new();
    let mut start: usize = 0;
    assert(v@.subrange(0, v@.len() as int) =~= v@);
    assert(texts(out@) + lines(v@) =~= lines(v@));
    while start < v.len()
        invariant
            start <= v@.len(),
            v@ == s@,
            texts(out@) + lines(v@.subrange(start as int, v@.len() as int)) == lines(s@),
        decreases v@.len() - start,
    {
        let ghost rest = v@.subrange(start as int, v@.len() as int);
        let ghost before = texts(out@);
        let mut end: usize = start;
        assert(v@.subrange(end as int, v@.len() as int) =~= rest);
        while end < v.len() && v[end] != '\n'
            invariant
                start <= end <= v@.len(),
                rest == v@.subrange(start as int, v@.len() as int),
                until(rest, '\n') == end - start + until(
                    v@.subrange(end as int, v@.len() as int),
                    '\n',
                ),
            decreases v@.len() - end,
        {
            assert(v@.subrange(end as int, v@.len() as int).drop_first() =~= v@.subrange(
                end + 1,
                v@.len() as int,
            ));
            end = end + 1;
        }
        assert(until(rest, '\n') == end - start);
        if end == v.len() {
            let last = text_of(&v, start, end);
            assert(last@ =~= rest);
            out.push(last);
            assert(texts(out@) =~= before + seq![rest]);
            return out;
        }
        let cut: usize = if end > start && v[end - 1] == '\r' {
            end - 1
        } else {
            end
        };
        let line = text_of(&v, start, cut);
        proof {
            let whole = rest.subrange(0, end - start);
            assert(v@.subrange(start as int, cut as int) =~= chomped(whole));
            assert(rest.subrange(end - start + 1, rest.len() as int) =~= v@.subrange(
                end + 1,
                v@.len() as int,
            ));
        }
        let ghost text = line@;
        out.push(line);
        proof {
            assert(texts(out@) =~= before.push(text));
            let tail = lines(v@.subrange(end + 1, v@.len() as int));
            assert(before.push(text) + tail =~= before + (seq![text] + tail));
        }
        start = end + 1;
    }
    assert(texts(out@) + lines(v@.subrange(start as int, v@.len() as int)) =~= texts(out@));
    out
}

// --- Sizes -------------------------------------------------------------------------------

/// Bytes a text takes.
pub open spec fn size(s: Seq<char>) -> nat {
    encode_utf8(s).len()
}

/// Texts one behind the other take as many bytes as both.
pub proof fn size_of_both(a: Seq<char>, b: Seq<char>)
    ensures
        size(a + b) == size(a) + size(b),
    decreases a.len(),
{
    if a.len() == 0 {
        assert(a + b =~= b);
    } else {
        assert((a + b).drop_first() =~= a.drop_first() + b);
        size_of_both(a.drop_first(), b);
    }
}

/// Bytes a text takes.
pub fn byte_len(s: &str) -> (n: usize)
    ensures
        n == size(s@),
{
    s.as_bytes().len()
}

/// Bytes a character takes.
pub fn char_size(c: char) -> (n: usize)
    ensures
        n == size(seq![c]),
{
    let mut s: String = String::new();
    s.push(c);
    assert(s@ =~= seq![c]);
    byte_len(s.as_str())
}

} // verus!
