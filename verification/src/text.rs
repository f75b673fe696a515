//! Text helpers: decimal numbers, separators, white space and searching.
//!
//! Text that is taken apart is held as characters (`&[char]`); text that is
//! shown or stored is a `String`.

use vstd::prelude::*;

verus! {

/// Appends one character to a `String`: `String::push`.
pub assume_specification[ String::push ](s: &mut String, ch: char)
    ensures
        final(s)@ == old(s)@.push(ch),
;

/// Whether a text consists of ASCII characters only.
pub open spec fn all_ascii(text: Seq<char>) -> bool {
    forall|i: int| 0 <= i < text.len() ==> (#[trigger] text[i] as u32) < 0x80
}

/// The lower-case form of an ASCII character.
pub open spec fn ascii_lowercase(ch: char) -> char {
    if 'A' <= ch <= 'Z' {
        (ch as u32 + 32) as char
    } else {
        ch
    }
}

/// The lower-case form of a text under `str::to_lowercase`.
pub uninterp spec fn unicode_lowercase(text: Seq<char>) -> Seq<char>;

/// The lower-case form of a text: letter by letter in ASCII, otherwise as the Unicode
/// tables say.
pub open spec fn lowercase(text: Seq<char>) -> Seq<char> {
    if all_ascii(text) {
        text.map_values(|ch: char| ascii_lowercase(ch))
    } else {
        unicode_lowercase(text)
    }
}

/// Calls `str::to_lowercase`, the Unicode lower-case mapping of a whole text. In ASCII,
/// `A` to `Z` become `a` to `z` and all else stays; of other texts it is only claimed that
/// the result depends on the text alone.
#[verifier::external_body]
pub(crate) fn to_lowercase(text: &str) -> (r: String)
    ensures
        r@ == unicode_lowercase(text@),
        all_ascii(text@) ==> r@ == text@.map_values(|ch: char| ascii_lowercase(ch)),
{
    text.to_lowercase()
}

/// Whether a character is alphanumeric under `char::is_alphanumeric`.
pub uninterp spec fn unicode_alphanumeric(ch: char) -> bool;

/// Whether a character is a letter or a digit: in ASCII one of `A` to `Z`, `a` to `z` and
/// `0` to `9`, otherwise as the Unicode tables say.
pub open spec fn alphanumeric(ch: char) -> bool {
    if (ch as u32) < 0x80 {
        'A' <= ch <= 'Z' || 'a' <= ch <= 'z' || '0' <= ch <= '9'
    } else {
        unicode_alphanumeric(ch)
    }
}

/// Calls `char::is_alphanumeric`, the Unicode properties Alphabetic and Numeric. In ASCII
/// these are the letters and the digits; of other characters it is only claimed that the
/// result depends on the character alone.
#[verifier::external_body]
pub(crate) fn is_alphanumeric(ch: char) -> (r: bool)
    ensures
        r == unicode_alphanumeric(ch),
        (ch as u32) < 0x80 ==> r == ('A' <= ch <= 'Z' || 'a' <= ch <= 'z' || '0' <= ch <= '9'),
{
    ch.is_alphanumeric()
}

/// The characters with the Unicode property White_Space.
pub open spec fn white_space(ch: char) -> bool {
    ||| 0x09 <= ch as u32 <= 0x0d
    ||| ch as u32 == 0x20
    ||| ch as u32 == 0x85
    ||| ch as u32 == 0xa0
    ||| ch as u32 == 0x1680
    ||| 0x2000 <= ch as u32 <= 0x200a
    ||| 0x2028 <= ch as u32 <= 0x2029
    ||| ch as u32 == 0x202f
    ||| ch as u32 == 0x205f
    ||| ch as u32 == 0x3000
}

/// Whether `ch` is white space.
pub fn is_white_space(ch: char) -> (r: bool)
    ensures
        r == white_space(ch),
{
    let c: u32 = ch as u32;
    (0x09 <= c && c <= 0x0d) || c == 0x20 || c == 0x85 || c == 0xa0 || c == 0x1680 || (0x2000 <= c
        && c <= 0x200a) || (0x2028 <= c && c <= 0x2029) || c == 0x202f || c == 0x205f || c
        == 0x3000
}

/// The control characters, Unicode category Cc.
pub open spec fn control(ch: char) -> bool {
    ch as u32 <= 0x1f || 0x7f <= ch as u32 <= 0x9f
}

/// Whether `ch` is a control character.
pub fn is_control(ch: char) -> (r: bool)
    ensures
        r == control(ch),
{
    let c: u32 = ch as u32;
    c <= 0x1f || (0x7f <= c && c <= 0x9f)
}

/// The characters of a text.
pub fn chars_of(text: &str) -> (r: Vec<char>)
    ensures
        r@ == text@,
{
    let mut out: Vec<char> = Vec::new();
    for ch in it: text.chars()
        invariant
            out@ =~= it.seq().take(it.index() as int),
            it.seq() == text@,
    {
        out.push(ch);
    }
    assert(text@.take(text@.len() as int) =~= text@);
    out
}

/// The text made of some characters.
pub fn string_of(chars: &[char]) -> (r: String)
    ensures
        r@ == chars@,
{
    let mut out: String = String::new();
    push_chars(&mut out, chars);
    out
}

/// Appends characters to `out`.
pub fn push_chars(out: &mut String, chars: &[char])
    ensures
        final(out)@ == old(out)@ + chars@,
{
    let ghost before = out@;
    let mut i: usize = 0;
    while i < chars.len()
        invariant
            i <= chars@.len(),
            out@ =~= before + chars@.take(i as int),
        decreases chars@.len() - i,
    {
        out.push(chars[i]);
        i += 1;
    }
    assert(chars@.take(i as int) =~= chars@);
}

/// `n` repetitions of a character.
pub open spec fn repeated(ch: char, n: nat) -> Seq<char> {
    Seq::new(n, |i: int| ch)
}

/// Cuts a text to `width` characters or fills it up with blanks.
pub open spec fn fitted(text: Seq<char>, width: nat) -> Seq<char> {
    if text.len() >= width {
        text.take(width as int)
    } else {
        text + repeated(' ', (width - text.len()) as nat)
    }
}

/// Cuts a text to `width` characters, or fills it up with blanks.
pub fn fit_text(text: &str, width: usize) -> (r: String)
    ensures
        r@ == fitted(text@, width as nat),
{
    let chars: Vec<char> = chars_of(text);
    let mut out: String = String::new();
    let mut i: usize = 0;
    while i < width
        invariant
            i <= width,
            chars@ == text@,
            out@.len() == i,
            forall|k: int| 0 <= k < i ==> out@[k] == (if k < chars@.len() { chars@[k] } else { ' ' }),
        decreases width - i,
    {
        if i < chars.len() {
            out.push(chars[i]);
        } else {
            out.push(' ');
        }
        i += 1;
    }
    assert(out@ =~= fitted(text@, width as nat));
    out
}

// Decimal numbers
// ---------------

/// The digit character of a number below ten.
pub open spec fn digit_char(d: nat) -> char {
    ('0' as nat + d) as char
}

/// Whether `ch` is one of the ten decimal digits.
pub open spec fn is_digit(ch: char) -> bool {
    '0' <= ch <= '9'
}

/// The number that a digit character stands for.
pub open spec fn digit_value(ch: char) -> nat {
    (ch as nat - '0' as nat) as nat
}

/// The decimal notation of `n`, without leading zeros.
pub open spec fn decimal(n: nat) -> Seq<char>
    decreases n,
{
    if n < 10 {
        seq![digit_char(n)]
    } else {
        decimal(n / 10).push(digit_char(n % 10))
    }
}

/// Appends the decimal notation of `n` to `out`.
pub fn push_decimal(out: &mut String, n: u64)
    ensures
        final(out)@ == old(out)@ + decimal(n as nat),
    decreases n,
{
    if n >= 10 {
        push_decimal(out, n / 10);
    }
    let d: u8 = (n % 10) as u8;
    let ch: char = (48 + d) as char;
    out.push(ch);
    proof {
        assert(digit_char(n as nat % 10) == ch);
    }
}

/// The number that a run of digits stands for.
pub open spec fn digits_value(digits: Seq<char>) -> nat
    decreases digits.len(),
{
    if digits.len() == 0 {
        0
    } else {
        10 * digits_value(digits.drop_last()) + digit_value(digits.last())
    }
}

/// A text without its leading plus sign, if it has one.
pub open spec fn without_plus(text: Seq<char>) -> Seq<char> {
    if text.len() > 0 && text[0] == '+' {
        text.skip(1)
    } else {
        text
    }
}

/// Whether a text consists of digits only, and of at least one.
pub open spec fn all_digits(text: Seq<char>) -> bool {
    text.len() > 0 && forall|i: int| 0 <= i < text.len() ==> is_digit(#[trigger] text[i])
}

/// Reads an unsigned number: an optional plus sign, then digits only, with a value of
/// at most `max`.
pub open spec fn unsigned_value(text: Seq<char>, max: nat) -> Option<nat> {
    let digits = without_plus(text);
    if all_digits(digits) && digits_value(digits) <= max {
        Some(digits_value(digits))
    } else {
        None
    }
}

proof fn lemma_digits_value_grows(digits: Seq<char>, k: int)
    requires
        0 <= k <= digits.len(),
    ensures
        digits_value(digits.take(k)) <= digits_value(digits),
    decreases digits.len() - k,
{
    if k < digits.len() {
        lemma_digits_value_grows(digits, k + 1);
        assert(digits.take(k + 1).drop_last() =~= digits.take(k));
    } else {
        assert(digits.take(k) =~= digits);
    }
}

/// Reads an unsigned number of at most `max`.
pub fn parse_unsigned(text: &[char], max: u64) -> (r: Option<u64>)
    ensures
        match r {
            Some(n) => unsigned_value(text@, max as nat) == Some(n as nat),
            None => unsigned_value(text@, max as nat) is None,
        },
{
    let mut i: usize = 0;
    if text.len() > 0 && text[0] == '+' {
        i = 1;
    }
    let start: usize = i;
    let ghost digits = without_plus(text@);
    assert(digits =~= text@.skip(start as int));
    if start == text.len() {
        return None;
    }
    let mut acc: u64 = 0;
    while i < text.len()
        invariant
            start <= i <= text@.len(),
            start < text@.len(),
            digits == text@.skip(start as int),
            digits == without_plus(text@),
            acc <= max,
            forall|k: int| 0 <= k < i - start ==> is_digit(#[trigger] digits[k]),
            acc == digits_value(digits.take(i - start)),
        decreases text@.len() - i,
    {
        let ch: char = text[i];
        assert(digits[i - start] == ch);
        if ch < '0' || ch > '9' {
            assert(!is_digit(digits[i - start]));
            return None;
        }
        let d: u64 = (ch as u64) - 48;
        proof {
            assert(digits.take(i - start + 1).drop_last() =~= digits.take(i - start));
            lemma_digits_value_grows(digits, i - start + 1);
        }
        if d > max || acc > (max - d) / 10 {
            return None;
        }
        acc = acc * 10 + d;
        i += 1;
    }
    assert(digits.take(i - start) =~= digits);
    Some(acc)
}

pub(crate) proof fn lemma_decimal_digits(n: nat)
    ensures
        all_digits(decimal(n)),
        digits_value(decimal(n)) == n,
        decimal(n)[0] != '+',
    decreases n,
{
    if n < 10 {
        assert(decimal(n).drop_last() =~= Seq::<char>::empty());
        assert(digits_value(Seq::<char>::empty()) == 0);
        assert(digits_value(decimal(n)) == 10 * digits_value(decimal(n).drop_last())
            + digit_value(decimal(n).last()));
    } else {
        lemma_decimal_digits(n / 10);
        assert(decimal(n).drop_last() =~= decimal(n / 10));
        assert(digits_value(decimal(n)) == 10 * digits_value(decimal(n).drop_last())
            + digit_value(decimal(n).last()));
        assert(decimal(n)[0] == decimal(n / 10)[0]);
    }
}

/// Reading back a written number gives that number.
pub proof fn decimal_reads_back(n: nat, max: nat)
    requires
        n <= max,
    ensures
        unsigned_value(decimal(n), max) == Some(n),
{
    lemma_decimal_digits(n);
    assert(without_plus(decimal(n)) == decimal(n));
}

// Separators
// ----------

/// The parts of a text between occurrences of `sep`; a text without any is one part.
pub open spec fn split(text: Seq<char>, sep: char) -> Seq<Seq<char>>
    decreases text.len(),
{
    if text.len() == 0 {
        seq![Seq::empty()]
    } else {
        let parts = split(text.drop_last(), sep);
        if text.last() == sep {
            parts.push(Seq::empty())
        } else {
            parts.drop_last().push(parts.last().push(text.last()))
        }
    }
}

/// There is always a first part.
pub proof fn lemma_split_not_empty(text: Seq<char>, sep: char)
    ensures
        split(text, sep).len() > 0,
    decreases text.len(),
{
    if text.len() > 0 {
        lemma_split_not_empty(text.drop_last(), sep);
    }
}

/// The views of some texts.
pub open spec fn texts(parts: Seq<Vec<char>>) -> Seq<Seq<char>> {
    Seq::new(parts.len(), |i: int| parts[i]@)
}

/// Takes a text apart at each `sep`.
pub fn split_text(text: &[char], sep: char) -> (r: Vec<Vec<char>>)
    ensures
        texts(r@) == split(text@, sep),
        r@.len() > 0,
{
    let mut parts: Vec<Vec<char>> = Vec::new();
    let mut part: Vec<char> = Vec::new();
    let mut i: usize = 0;
    assert(text@.take(0) =~= Seq::<char>::empty());
    assert(texts(parts@).push(part@) =~= split(text@.take(0), sep));
    while i < text.len()
        invariant
            i <= text@.len(),
            texts(parts@).push(part@) == split(text@.take(i as int), sep),
        decreases text@.len() - i,
    {
        let ch: char = text[i];
        let ghost done = texts(parts@);
        let ghost open = part@;
        proof {
            assert(text@.take(i + 1).drop_last() =~= text@.take(i as int));
            assert(text@.take(i + 1).last() == ch);
            assert(done.push(open).drop_last() =~= done);
        }
        if ch == sep {
            parts.push(part);
            part = Vec::new();
            assert(texts(parts@) =~= done.push(open));
        } else {
            part.push(ch);
        }
        i += 1;
    }
    let ghost done = texts(parts@);
    let ghost open = part@;
    parts.push(part);
    assert(texts(parts@) =~= done.push(open));
    assert(text@.take(i as int) =~= text@);
    parts
}

/// The part of a text before the first `sep`.
pub open spec fn before(text: Seq<char>, sep: char) -> Seq<char>
    decreases text.len(),
{
    if text.len() == 0 || text[0] == sep {
        Seq::empty()
    } else {
        seq![text[0]] + before(text.skip(1), sep)
    }
}

/// The part of a text before the first `sep`.
pub fn before_text(text: &[char], sep: char) -> (r: Vec<char>)
    ensures
        r@ == before(text@, sep),
{
    let mut out: Vec<char> = Vec::new();
    let mut i: usize = 0;
    assert(text@.skip(0) =~= text@);
    while i < text.len() && text[i] != sep
        invariant
            i <= text@.len(),
            before(text@, sep) =~= out@ + before(text@.skip(i as int), sep),
        decreases text@.len() - i,
    {
        out.push(text[i]);
        assert(text@.skip(i as int).skip(1) =~= text@.skip(i + 1));
        i += 1;
    }
    assert(before(text@.skip(i as int), sep) =~= Seq::empty());
    out
}

// White space at the ends
// -----------------------

/// A text without the white space at its start.
pub open spec fn trimmed_start(text: Seq<char>) -> Seq<char>
    decreases text.len(),
{
    if text.len() > 0 && white_space(text[0]) {
        trimmed_start(text.skip(1))
    } else {
        text
    }
}

/// A text without the white space at its end.
pub open spec fn trimmed_end(text: Seq<char>) -> Seq<char>
    decreases text.len(),
{
    if text.len() > 0 && white_space(text.last()) {
        trimmed_end(text.drop_last())
    } else {
        text
    }
}

/// A text without the white space at its ends.
pub open spec fn trimmed(text: Seq<char>) -> Seq<char> {
    trimmed_end(trimmed_start(text))
}

/// Removes the white space at both ends.
pub fn trim_text(text: &[char]) -> (r: Vec<char>)
    ensures
        r@ == trimmed(text@),
{
    let mut start: usize = 0;
    assert(text@.skip(0) =~= text@);
    while start < text.len() && is_white_space(text[start])
        invariant
            start <= text@.len(),
            trimmed_start(text@) == trimmed_start(text@.skip(start as int)),
        decreases text@.len() - start,
    {
        assert(text@.skip(start as int).skip(1) =~= text@.skip(start + 1));
        start += 1;
    }
    let ghost front = text@.skip(start as int);
    let mut end: usize = text.len();
    assert(front.take(end - start) =~= front);
    while end > start && is_white_space(text[end - 1])
        invariant
            start <= end <= text@.len(),
            front == text@.skip(start as int),
            trimmed_end(front) == trimmed_end(front.take(end - start)),
        decreases end,
    {
        assert(front.take(end - start).drop_last() =~= front.take(end - start - 1));
        end -= 1;
    }
    let out: Vec<char> = vstd::slice::slice_to_vec(vstd::slice::slice_subrange(text, start, end));
    assert(out@ =~= front.take(end - start));
    out
}

// Searching
// ---------

/// Whether `needle` stands in `text` at `at`.
pub open spec fn occurs_at(text: Seq<char>, needle: Seq<char>, at: int) -> bool {
    0 <= at <= text.len() - needle.len() && text.subrange(at, at + needle.len()) == needle
}

/// Whether `needle` stands anywhere in `text`.
pub open spec fn occurs(text: Seq<char>, needle: Seq<char>) -> bool {
    exists|at: int| occurs_at(text, needle, at)
}

/// Whether `needle` stands anywhere in `text`.
pub fn contains_text(text: &[char], needle: &[char]) -> (r: bool)
    ensures
        r == occurs(text@, needle@),
{
    let total: usize = text.len();
    if needle.len() > total {
        return false;
    }
    let last: usize = total - needle.len();
    let mut at: usize = 0;
    loop
        invariant
            at <= last,
            total == text@.len(),
            last == total - needle@.len(),
            forall|k: int| 0 <= k < at ==> !occurs_at(text@, needle@, k),
        decreases last - at,
    {
        let mut same: usize = 0;
        while same < needle.len() && text[at + same] == needle[same]
            invariant
                at <= last,
                total == text@.len(),
                last == total - needle@.len(),
                same <= needle@.len(),
                forall|k: int| 0 <= k < same ==> text@[at + k] == needle@[k],
            decreases needle@.len() - same,
        {
            same += 1;
        }
        if same == needle.len() {
            assert(text@.subrange(at as int, at + needle@.len()) =~= needle@);
            assert(occurs_at(text@, needle@, at as int));
            return true;
        }
        assert(!occurs_at(text@, needle@, at as int)) by {
            if occurs_at(text@, needle@, at as int) {
                assert(text@.subrange(at as int, at + needle@.len())[same as int]
                    == needle@[same as int]);
            }
        }
        if at == last {
            return false;
        }
        at += 1;
    }
}

// Laws
// ----

/// A text that is fitted to a width has that many characters: its own as far as they go,
/// then blanks.
pub proof fn fitted_texts_have_the_width(text: Seq<char>, width: nat, i: int)
    requires
        0 <= i < width,
    ensures
        fitted(text, width).len() == width,
        fitted(text, width)[i] == (if i < text.len() {
            text[i]
        } else {
            ' '
        }),
{
}

/// Parts put together with a separator between them.
pub open spec fn put_together(parts: Seq<Seq<char>>, sep: char) -> Seq<char>
    decreases parts.len(),
{
    if parts.len() == 0 {
        Seq::empty()
    } else if parts.len() == 1 {
        parts[0]
    } else {
        put_together(parts.drop_last(), sep) + seq![sep] + parts.last()
    }
}

/// The parts of a text hold no separator, and put together they are the text.
pub proof fn parts_make_up_the_text(text: Seq<char>, sep: char)
    ensures
        split(text, sep).len() > 0,
        put_together(split(text, sep), sep) == text,
        forall|i: int, j: int|
            0 <= i < split(text, sep).len() && 0 <= j < split(text, sep)[i].len()
                ==> #[trigger] split(text, sep)[i][j] != sep,
    decreases text.len(),
{
    let parts = split(text, sep);
    if text.len() == 0 {
        assert(parts =~= seq![Seq::<char>::empty()]);
        assert(put_together(parts, sep) =~= text);
    } else {
        let before = split(text.drop_last(), sep);
        let ch = text.last();
        parts_make_up_the_text(text.drop_last(), sep);
        assert(text.drop_last().push(ch) =~= text);
        if ch == sep {
            assert(parts.drop_last() =~= before);
            assert(put_together(parts, sep) =~= text);
        } else {
            assert(parts.drop_last() =~= before.drop_last());
            assert(put_together(parts, sep) =~= put_together(before, sep).push(ch));
            assert forall|i: int, j: int|
                0 <= i < parts.len() && 0 <= j < parts[i].len() implies #[trigger] parts[i][j]
                != sep by {
                if i < before.len() - 1 {
                    assert(parts[i] == before[i]);
                } else if j < before.last().len() {
                    assert(parts[i][j] == before[before.len() - 1][j]);
                }
            }
        }
    }
}

/// Trimming takes white space away at both ends, all of it, and nothing else.
pub proof fn trimming_takes_white_space(text: Seq<char>) -> (ends: (int, int))
    ensures
        0 <= ends.0 <= ends.1 <= text.len(),
        trimmed(text) == text.subrange(ends.0, ends.1),
        forall|i: int| 0 <= i < ends.0 || ends.1 <= i < text.len() ==> white_space(
            #[trigger] text[i],
        ),
        trimmed(text).len() > 0 ==> !white_space(trimmed(text)[0]) && !white_space(
            trimmed(text).last(),
        ),
{
    let from = lemma_trimmed_start(text);
    let front = trimmed_start(text);
    let to = lemma_trimmed_end(front);
    assert(trimmed(text) =~= text.subrange(from, from + to));
    assert forall|i: int| 0 <= i < from || from + to <= i < text.len() implies white_space(
        #[trigger] text[i],
    ) by {
        if i >= from {
            assert(text[i] == front[i - from]);
        }
    }
    (from, from + to)
}

proof fn lemma_trimmed_start(text: Seq<char>) -> (from: int)
    ensures
        0 <= from <= text.len(),
        trimmed_start(text) == text.skip(from),
        forall|i: int| 0 <= i < from ==> white_space(#[trigger] text[i]),
        trimmed_start(text).len() > 0 ==> !white_space(trimmed_start(text)[0]),
    decreases text.len(),
{
    if text.len() > 0 && white_space(text[0]) {
        let rest = text.skip(1);
        let k = lemma_trimmed_start(rest);
        assert(rest.skip(k) =~= text.skip(k + 1));
        assert forall|i: int| 0 <= i < k + 1 implies white_space(#[trigger] text[i]) by {
            if i > 0 {
                assert(text[i] == rest[i - 1]);
            }
        }
        k + 1
    } else {
        assert(text.skip(0) =~= text);
        0
    }
}

proof fn lemma_trimmed_end(text: Seq<char>) -> (to: int)
    ensures
        0 <= to <= text.len(),
        trimmed_end(text) == text.take(to),
        forall|i: int| to <= i < text.len() ==> white_space(#[trigger] text[i]),
        to > 0 ==> !white_space(text[to - 1]),
    decreases text.len(),
{
    if text.len() > 0 && white_space(text.last()) {
        let rest = text.drop_last();
        let to = lemma_trimmed_end(rest);
        assert(rest.take(to) =~= text.take(to));
        assert forall|i: int| to <= i < text.len() implies white_space(#[trigger] text[i]) by {
            if i < rest.len() {
                assert(text[i] == rest[i]);
            }
        }
        to
    } else {
        assert(text.take(text.len() as int) =~= text);
        text.len() as int
    }
}

/// What stands before a separator is the text up to the first one, or all of it.
pub proof fn the_start_is_before_the_separator(start: Seq<char>, sep: char, rest: Seq<char>)
    requires
        forall|i: int| 0 <= i < start.len() ==> #[trigger] start[i] != sep,
    ensures
        before(start, sep) == start,
        before(start.push(sep) + rest, sep) == start,
    decreases start.len(),
{
    let whole = start.push(sep) + rest;
    if start.len() > 0 {
        let tail = start.skip(1);
        assert forall|i: int| 0 <= i < tail.len() implies #[trigger] tail[i] != sep by {
            assert(tail[i] == start[i + 1]);
        }
        the_start_is_before_the_separator(tail, sep, rest);
        assert(whole[0] == start[0]);
        assert(whole.skip(1) =~= tail.push(sep) + rest);
        assert(seq![start[0]] + tail =~= start);
    } else {
        assert(whole[0] == sep);
        assert(before(whole, sep) =~= start);
        assert(before(start, sep) =~= start);
    }
}

} // verus!
