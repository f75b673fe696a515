//! Decoding UTF-8 that arrives in pieces.

use vstd::prelude::*;
use vstd::utf8::{
    decode_first_scalar, decode_utf8, encode_utf8, is_continuation_byte, is_scalar,
    length_of_first_scalar, pop_first_scalar, valid_first_scalar, valid_utf8,
};

verus! {

/// The character with a code point: `char::from_u32`. There is one for every code point up
/// to U+10FFFF that is not a surrogate, and for no other number.
pub assume_specification[ char::from_u32 ](code: u32) -> (r: Option<char>)
    ensures
        r is Some <==> is_scalar(code),
        r matches Some(ch) ==> ch as u32 == code,
;

/// The number of bytes of the characters that `lead` can start; zero if it starts none.
pub open spec fn sequence_len(lead: u8) -> nat {
    if lead <= 0x7f {
        1
    } else if 0xc2 <= lead <= 0xdf {
        2
    } else if 0xe0 <= lead <= 0xef {
        3
    } else if 0xf0 <= lead <= 0xf4 {
        4
    } else {
        0
    }
}

/// Whether a character that starts with `lead` can go on with `second`.
pub open spec fn second_fits(lead: u8, second: u8) -> bool {
    &&& is_continuation_byte(second)
    &&& lead == 0xe0 ==> second >= 0xa0
    &&& lead == 0xed ==> second <= 0x9f
    &&& lead == 0xf0 ==> second >= 0x90
    &&& lead == 0xf4 ==> second <= 0x8f
}

/// The number of bytes at the start that can belong to one character.
pub open spec fn fitting(bytes: Seq<u8>) -> nat {
    if bytes.len() == 0 || sequence_len(bytes[0]) == 0 {
        0
    } else if sequence_len(bytes[0]) == 1 || bytes.len() == 1 || !second_fits(bytes[0], bytes[1]) {
        1
    } else if sequence_len(bytes[0]) == 2 || bytes.len() == 2 || !is_continuation_byte(bytes[2]) {
        2
    } else if sequence_len(bytes[0]) == 3 || bytes.len() == 3 || !is_continuation_byte(bytes[3]) {
        3
    } else {
        4
    }
}

/// Whether the bytes start with a whole character.
pub open spec fn starts_whole(bytes: Seq<u8>) -> bool {
    bytes.len() > 0 && sequence_len(bytes[0]) > 0 && fitting(bytes) == sequence_len(bytes[0])
}

/// What decoding gives: the text so far, and the bytes of a character that is not
/// complete yet.
#[verifier::ext_equal]
pub struct Decoding {
    pub text: Seq<char>,
    pub rest: Seq<u8>,
}

/// The character that stands for bytes that are not UTF-8.
pub open spec fn replacement() -> char {
    '\u{fffd}'
}

/// How many bytes the first character takes up, or the bytes replaced by one character:
/// as many as could have belonged to one, at least one.
pub open spec fn step_len(bytes: Seq<u8>) -> nat {
    if fitting(bytes) == 0 {
        1
    } else {
        fitting(bytes)
    }
}

/// The first character, or the one that replaces bytes that are none.
pub open spec fn step_char(bytes: Seq<u8>) -> char {
    if starts_whole(bytes) {
        decode_first_scalar(bytes) as char
    } else {
        replacement()
    }
}

/// Decodes bytes. The start of a character at the very end is left over.
pub open spec fn decoded(bytes: Seq<u8>) -> Decoding
    decreases bytes.len(),
{
    if bytes.len() == 0 {
        Decoding { text: Seq::empty(), rest: Seq::empty() }
    } else if incomplete(bytes) {
        Decoding { text: Seq::empty(), rest: bytes }
    } else {
        let later = decoded(bytes.skip(step_len(bytes) as int));
        Decoding { text: seq![step_char(bytes)] + later.text, rest: later.rest }
    }
}

/// Whether the bytes are the start of a character, but not all of it.
pub open spec fn incomplete(bytes: Seq<u8>) -> bool {
    bytes.len() > 0 && !starts_whole(bytes) && fitting(bytes) == bytes.len()
}

/// Decodes what is pending and what comes next. At the end of the input an incomplete
/// character is replaced.
pub open spec fn decoded_chunk(pending: Seq<u8>, bytes: Seq<u8>, final_flush: bool) -> Decoding {
    let d = decoded(pending + bytes);
    if final_flush && d.rest.len() > 0 {
        Decoding { text: d.text.push(replacement()), rest: Seq::empty() }
    } else {
        d
    }
}

proof fn lemma_codes_2(b0: u8, b1: u8)
    by (bit_vector)
    requires
        0xc0 <= b0 <= 0xdf,
        0x80 <= b1 <= 0xbf,
    ensures
        (((b0 & 0x1F) as u32) << 6u32) | ((b1 & 0x3f) as u32) >= 0x80 <==> b0 >= 0xc2,
        (((b0 & 0x1F) as u32) << 6u32) | ((b1 & 0x3f) as u32) < 0x800,
{
}

proof fn lemma_codes_3(b0: u8, b1: u8, b2: u8)
    by (bit_vector)
    requires
        0xe0 <= b0 <= 0xef,
        0x80 <= b1 <= 0xbf,
        0x80 <= b2 <= 0xbf,
    ensures
        (((b0 & 0x0F) as u32) << 12u32) | (((b1 & 0x3f) as u32) << 6u32) | ((b2 & 0x3f) as u32)
            >= 0x800 <==> !(b0 == 0xe0 && b1 < 0xa0),
        (((b0 & 0x0F) as u32) << 12u32) | (((b1 & 0x3f) as u32) << 6u32) | ((b2 & 0x3f) as u32)
            < 0x10000,
        (0xd800 <= (((b0 & 0x0F) as u32) << 12u32) | (((b1 & 0x3f) as u32) << 6u32) | ((b2
            & 0x3f) as u32) && (((b0 & 0x0F) as u32) << 12u32) | (((b1 & 0x3f) as u32) << 6u32) | ((
        b2 & 0x3f) as u32) <= 0xdfff) <==> (b0 == 0xed && b1 >= 0xa0),
{
}

proof fn lemma_codes_4(b0: u8, b1: u8, b2: u8, b3: u8)
    by (bit_vector)
    requires
        0xf0 <= b0 <= 0xf7,
        0x80 <= b1 <= 0xbf,
        0x80 <= b2 <= 0xbf,
        0x80 <= b3 <= 0xbf,
    ensures
        (((b0 & 0x07) as u32) << 18u32) | (((b1 & 0x3f) as u32) << 12u32) | (((b2 & 0x3f) as u32)
            << 6u32) | ((b3 & 0x3f) as u32) >= 0x10000 <==> !(b0 == 0xf0 && b1 < 0x90),
        (((b0 & 0x07) as u32) << 18u32) | (((b1 & 0x3f) as u32) << 12u32) | (((b2 & 0x3f) as u32)
            << 6u32) | ((b3 & 0x3f) as u32) <= 0x10ffff <==> b0 <= 0xf3 || (b0 == 0xf4 && b1
            <= 0x8f),
{
}

/// The bytes start with a whole character exactly where they start with the encoding of a
/// Unicode scalar value, and then have its length and its value.
pub proof fn whole_characters_are_scalars(bytes: Seq<u8>)
    ensures
        starts_whole(bytes) <==> valid_first_scalar(bytes),
        starts_whole(bytes) ==> {
            &&& step_len(bytes) == length_of_first_scalar(bytes)
            &&& is_scalar(decode_first_scalar(bytes))
        },
{
    if bytes.len() >= 1 && bytes[0] <= 0x7f {
        let b0 = bytes[0];
        assert((b0 & 0x7F) as u32 <= 0x7f) by (bit_vector);
    }
    if bytes.len() >= 2 && 0xc0 <= bytes[0] <= 0xdf && is_continuation_byte(bytes[1]) {
        lemma_codes_2(bytes[0], bytes[1]);
    }
    if bytes.len() >= 3 && 0xe0 <= bytes[0] <= 0xef && is_continuation_byte(bytes[1])
        && is_continuation_byte(bytes[2]) {
        lemma_codes_3(bytes[0], bytes[1], bytes[2]);
    }
    if bytes.len() >= 4 && 0xf0 <= bytes[0] <= 0xf7 && is_continuation_byte(bytes[1])
        && is_continuation_byte(bytes[2]) && is_continuation_byte(bytes[3]) {
        lemma_codes_4(bytes[0], bytes[1], bytes[2], bytes[3]);
    }
}

fn sequence_length(lead: u8) -> (r: usize)
    ensures
        r == sequence_len(lead),
{
    if lead <= 0x7f {
        1
    } else if 0xc2 <= lead && lead <= 0xdf {
        2
    } else if 0xe0 <= lead && lead <= 0xef {
        3
    } else if 0xf0 <= lead && lead <= 0xf4 {
        4
    } else {
        0
    }
}

fn continues(byte: u8) -> (r: bool)
    ensures
        r == is_continuation_byte(byte),
{
    0x80 <= byte && byte <= 0xbf
}

fn continues_second(lead: u8, second: u8) -> (r: bool)
    ensures
        r == second_fits(lead, second),
{
    continues(second) && (lead != 0xe0 || second >= 0xa0) && (lead != 0xed || second <= 0x9f) && (
    lead != 0xf0 || second >= 0x90) && (lead != 0xf4 || second <= 0x8f)
}

/// The number of bytes from `at` on that can belong to one character.
fn fitting_length(buf: &Vec<u8>, at: usize) -> (r: usize)
    requires
        at < buf@.len(),
    ensures
        r == fitting(buf@.skip(at as int)),
        at + r <= buf@.len(),
{
    let left: usize = buf.len() - at;
    let total: usize = sequence_length(buf[at]);
    assert(buf@.skip(at as int)[0] == buf@[at as int]);
    if total == 0 {
        0
    } else if total == 1 || left == 1 || !continues_second(buf[at], buf[at + 1]) {
        1
    } else if total == 2 || left == 2 || !continues(buf[at + 2]) {
        2
    } else if total == 3 || left == 3 || !continues(buf[at + 3]) {
        3
    } else {
        4
    }
}

/// The character whose `len` bytes start at `at`.
fn decode_char(buf: &Vec<u8>, at: usize, len: usize) -> (r: char)
    requires
        at < buf@.len(),
        starts_whole(buf@.skip(at as int)),
        len == fitting(buf@.skip(at as int)),
        at + len <= buf@.len(),
    ensures
        r == decode_first_scalar(buf@.skip(at as int)) as char,
{
    proof {
        whole_characters_are_scalars(buf@.skip(at as int));
    }
    let total: usize = buf.len();
    assert(at + len <= total);
    let b0: u8 = buf[at];
    assert(buf@.skip(at as int)[0] == b0);
    let code: u32 = if len == 1 {
        (b0 & 0x7F) as u32
    } else if len == 2 {
        (((b0 & 0x1F) as u32) << 6) | ((buf[at + 1] & 0x3f) as u32)
    } else if len == 3 {
        (((b0 & 0x0F) as u32) << 12) | (((buf[at + 1] & 0x3f) as u32) << 6) | ((buf[at + 2]
            & 0x3f) as u32)
    } else {
        (((b0 & 0x07) as u32) << 18) | (((buf[at + 1] & 0x3f) as u32) << 12) | (((buf[at + 2]
            & 0x3f) as u32) << 6) | ((buf[at + 3] & 0x3f) as u32)
    };
    assert(code == decode_first_scalar(buf@.skip(at as int)));
    match char::from_u32(code) {
        Some(ch) => {
            proof {
                vstd::utf8::char_u32_cast(ch, code);
            }
            ch
        },
        None => '\u{fffd}',
    }
}

/// Decodes the bytes that are pending and those that follow. The start of a character that
/// is not complete yet stays pending; bytes that are no UTF-8 become U+FFFD. With
/// `final_flush`, an incomplete character does too.
pub fn decode_utf8_chunk(pending: &mut Vec<u8>, bytes: &[u8], final_flush: bool) -> (r: String)
    ensures
        r@ == decoded_chunk(old(pending)@, bytes@, final_flush).text,
        final(pending)@ == decoded_chunk(old(pending)@, bytes@, final_flush).rest,
{
    let mut buf: Vec<u8> = Vec::new();
    buf.append(pending);
    let mut i: usize = 0;
    let ghost before = buf@;
    while i < bytes.len()
        invariant
            i <= bytes@.len(),
            buf@ =~= before + bytes@.take(i as int),
        decreases bytes@.len() - i,
    {
        buf.push(bytes[i]);
        i += 1;
    }
    assert(buf@ =~= old(pending)@ + bytes@);
    let total: usize = buf.len();
    let mut out: String = String::new();
    let mut idx: usize = 0;
    assert(buf@.skip(0) =~= buf@);
    while idx < total
        invariant_except_break
            idx <= total,
            total == buf@.len(),
            pending@.len() == 0,
            out@ + decoded(buf@.skip(idx as int)).text =~= decoded(buf@).text,
            decoded(buf@.skip(idx as int)).rest == decoded(buf@).rest,
        ensures
            out@ == decoded(buf@).text,
            pending@ == decoded(buf@).rest,
        decreases total - idx,
    {
        let ghost bytes = buf@.skip(idx as int);
        let lead: u8 = buf[idx];
        let whole: usize = sequence_length(lead);
        let fit: usize = fitting_length(&buf, idx);
        assert(bytes[0] == lead);
        let ghost so_far = out@;
        if whole > 0 && fit == whole {
            let ch: char = decode_char(&buf, idx, fit);
            out.push(ch);
            assert(bytes.skip(fit as int) =~= buf@.skip(idx + fit));
            idx += fit;
        } else if fit == total - idx {
            let mut k: usize = idx;
            while k < total
                invariant
                    idx <= k <= total,
                    total == buf@.len(),
                    pending@ =~= buf@.subrange(idx as int, k as int),
                decreases total - k,
            {
                pending.push(buf[k]);
                k += 1;
            }
            assert(pending@ =~= bytes);
            break ;
        } else {
            out.push('\u{fffd}');
            let len: usize = if fit == 0 {
                1
            } else {
                fit
            };
            assert(bytes.skip(len as int) =~= buf@.skip(idx + len));
            idx += len;
        }
    }
    if final_flush && pending.len() > 0 {
        out.push('\u{fffd}');
        pending.clear();
        assert(pending@ =~= Seq::<u8>::empty());
    }
    out
}

// Laws
// ----

/// Decoding does not depend on how the input is cut into pieces: what is pending after the
/// first piece and the second piece give the rest of what both give at once.
pub proof fn decoding_in_parts(first: Seq<u8>, second: Seq<u8>)
    ensures
        decoded(first + second).text == decoded(first).text + decoded(
            decoded(first).rest + second,
        ).text,
        decoded(first + second).rest == decoded(decoded(first).rest + second).rest,
    decreases first.len(),
{
    let both = first + second;
    if first.len() == 0 {
        assert(both =~= decoded(first).rest + second);
        assert(decoded(first).text + decoded(both).text =~= decoded(both).text);
    } else if !starts_whole(first) && fitting(first) == first.len() {
        assert(decoded(first).text + decoded(both).text =~= decoded(both).text);
    } else {
        assert(both[0] == first[0]);
        if first.len() > 1 {
            assert(both[1] == first[1]);
        }
        if first.len() > 2 {
            assert(both[2] == first[2]);
        }
        if first.len() > 3 {
            assert(both[3] == first[3]);
        }
        assert(fitting(both) == fitting(first));
        assert(step_char(both) == step_char(first));
        let n = step_len(first) as int;
        assert(both.skip(n) =~= first.skip(n) + second);
        decoding_in_parts(first.skip(n), second);
        let later = decoded(first.skip(n));
        assert(decoded(both).text =~= decoded(first).text + decoded(later.rest + second).text);
    }
}

/// Valid UTF-8 is decoded to the text that it encodes, with nothing left over.
pub proof fn valid_utf8_is_decoded(bytes: Seq<u8>)
    requires
        valid_utf8(bytes),
    ensures
        decoded(bytes).text == decode_utf8(bytes),
        decoded(bytes).rest.len() == 0,
    decreases bytes.len(),
{
    if bytes.len() > 0 {
        whole_characters_are_scalars(bytes);
        assert(bytes.skip(step_len(bytes) as int) =~= pop_first_scalar(bytes));
        valid_utf8_is_decoded(pop_first_scalar(bytes));
    }
}

/// What decoding leaves over is nothing or the start of a character.
pub proof fn rest_is_incomplete(bytes: Seq<u8>)
    ensures
        decoded(bytes).rest.len() == 0 || incomplete(decoded(bytes).rest),
    decreases bytes.len(),
{
    if bytes.len() > 0 && !incomplete(bytes) {
        rest_is_incomplete(bytes.skip(step_len(bytes) as int));
    }
}

/// Whether a byte can follow the start of a character in that character.
pub open spec fn goes_on(start: Seq<u8>, byte: u8) -> bool {
    fitting(start.push(byte)) > start.len()
}

/// The start of a character that the next byte does not go on with is replaced.
pub proof fn broken_character_is_replaced(start: Seq<u8>, byte: u8)
    requires
        incomplete(start),
        !goes_on(start, byte),
    ensures
        decoded(start.push(byte)).text == seq![replacement()] + decoded(seq![byte]).text,
        decoded(start.push(byte)).rest == decoded(seq![byte]).rest,
{
    let both = start.push(byte);
    assert(both[0] == start[0]);
    if start.len() > 1 {
        assert(both[1] == start[1]);
    }
    if start.len() > 2 {
        assert(both[2] == start[2]);
    }
    assert(fitting(both) == start.len());
    assert(both.skip(step_len(both) as int) =~= seq![byte]);
}

/// Decoding an encoded text gives that text back.
pub proof fn encoded_text_is_decoded(text: Seq<char>)
    ensures
        decoded(encode_utf8(text)).text == text,
        decoded(encode_utf8(text)).rest.len() == 0,
{
    vstd::utf8::encode_utf8_valid_utf8(text);
    vstd::utf8::encode_utf8_decode_utf8(text);
    valid_utf8_is_decoded(encode_utf8(text));
}

} // verus!
