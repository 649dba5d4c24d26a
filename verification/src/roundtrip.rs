//! Which values come back from the wire as they went: decoding what was
//! encoded gives the value back for exactly the values of [`round_trips`].

use crate::decimal::{decimal, digits, lemma_digits_are_digits, lemma_digits_value};
use crate::resp::{
    chars_of, crlf, decode, decode_items, decode_number, decode_text, encode, encode_all, first_cr,
    first_line_end, lemma_first_cr, lemma_first_line_end, line_end_at, number_of, ProtocolError,
    Value, CR, LF,
};
use vstd::prelude::*;
use vstd::utf8::{
    char_u32_cast, encode_scalar, encode_utf8, is_ascii_chars, is_ascii_chars_encode_utf8,
};

verus! {

/// Whether a line end (carriage return, line feed) starts at index `i` of
/// `text`.
pub open spec fn text_line_end_at(text: Seq<char>, i: int) -> bool {
    0 <= i && i + 1 < text.len() && text[i] == '\r' && text[i + 1] == '\n'
}

/// Whether no line end stands inside `text`.
pub open spec fn single_line(text: Seq<char>) -> bool {
    forall|i: int| !text_line_end_at(text, i)
}

/// The values that come back from the wire as they went: all text is ASCII
/// (a byte is read as one character, so a character of several bytes does
/// not come back as itself), no simple string or error holds a line end
/// (its text would end there), and no length is beyond what the length
/// field can say.
pub open spec fn round_trips(value: Value) -> bool
    decreases value,
{
    match value {
        Value::SimpleString(text) => is_ascii_chars(text) && single_line(text),
        Value::Error(text) => is_ascii_chars(text) && single_line(text),
        Value::Integer(_) => true,
        Value::BulkString(text) => is_ascii_chars(text) && text.len() <= i64::MAX,
        Value::Null => true,
        Value::Array(items) => items.len() <= i64::MAX && forall|i: int|
            0 <= i < items.len() ==> round_trips(#[trigger] items[i]),
    }
}

/// ASCII text has one byte for each character, and the bytes read as
/// characters are the text.
pub proof fn lemma_ascii_bytes(text: Seq<char>)
    requires
        is_ascii_chars(text),
    ensures
        encode_utf8(text).len() == text.len(),
        chars_of(encode_utf8(text)) == text,
        forall|i: int|
            0 <= i < text.len() ==> (#[trigger] encode_utf8(text)[i] == CR <==> text[i] == '\r')
                && (encode_utf8(text)[i] == LF <==> text[i] == '\n'),
{
    is_ascii_chars_encode_utf8(text);
}

/// The decimal text of a number holds no carriage return.
pub proof fn lemma_decimal_has_no_cr(n: int)
    ensures
        forall|i: int| 0 <= i < decimal(n).len() ==> decimal(n)[i] != CR,
        decimal(n).len() >= 1,
{
    if n < 0 {
        lemma_digits_are_digits((-n) as nat);
    } else {
        lemma_digits_are_digits(n as nat);
    }
}

/// The decimal text of a number denotes the number.
pub proof fn lemma_number_of_decimal(n: int)
    ensures
        number_of(decimal(n)) == Some(n),
{
    if n < 0 {
        let figures = digits((-n) as nat);
        lemma_digits_are_digits((-n) as nat);
        lemma_digits_value((-n) as nat);
        assert(decimal(n).skip(1) =~= figures);
    } else {
        lemma_digits_are_digits(n as nat);
        lemma_digits_value(n as nat);
    }
}

/// An integer field that holds the decimal text of `n` is read as `n`.
pub proof fn lemma_decode_number_of_decimal(n: i64, rest: Seq<u8>)
    ensures
        decode_number(decimal(n as int) + crlf() + rest) == Ok::<(i64, Seq<u8>), ProtocolError>(
            (n, rest),
        ),
{
    let text = decimal(n as int);
    let s = text + crlf() + rest;
    lemma_decimal_has_no_cr(n as int);
    lemma_first_cr(s, 0);
    let end = first_cr(s, 0);
    assert(s[text.len() as int] == CR);
    assert(s.take(end) =~= text);
    assert(s.skip(end + 2) =~= rest);
    lemma_number_of_decimal(n as int);
}

/// Text on one line, followed by a line end, is read as it stands.
pub proof fn lemma_decode_text_of_line(text: Seq<char>, rest: Seq<u8>)
    requires
        is_ascii_chars(text),
        single_line(text),
    ensures
        decode_text(encode_utf8(text) + crlf() + rest) == Ok::<(Seq<char>, Seq<u8>), ProtocolError>(
            (text, rest),
        ),
{
    let bytes = encode_utf8(text);
    let s = bytes + crlf() + rest;
    lemma_ascii_bytes(text);
    lemma_first_line_end(s, 0);
    let at = bytes.len() as int;
    assert(line_end_at(s, at));
    assert forall|j: int| 0 <= j < at implies !line_end_at(s, j) by {
        assert(!text_line_end_at(text, j));
    }
    assert(s.take(at) =~= bytes);
    assert(s.skip(at + 2) =~= rest);
}

/// The encodings of some values, one after the other: that of the first,
/// then those of the others.
pub proof fn lemma_encode_all_first(items: Seq<Value>)
    requires
        items.len() > 0,
    ensures
        encode_all(items) == encode(items[0]) + encode_all(items.drop_first()),
    decreases items.len(),
{
    if items.len() == 1 {
        assert(items.drop_last() =~= Seq::<Value>::empty());
        assert(items.drop_first() =~= Seq::<Value>::empty());
    } else {
        let front = items.drop_last();
        lemma_encode_all_first(front);
        assert(front.drop_first() =~= items.drop_first().drop_last());
    }
}

/// Decoding what was encoded gives the value back, and leaves what followed
/// the encoding.
pub proof fn lemma_decode_encode(value: Value, rest: Seq<u8>)
    requires
        round_trips(value),
    ensures
        decode(encode(value) + rest) == Ok::<(Value, Seq<u8>), ProtocolError>((value, rest)),
    decreases value, 0nat,
{
    let s = encode(value) + rest;
    match value {
        Value::SimpleString(text) => {
            lemma_decode_text_of_line(text, rest);
            assert(s.skip(1) =~= encode_utf8(text) + crlf() + rest);
        },
        Value::Error(text) => {
            lemma_decode_text_of_line(text, rest);
            assert(s.skip(1) =~= encode_utf8(text) + crlf() + rest);
        },
        Value::Integer(number) => {
            lemma_decode_number_of_decimal(number, rest);
            assert(s.skip(1) =~= decimal(number as int) + crlf() + rest);
        },
        Value::BulkString(text) => {
            let bytes = encode_utf8(text);
            lemma_ascii_bytes(text);
            let after = bytes + crlf() + rest;
            lemma_decode_number_of_decimal(bytes.len() as i64, after);
            assert(s.skip(1) =~= decimal(bytes.len() as int) + crlf() + after);
            assert(after.take(bytes.len() as int) =~= bytes);
            assert(after.skip(bytes.len() as int + 2) =~= rest);
        },
        Value::Null => {
            lemma_decode_number_of_decimal(-1i64, rest);
            assert(s.skip(1) =~= decimal(-1) + crlf() + rest);
        },
        Value::Array(items) => {
            let after = encode_all(items) + rest;
            lemma_decode_number_of_decimal(items.len() as i64, after);
            assert(s.skip(1) =~= decimal(items.len() as int) + crlf() + after);
            lemma_decode_items_encode_all(items, rest);
        },
    }
}

/// Decoding as many values as were encoded gives them back, and leaves what
/// followed their encodings.
pub proof fn lemma_decode_items_encode_all(items: Seq<Value>, rest: Seq<u8>)
    requires
        forall|i: int| 0 <= i < items.len() ==> round_trips(#[trigger] items[i]),
    ensures
        decode_items(encode_all(items) + rest, items.len()) == Ok::<
            (Seq<Value>, Seq<u8>),
            ProtocolError,
        >((items, rest)),
    decreases items, 1nat,
{
    if items.len() == 0 {
        assert(items =~= Seq::<Value>::empty());
    } else {
        let others = items.drop_first();
        let after = encode_all(others) + rest;
        lemma_encode_all_first(items);
        assert(encode_all(items) + rest =~= encode(items[0]) + after);
        lemma_decode_encode(items[0], after);
        lemma_decode_items_encode_all(others, rest);
        assert(seq![items[0]] + others =~= items);
    }
}

/// Whether every byte of `bytes` is outside ASCII.
pub open spec fn all_high(bytes: Seq<u8>) -> bool {
    forall|i: int| 0 <= i < bytes.len() ==> #[trigger] bytes[i] >= 0x80
}

/// What a byte looks like as the first, or as a later byte of a character
/// that takes several bytes: it is outside ASCII.
proof fn lemma_marked_bytes_are_high(low: u8)
    by (bit_vector)
    ensures
        0x80u8 | low >= 0x80u8,
        0xC0u8 | low >= 0x80u8,
        0xE0u8 | low >= 0x80u8,
        0xF0u8 | low >= 0x80u8,
{
}

/// A character's code below 128 taken as a byte.
proof fn lemma_ascii_code_as_byte(code: u32)
    by (bit_vector)
    requires
        code <= 0x7F,
    ensures
        (code & 0x7F) as u8 == code as u8,
{
}

/// The bytes of one character: an ASCII character is its own code, any
/// other takes two bytes or more, all of them outside ASCII.
pub proof fn lemma_char_bytes(c: char)
    ensures
        c as u32 <= 0x7F ==> encode_scalar(c as u32) == seq![c as u8],
        c as u32 > 0x7F ==> encode_scalar(c as u32).len() >= 2 && all_high(
            encode_scalar(c as u32),
        ),
{
    let code = c as u32;
    if code <= 0x7F {
        lemma_ascii_code_as_byte(code);
    } else {
        lemma_marked_bytes_are_high(((code >> 6) & 0x1F) as u8);
        lemma_marked_bytes_are_high(((code >> 12) & 0x0F) as u8);
        lemma_marked_bytes_are_high(((code >> 18) & 0x7) as u8);
        lemma_marked_bytes_are_high((code & 0x3F) as u8);
        lemma_marked_bytes_are_high(((code >> 6) & 0x3F) as u8);
        lemma_marked_bytes_are_high(((code >> 12) & 0x3F) as u8);
    }
}

/// Text has at least one byte for each character, and exactly one for each
/// only where it is ASCII.
pub proof fn lemma_bytes_per_char(text: Seq<char>)
    ensures
        encode_utf8(text).len() >= text.len(),
        encode_utf8(text).len() == text.len() ==> is_ascii_chars(text),
    decreases text.len(),
{
    if text.len() > 0 {
        lemma_bytes_per_char(text.drop_first());
        let others = text.drop_first();
        if encode_utf8(text).len() == text.len() {
            assert forall|i: int| 0 <= i < text.len() implies '\0' <= #[trigger] text[i]
                <= '\u{7f}' by {
                if i > 0 {
                    assert(text[i] == others[i - 1]);
                } else {
                    char_u32_cast(text[0], text[0] as u32);
                }
            }
        }
    }
}

/// Where the bytes `prefix`, all outside ASCII, and then the bytes of `text`
/// are read one byte a character, and the first characters read are `text`
/// itself, every byte after those is outside ASCII.
pub proof fn lemma_bytes_beyond_text_are_high(text: Seq<char>, prefix: Seq<u8>)
    requires
        all_high(prefix),
        forall|i: int|
            0 <= i < text.len() ==> text[i] == (#[trigger] (prefix + encode_utf8(text))[i]) as char,
    ensures
        forall|k: int|
            text.len() <= k < (prefix + encode_utf8(text)).len() ==> #[trigger] (prefix
                + encode_utf8(text))[k] >= 0x80,
        prefix.len() > 0 ==> all_high(encode_utf8(text)),
    decreases text.len(),
{
    let whole = prefix + encode_utf8(text);
    if text.len() > 0 {
        let first = encode_scalar(text[0] as u32);
        let others = text.drop_first();
        lemma_char_bytes(text[0]);
        lemma_bytes_per_char(others);
        let shifted = (prefix + first).drop_first();
        assert(whole =~= seq![whole[0]] + (shifted + encode_utf8(others)));
        assert forall|i: int| 0 <= i < others.len() implies others[i] == (#[trigger] (shifted
            + encode_utf8(others))[i]) as char by {
            assert((shifted + encode_utf8(others))[i] == whole[i + 1]);
        }
        lemma_bytes_beyond_text_are_high(others, shifted);
    }
}

/// A simple string or error comes back from the wire only where it is ASCII
/// on one line, and then with nothing more taken from the bytes behind it.
pub proof fn lemma_decode_text_only(text: Seq<char>, tail: Seq<u8>, rest: Seq<u8>)
    requires
        decode_text(encode_utf8(text) + crlf() + tail) == Ok::<
            (Seq<char>, Seq<u8>),
            ProtocolError,
        >((text, rest)),
    ensures
        is_ascii_chars(text),
        single_line(text),
        rest == tail,
{
    let bytes = encode_utf8(text);
    let s = bytes + crlf() + tail;
    lemma_first_line_end(s, 0);
    lemma_bytes_per_char(text);
    let end = first_line_end(s, 0)->Some_0;
    let at = bytes.len() as int;
    lemma_bytes_beyond_text_are_high(text, Seq::<u8>::empty());
    if end < at {
        assert(s[end] == (Seq::<u8>::empty() + bytes)[end]);
    }
    assert forall|i: int| !text_line_end_at(text, i) by {
        if text_line_end_at(text, i) {
            assert(line_end_at(s, i));
        }
    }
}

/// A length field that holds the digits of `n` is read as `n` where `n`
/// fits in 64 bits, and is refused where it does not.
pub proof fn lemma_decode_number_of_digits(n: nat, rest: Seq<u8>)
    ensures
        n <= i64::MAX ==> decode_number(digits(n) + crlf() + rest) == Ok::<
            (i64, Seq<u8>),
            ProtocolError,
        >((n as i64, rest)),
        n > i64::MAX ==> decode_number(digits(n) + crlf() + rest) is Err,
{
    if n <= i64::MAX {
        lemma_decode_number_of_decimal(n as i64, rest);
    } else {
        let text = digits(n);
        let s = text + crlf() + rest;
        lemma_decimal_has_no_cr(n as int);
        lemma_first_cr(s, 0);
        assert(s[text.len() as int] == CR);
        assert(s.take(first_cr(s, 0)) =~= text);
        lemma_number_of_decimal(n as int);
    }
}

/// A value comes back from the wire only where [`round_trips`] says so, and
/// then with nothing more taken from the bytes behind it.
pub proof fn lemma_decode_encode_only(value: Value, tail: Seq<u8>, rest: Seq<u8>)
    requires
        decode(encode(value) + tail) == Ok::<(Value, Seq<u8>), ProtocolError>((value, rest)),
    ensures
        round_trips(value),
        rest == tail,
    decreases value, 0nat,
{
    let s = encode(value) + tail;
    match value {
        Value::SimpleString(text) => {
            assert(s.skip(1) =~= encode_utf8(text) + crlf() + tail);
            lemma_decode_text_only(text, tail, rest);
        },
        Value::Error(text) => {
            assert(s.skip(1) =~= encode_utf8(text) + crlf() + tail);
            lemma_decode_text_only(text, tail, rest);
        },
        Value::Integer(_) => {
            lemma_decode_encode(value, tail);
        },
        Value::Null => {
            lemma_decode_encode(value, tail);
        },
        Value::BulkString(text) => {
            let bytes = encode_utf8(text);
            let after = bytes + crlf() + tail;
            assert(s.skip(1) =~= digits(bytes.len()) + crlf() + after);
            lemma_decode_number_of_digits(bytes.len(), after);
            lemma_bytes_per_char(text);
        },
        Value::Array(items) => {
            let after = encode_all(items) + tail;
            assert(s.skip(1) =~= digits(items.len()) + crlf() + after);
            lemma_decode_number_of_digits(items.len(), after);
            lemma_decode_items_only(items, tail, rest);
        },
    }
}

/// Values come back from the wire only where [`round_trips`] says so of each
/// of them, and then with nothing more taken from the bytes behind them.
pub proof fn lemma_decode_items_only(items: Seq<Value>, tail: Seq<u8>, rest: Seq<u8>)
    requires
        decode_items(encode_all(items) + tail, items.len()) == Ok::<
            (Seq<Value>, Seq<u8>),
            ProtocolError,
        >((items, rest)),
    ensures
        forall|i: int| 0 <= i < items.len() ==> round_trips(#[trigger] items[i]),
        rest == tail,
    decreases items, 1nat,
{
    if items.len() > 0 {
        let others = items.drop_first();
        let after = encode_all(others) + tail;
        let s = encode_all(items) + tail;
        lemma_encode_all_first(items);
        assert(s =~= encode(items[0]) + after);
        let next = decode(s)->Ok_0.1;
        let found = decode_items(next, (items.len() - 1) as nat)->Ok_0.0;
        assert(found =~= others);
        lemma_decode_encode_only(items[0], after, next);
        lemma_decode_items_only(others, tail, rest);
    }
}

/// The values that come back from the wire as they went are those of which
/// [`round_trips`] says so, and no others.
pub proof fn lemma_round_trips_exactly(value: Value, tail: Seq<u8>)
    ensures
        round_trips(value) <==> (decode(encode(value) + tail) matches Ok((back, _)) && back
            == value),
{
    if round_trips(value) {
        lemma_decode_encode(value, tail);
    }
    if decode(encode(value) + tail) matches Ok((back, _)) && back == value {
        let rest = decode(encode(value) + tail)->Ok_0.1;
        lemma_decode_encode_only(value, tail, rest);
    }
}

} // verus!
