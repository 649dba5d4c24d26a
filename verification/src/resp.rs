//! The wire values of the protocol and their byte encoding.

use crate::decimal::{
    all_digits, decimal, digits, digits_value, push_decimal, push_digits, MINUS, NINE, PLUS, ZERO,
};
use crate::text::push_char;
use vstd::prelude::*;
use vstd::slice::slice_subrange;
use vstd::utf8::encode_utf8;

verus! {

/// A value as it travels on the wire.
#[derive(Debug, PartialEq)]
pub enum RespType {
    /// Simple string
    String(String),
    /// Signed 64-bit integer
    Integer(i64),
    /// Simple error: an upper-case error kind, a space and a message
    Error(String),
    /// Length-prefixed string
    BulkString(String),
    /// Absence of a value; on the wire a bulk string of negative length
    Null,
    /// Ordered values, possibly nested
    Array(Vec<RespType>),
}

/// The mathematical content of a [`RespType`].
pub enum Value {
    /// Simple string
    SimpleString(Seq<char>),
    /// Signed 64-bit integer
    Integer(i64),
    /// Simple error
    Error(Seq<char>),
    /// Length-prefixed string
    BulkString(Seq<char>),
    /// Absence of a value
    Null,
    /// Ordered values, possibly nested
    Array(Seq<Value>),
}

/// The tag of a simple string, `+`.
pub const TAG_STRING: u8 = 43;

/// The tag of an error, `-`.
pub const TAG_ERROR: u8 = 45;

/// The tag of an integer, `:`.
pub const TAG_INTEGER: u8 = 58;

/// The tag of a bulk string, `$`.
pub const TAG_BULK: u8 = 36;

/// The tag of an array, `*`.
pub const TAG_ARRAY: u8 = 42;

/// The carriage return.
pub const CR: u8 = 13;

/// The line feed.
pub const LF: u8 = 10;

impl View for RespType {
    type V = Value;

    open spec fn view(&self) -> Value
        decreases self,
    {
        match self {
            RespType::String(text) => Value::SimpleString(text@),
            RespType::Integer(number) => Value::Integer(*number),
            RespType::Error(text) => Value::Error(text@),
            RespType::BulkString(text) => Value::BulkString(text@),
            RespType::Null => Value::Null,
            RespType::Array(items) => Value::Array(
                Seq::new(
                    items@.len(),
                    |i: int|
                        if 0 <= i < items@.len() {
                            items@[i]@
                        } else {
                            Value::Null
                        },
                ),
            ),
        }
    }
}

/// The contents of each wire value of `items`, in order.
pub open spec fn values_of(items: Seq<RespType>) -> Seq<Value> {
    Seq::new(items.len(), |i: int| items[i]@)
}

/// The content of an array is the contents of its items.
pub proof fn lemma_array_view(items: Vec<RespType>)
    ensures
        RespType::Array(items)@ == Value::Array(values_of(items@)),
{
    let whole = RespType::Array(items);
    let got = whole@->Array_0;
    assert forall|i: int| 0 <= i < got.len() implies got[i] == values_of(items@)[i] by {
        reveal_with_fuel(<RespType as View>::view, 2);
    }
    assert(got =~= values_of(items@));
}

/// The two bytes that end a line: carriage return, line feed.
pub open spec fn crlf() -> Seq<u8> {
    seq![CR, LF]
}

/// The bytes that `value` is written as.
pub open spec fn encode(value: Value) -> Seq<u8>
    decreases value,
{
    match value {
        Value::SimpleString(text) => seq![TAG_STRING] + encode_utf8(text) + crlf(),
        Value::Error(text) => seq![TAG_ERROR] + encode_utf8(text) + crlf(),
        Value::Integer(number) => seq![TAG_INTEGER] + decimal(number as int) + crlf(),
        Value::BulkString(text) => seq![TAG_BULK] + digits(encode_utf8(text).len()) + crlf()
            + encode_utf8(text) + crlf(),
        Value::Null => seq![TAG_BULK] + decimal(-1) + crlf(),
        Value::Array(items) => seq![TAG_ARRAY] + digits(items.len()) + crlf() + encode_all(
            items,
        ),
    }
}

/// The encodings of `items`, one after the other.
pub open spec fn encode_all(items: Seq<Value>) -> Seq<u8>
    decreases items,
{
    if items.len() == 0 {
        Seq::empty()
    } else {
        encode_all(items.drop_last()) + encode(items.last())
    }
}

/// Why a byte stream could not be decoded.
#[derive(Debug, PartialEq, Eq, Clone, Copy)]
pub enum ProtocolError {
    /// The first byte of a value is none of the five type tags.
    UnknownType(u8),
    /// The bytes end before the value is complete.
    Truncated,
    /// An integer or length field is not an optional sign followed by
    /// decimal digits, or its value does not fit in 64 bits.
    InvalidInteger,
    /// An array announces a negative number of items.
    NegativeLength,
}

/// The characters that `bytes` stand for, each byte taken as the character
/// with that code.
pub open spec fn chars_of(bytes: Seq<u8>) -> Seq<char> {
    Seq::new(bytes.len(), |i: int| bytes[i] as char)
}

/// Whether a line end (carriage return, line feed) starts at index `i`.
pub open spec fn line_end_at(s: Seq<u8>, i: int) -> bool {
    0 <= i && i + 1 < s.len() && s[i] == CR && s[i + 1] == LF
}

/// The index of the first line end that starts at `from` or later, if any.
pub open spec fn first_line_end(s: Seq<u8>, from: int) -> Option<int>
    decreases s.len() - from,
{
    if from + 1 >= s.len() {
        None
    } else if line_end_at(s, from) {
        Some(from)
    } else {
        first_line_end(s, from + 1)
    }
}

/// The index of the first carriage return at `from` or later; the length of
/// `s` if there is none.
pub open spec fn first_cr(s: Seq<u8>, from: int) -> int
    decreases s.len() - from,
{
    if from >= s.len() {
        s.len() as int
    } else if s[from] == CR {
        from
    } else {
        first_cr(s, from + 1)
    }
}

/// The text before the first line end, and what follows that line end.
pub open spec fn decode_text(s: Seq<u8>) -> Result<(Seq<char>, Seq<u8>), ProtocolError> {
    match first_line_end(s, 0) {
        Some(end) => Ok((chars_of(s.take(end)), s.skip(end + 2))),
        None => Err(ProtocolError::Truncated),
    }
}

/// The number that `body` denotes: an optional `+` or `-`, then one or more
/// digits. `None` if `body` has another form.
pub open spec fn number_of(body: Seq<u8>) -> Option<int> {
    let signed = body.len() > 0 && (body[0] == PLUS || body[0] == MINUS);
    let figures = if signed {
        body.skip(1)
    } else {
        body
    };
    if figures.len() > 0 && all_digits(figures) {
        if signed && body[0] == MINUS {
            Some(-(digits_value(figures) as int))
        } else {
            Some(digits_value(figures) as int)
        }
    } else {
        None
    }
}

/// The number that `body` denotes, if it has the form of a number and fits
/// in a signed 64-bit integer.
pub open spec fn i64_of(body: Seq<u8>) -> Option<i64> {
    match number_of(body) {
        Some(n) => if i64::MIN <= n <= i64::MAX {
            Some(n as i64)
        } else {
            None
        },
        None => None,
    }
}

/// An integer field: a number up to the first carriage return, which must
/// be there and be followed by one more byte. That byte is skipped whatever
/// it is.
pub open spec fn decode_number(s: Seq<u8>) -> Result<(i64, Seq<u8>), ProtocolError> {
    let end = first_cr(s, 0);
    if end + 1 >= s.len() {
        Err(ProtocolError::Truncated)
    } else {
        match i64_of(s.take(end)) {
            Some(n) => Ok((n, s.skip(end + 2))),
            None => Err(ProtocolError::InvalidInteger),
        }
    }
}

/// What follows the `$` tag: a length field; for a negative length nothing
/// more, else that many bytes of text and two more bytes, which are skipped
/// whatever they are.
pub open spec fn decode_bulk(s: Seq<u8>) -> Result<(Value, Seq<u8>), ProtocolError> {
    match decode_number(s) {
        Err(e) => Err(e),
        Ok((length, rest)) => if length < 0 {
            Ok((Value::Null, rest))
        } else if rest.len() < length + 2 {
            Err(ProtocolError::Truncated)
        } else {
            Ok((Value::BulkString(chars_of(rest.take(length as int))), rest.skip(length + 2)))
        },
    }
}

/// The first value that `s` holds, and the bytes that follow it.
pub open spec fn decode(s: Seq<u8>) -> Result<(Value, Seq<u8>), ProtocolError>
    decreases s.len(), 0nat,
{
    if s.len() == 0 {
        Err(ProtocolError::Truncated)
    } else if s[0] == TAG_STRING {
        match decode_text(s.skip(1)) {
            Ok((text, rest)) => Ok((Value::SimpleString(text), rest)),
            Err(e) => Err(e),
        }
    } else if s[0] == TAG_ERROR {
        match decode_text(s.skip(1)) {
            Ok((text, rest)) => Ok((Value::Error(text), rest)),
            Err(e) => Err(e),
        }
    } else if s[0] == TAG_INTEGER {
        match decode_number(s.skip(1)) {
            Ok((number, rest)) => Ok((Value::Integer(number), rest)),
            Err(e) => Err(e),
        }
    } else if s[0] == TAG_BULK {
        decode_bulk(s.skip(1))
    } else if s[0] == TAG_ARRAY {
        match decode_number(s.skip(1)) {
            Ok((count, rest)) => if count < 0 {
                Err(ProtocolError::NegativeLength)
            } else {
                proof {
                    lemma_first_cr(s.skip(1), 0);
                }
                match decode_items(rest, count as nat) {
                    Ok((items, rest)) => Ok((Value::Array(items), rest)),
                    Err(e) => Err(e),
                }
            },
            Err(e) => Err(e),
        }
    } else {
        Err(ProtocolError::UnknownType(s[0]))
    }
}

/// The first `count` values that `s` holds, and the bytes that follow them.
///
/// A value takes at least one byte (`lemma_decode_rest`), so the test on the
/// lengths never fails; it is there to show that the definition ends.
pub open spec fn decode_items(s: Seq<u8>, count: nat) -> Result<
    (Seq<Value>, Seq<u8>),
    ProtocolError,
>
    decreases s.len(), count + 1,
{
    if count == 0 {
        Ok((Seq::empty(), s))
    } else {
        match decode(s) {
            Err(e) => Err(e),
            Ok((first, rest)) => if rest.len() < s.len() {
                match decode_items(rest, (count - 1) as nat) {
                    Ok((others, rest)) => Ok((seq![first] + others, rest)),
                    Err(e) => Err(e),
                }
            } else {
                Err(ProtocolError::Truncated)
            },
        }
    }
}

/// Where `first_cr` points: at the first carriage return, with none before
/// it, or at the end.
pub proof fn lemma_first_cr(s: Seq<u8>, from: int)
    requires
        0 <= from <= s.len(),
    ensures
        from <= first_cr(s, from) <= s.len(),
        first_cr(s, from) < s.len() ==> s[first_cr(s, from)] == CR,
        forall|j: int| from <= j < first_cr(s, from) ==> s[j] != CR,
    decreases s.len() - from,
{
    if from < s.len() && s[from] != CR {
        lemma_first_cr(s, from + 1);
    }
}

/// Where `first_line_end` points: at the first line end, with none starting
/// before it; it is `None` only where no line end starts at `from` or later.
pub proof fn lemma_first_line_end(s: Seq<u8>, from: int)
    requires
        0 <= from,
    ensures
        match first_line_end(s, from) {
            Some(end) => from <= end && line_end_at(s, end) && forall|j: int|
                from <= j < end ==> !line_end_at(s, j),
            None => forall|j: int| from <= j ==> !line_end_at(s, j),
        },
    decreases s.len() - from,
{
    if from + 1 < s.len() && !line_end_at(s, from) {
        lemma_first_line_end(s, from + 1);
    }
}

/// What `decode` leaves is an end piece of its input, shorter than the input.
pub proof fn lemma_decode_rest(s: Seq<u8>)
    ensures
        decode(s) matches Ok((_, rest)) ==> rest.len() < s.len() && rest == s.skip(
            s.len() - rest.len(),
        ),
    decreases s.len(), 0nat,
{
    if s.len() > 0 {
        let body = s.skip(1);
        if s[0] == TAG_STRING || s[0] == TAG_ERROR {
            lemma_first_line_end(body, 0);
        } else if s[0] == TAG_INTEGER || s[0] == TAG_BULK || s[0] == TAG_ARRAY {
            lemma_first_cr(body, 0);
            let end = first_cr(body, 0);
            if let Ok((number, rest)) = decode_number(body) {
                if s[0] == TAG_ARRAY && number >= 0 {
                    lemma_decode_items_rest(rest, number as nat);
                }
            }
        }
    }
}

/// What `decode_items` leaves is an end piece of its input.
pub proof fn lemma_decode_items_rest(s: Seq<u8>, count: nat)
    ensures
        decode_items(s, count) matches Ok((items, rest)) ==> items.len() == count && rest.len()
            <= s.len() && rest == s.skip(s.len() - rest.len()),
    decreases s.len(), count + 1,
{
    if count > 0 {
        lemma_decode_rest(s);
        if let Ok((_, rest)) = decode(s) {
            lemma_decode_items_rest(rest, (count - 1) as nat);
        }
    }
}

/// Appends the bytes of `source` to `bytes`.
fn push_bytes(bytes: &mut Vec<u8>, source: &[u8])
    ensures
        final(bytes)@ == old(bytes)@ + source@,
{
    bytes.extend_from_slice(source);
}

/// The text that the first `count` bytes of `bytes` stand for.
fn text_of(bytes: &[u8], count: usize) -> (text: String)
    requires
        count <= bytes@.len(),
    ensures
        text@ == chars_of(bytes@.take(count as int)),
{
    let mut text = String::new();
    let mut i: usize = 0;
    while i < count
        invariant
            i <= count <= bytes@.len(),
            text@ == chars_of(bytes@.take(i as int)),
        decreases count - i,
    {
        push_char(&mut text, bytes[i] as char);
        i = i + 1;
    }
    text
}

/// The number that `body` denotes, if it has the form of a number and fits
/// in 64 bits.
#[verifier::loop_isolation(false)]
fn parse_number(body: &[u8]) -> (number: Option<i64>)
    ensures
        number == i64_of(body@),
{
    let negative = body.len() > 0 && body[0] == MINUS;
    let start: usize = if body.len() > 0 && (body[0] == PLUS || body[0] == MINUS) {
        1
    } else {
        0
    };
    let ghost figures = body@.skip(start as int);
    assert(start == 0 ==> figures =~= body@);
    if start == body.len() {
        return None;
    }
    // The magnitude read so far, as long as it is at most 2^63.
    let mut magnitude: u64 = 0;
    let mut fits = true;
    let mut i: usize = start;
    while i < body.len()
        invariant
            start <= i <= body@.len(),
            figures == body@.skip(start as int),
            all_digits(figures.take(i - start)),
            fits ==> magnitude == digits_value(figures.take(i - start)) && magnitude
                <= 0x8000_0000_0000_0000,
            !fits ==> digits_value(figures.take(i - start)) > 0x8000_0000_0000_0000,
        decreases body@.len() - i,
    {
        let byte = body[i];
        if byte < ZERO || byte > NINE {
            assert(figures[i - start] == byte);
            return None;
        }
        let figure: u64 = (byte - ZERO) as u64;
        proof {
            let next = figures.take(i + 1 - start);
            assert(next.drop_last() =~= figures.take(i - start));
        }
        if fits {
            if magnitude > (0x8000_0000_0000_0000 - figure) / 10 {
                fits = false;
            } else {
                magnitude = magnitude * 10 + figure;
            }
        }
        i = i + 1;
    }
    assert(figures.take(i - start) =~= figures);
    if !fits {
        None
    } else if negative {
        if magnitude == 0x8000_0000_0000_0000 {
            Some(i64::MIN)
        } else {
            Some(-(magnitude as i64))
        }
    } else if magnitude > 0x7fff_ffff_ffff_ffff {
        None
    } else {
        Some(magnitude as i64)
    }
}

impl RespType {
    /// Reads one value from the front of `stream`; gives the value and the
    /// bytes after it.
    pub fn deserialize<'a>(stream: &'a [u8]) -> (result: Result<
        (RespType, &'a [u8]),
        ProtocolError,
    >)
        ensures
            match result {
                Ok((value, rest)) => decode(stream@) == Ok::<(Value, Seq<u8>), ProtocolError>(
                    (value@, rest@),
                ),
                Err(e) => decode(stream@) == Err::<(Value, Seq<u8>), ProtocolError>(e),
            },
        decreases stream@.len(), 1nat,
    {
        if stream.len() == 0 {
            return Err(ProtocolError::Truncated);
        }
        let body = slice_subrange(stream, 1, stream.len());
        assert(stream[0] == TAG_ARRAY ==> seq![TAG_ARRAY] + body@ =~= stream@);
        let tag = stream[0];
        if tag == TAG_STRING {
            Self::deserialize_string(body)
        } else if tag == TAG_ERROR {
            Self::deserialize_error(body)
        } else if tag == TAG_INTEGER {
            Self::deserialize_integer(body)
        } else if tag == TAG_BULK {
            Self::deserialize_bulk_string(body)
        } else if tag == TAG_ARRAY {
            Self::deserialize_array(body)
        } else {
            Err(ProtocolError::UnknownType(tag))
        }
    }

    /// Reads what follows the `*` tag: the number of items, then the items.
    #[verifier::loop_isolation(false)]
    fn deserialize_array<'a>(stream: &'a [u8]) -> (result: Result<
        (RespType, &'a [u8]),
        ProtocolError,
    >)
        ensures
            match result {
                Ok((value, rest)) => decode(seq![TAG_ARRAY] + stream@) == Ok::<
                    (Value, Seq<u8>),
                    ProtocolError,
                >((value@, rest@)),
                Err(e) => decode(seq![TAG_ARRAY] + stream@) == Err::<(Value, Seq<u8>), ProtocolError>(
                    e,
                ),
            },
        decreases stream@.len() + 1, 0nat,
    {
        let ghost whole = seq![TAG_ARRAY] + stream@;
        assert(whole.skip(1) =~= stream@);
        let (count, rest) = match Self::deserialize_number(stream) {
            Ok(found) => found,
            Err(e) => return Err(e),
        };
        if count < 0 {
            return Err(ProtocolError::NegativeLength);
        }
        proof {
            lemma_first_cr(stream@, 0);
        }
        let ghost start = rest@;
        let mut current = rest;
        let mut items: Vec<RespType> = Vec::new();
        let mut i: i64 = 0;
        while i < count
            invariant
                0 <= i <= count,
                current@.len() <= start.len() < stream@.len(),
                match decode_items(current@, (count - i) as nat) {
                    Ok((more, rest)) => decode_items(start, count as nat) == Ok::<
                        (Seq<Value>, Seq<u8>),
                        ProtocolError,
                    >((values_of(items@) + more, rest)),
                    Err(e) => decode_items(start, count as nat) == Err::<
                        (Seq<Value>, Seq<u8>),
                        ProtocolError,
                    >(e),
                },
            decreases count - i,
        {
            proof {
                lemma_decode_rest(current@);
            }
            match Self::deserialize(current) {
                Err(e) => {
                    return Err(e);
                },
                Ok((item, rest)) => {
                    proof {
                        let ghost before = values_of(items@);
                        let ghost after = values_of(items@.push(item));
                        match decode_items(rest@, (count - i - 1) as nat) {
                            Ok((more, _)) => {
                                assert(before + (seq![item@] + more) =~= after + more);
                            },
                            Err(_) => {},
                        }
                    }
                    items.push(item);
                    current = rest;
                },
            }
            i = i + 1;
        }
        proof {
            lemma_array_view(items);
        }
        Ok((RespType::Array(items), current))
    }

    /// Reads what follows the `$` tag: a length, then the text.
    fn deserialize_bulk_string<'a>(stream: &'a [u8]) -> (result: Result<
        (RespType, &'a [u8]),
        ProtocolError,
    >)
        ensures
            match result {
                Ok((value, rest)) => decode_bulk(stream@) == Ok::<(Value, Seq<u8>), ProtocolError>(
                    (value@, rest@),
                ),
                Err(e) => decode_bulk(stream@) == Err::<(Value, Seq<u8>), ProtocolError>(e),
            },
    {
        let (length, rest) = match Self::deserialize_number(stream) {
            Ok(found) => found,
            Err(e) => return Err(e),
        };
        if length < 0 {
            return Ok((RespType::Null, rest));
        }
        if (rest.len() as u64) < (length as u64) + 2 {
            return Err(ProtocolError::Truncated);
        }
        let size: usize = length as usize;
        let text = text_of(rest, size);
        Ok((RespType::BulkString(text), slice_subrange(rest, size + 2, rest.len())))
    }

    /// Reads what follows the `:` tag.
    fn deserialize_integer<'a>(stream: &'a [u8]) -> (result: Result<
        (RespType, &'a [u8]),
        ProtocolError,
    >)
        ensures
            match result {
                Ok((value, rest)) => value@ is Integer && decode_number(stream@) == Ok::<
                    (i64, Seq<u8>),
                    ProtocolError,
                >((value@->Integer_0, rest@)),
                Err(e) => decode_number(stream@) == Err::<(i64, Seq<u8>), ProtocolError>(e),
            },
    {
        match Self::deserialize_number(stream) {
            Ok((number, rest)) => Ok((RespType::Integer(number), rest)),
            Err(e) => Err(e),
        }
    }

    /// Reads an integer field: an optional sign and digits up to a carriage
    /// return, and skips the byte after the carriage return.
    pub fn deserialize_number<'a>(stream: &'a [u8]) -> (result: Result<
        (i64, &'a [u8]),
        ProtocolError,
    >)
        ensures
            match result {
                Ok((number, rest)) => decode_number(stream@) == Ok::<(i64, Seq<u8>), ProtocolError>(
                    (number, rest@),
                ),
                Err(e) => decode_number(stream@) == Err::<(i64, Seq<u8>), ProtocolError>(e),
            },
    {
        let mut end: usize = 0;
        while end < stream.len() && stream[end] != CR
            invariant
                end <= stream@.len(),
                first_cr(stream@, 0) == first_cr(stream@, end as int),
            decreases stream@.len() - end,
        {
            end = end + 1;
        }
        if stream.len() - end < 2 {
            return Err(ProtocolError::Truncated);
        }
        match parse_number(slice_subrange(stream, 0, end)) {
            Some(number) => Ok((number, slice_subrange(stream, end + 2, stream.len()))),
            None => Err(ProtocolError::InvalidInteger),
        }
    }

    /// Reads what follows the `+` tag.
    fn deserialize_string<'a>(stream: &'a [u8]) -> (result: Result<
        (RespType, &'a [u8]),
        ProtocolError,
    >)
        ensures
            match result {
                Ok((value, rest)) => value@ is SimpleString && decode_text(stream@) == Ok::<
                    (Seq<char>, Seq<u8>),
                    ProtocolError,
                >((value@->SimpleString_0, rest@)),
                Err(e) => decode_text(stream@) == Err::<(Seq<char>, Seq<u8>), ProtocolError>(e),
            },
    {
        match Self::deserialize_simple_string(stream) {
            Ok((text, rest)) => Ok((RespType::String(text), rest)),
            Err(e) => Err(e),
        }
    }

    /// Reads what follows the `-` tag.
    fn deserialize_error<'a>(stream: &'a [u8]) -> (result: Result<
        (RespType, &'a [u8]),
        ProtocolError,
    >)
        ensures
            match result {
                Ok((value, rest)) => value@ is Error && decode_text(stream@) == Ok::<
                    (Seq<char>, Seq<u8>),
                    ProtocolError,
                >((value@->Error_0, rest@)),
                Err(e) => decode_text(stream@) == Err::<(Seq<char>, Seq<u8>), ProtocolError>(e),
            },
    {
        match Self::deserialize_simple_string(stream) {
            Ok((text, rest)) => Ok((RespType::Error(text), rest)),
            Err(e) => Err(e),
        }
    }

    /// Reads the text up to the first line end, and skips the line end.
    pub fn deserialize_simple_string<'a>(stream: &'a [u8]) -> (result: Result<
        (String, &'a [u8]),
        ProtocolError,
    >)
        ensures
            match result {
                Ok((text, rest)) => decode_text(stream@) == Ok::<
                    (Seq<char>, Seq<u8>),
                    ProtocolError,
                >((text@, rest@)),
                Err(e) => decode_text(stream@) == Err::<(Seq<char>, Seq<u8>), ProtocolError>(e),
            },
    {
        let mut i: usize = 0;
        while stream.len() - i >= 2
            invariant
                i <= stream@.len(),
                first_line_end(stream@, 0) == first_line_end(stream@, i as int),
            decreases stream@.len() - i,
        {
            if stream[i] == CR && stream[i + 1] == LF {
                let text = text_of(stream, i);
                return Ok((text, slice_subrange(stream, i + 2, stream.len())));
            }
            i = i + 1;
        }
        Err(ProtocolError::Truncated)
    }

    /// Writes the value as wire bytes.
    pub fn serialize(self) -> (bytes: Vec<u8>)
        ensures
            bytes@ == encode(self@),
    {
        let mut bytes: Vec<u8> = Vec::new();
        self.serialize_into(&mut bytes);
        bytes
    }

    /// Appends the wire bytes of the value to `bytes`.
    pub fn serialize_into(&self, bytes: &mut Vec<u8>)
        ensures
            final(bytes)@ == old(bytes)@ + encode(self@),
        decreases self, 0nat,
    {
        match self {
            RespType::String(text) => Self::serialize_simple_string(
                bytes,
                TAG_STRING,
                text.as_str(),
            ),
            RespType::Error(text) => Self::serialize_simple_string(
                bytes,
                TAG_ERROR,
                text.as_str(),
            ),
            RespType::Integer(number) => Self::serialize_simple_integer(bytes, *number),
            RespType::BulkString(text) => Self::serialize_bulk_string(bytes, text.as_str()),
            RespType::Array(items) => {
                proof {
                    lemma_array_view(*items);
                }
                Self::serialize_array(bytes, items)
            },
            RespType::Null => {
                bytes.push(TAG_BULK);
                push_decimal(bytes, -1);
                bytes.push(CR);
                bytes.push(LF);
            },
        }
    }

    /// Appends `prefix`, the text and a line end.
    fn serialize_simple_string(bytes: &mut Vec<u8>, prefix: u8, text: &str)
        ensures
            final(bytes)@ == old(bytes)@ + (seq![prefix] + encode_utf8(text@) + crlf()),
    {
        bytes.push(prefix);
        push_bytes(bytes, text.as_bytes());
        bytes.push(CR);
        bytes.push(LF);
    }

    /// Appends `:`, the decimal text of `number` and a line end.
    fn serialize_simple_integer(bytes: &mut Vec<u8>, number: i64)
        ensures
            final(bytes)@ == old(bytes)@ + encode(Value::Integer(number)),
    {
        bytes.push(TAG_INTEGER);
        push_decimal(bytes, number);
        bytes.push(CR);
        bytes.push(LF);
    }

    /// Appends `$`, the byte length of the text, a line end, the text and a
    /// line end.
    fn serialize_bulk_string(bytes: &mut Vec<u8>, text: &str)
        ensures
            final(bytes)@ == old(bytes)@ + encode(Value::BulkString(text@)),
    {
        let payload = text.as_bytes();
        bytes.push(TAG_BULK);
        push_digits(bytes, payload.len() as u64);
        bytes.push(CR);
        bytes.push(LF);
        push_bytes(bytes, payload);
        bytes.push(CR);
        bytes.push(LF);
    }

    /// Appends `*`, the number of items, a line end and each item's bytes in
    /// order.
    fn serialize_array(bytes: &mut Vec<u8>, items: &Vec<RespType>)
        ensures
            final(bytes)@ == old(bytes)@ + encode(Value::Array(values_of(items@))),
        decreases items, 1nat,
    {
        bytes.push(TAG_ARRAY);
        push_digits(bytes, items.len() as u64);
        bytes.push(CR);
        bytes.push(LF);
        let ghost head = bytes@;
        let mut i: usize = 0;
        while i < items.len()
            invariant
                i <= items.len(),
                bytes@ == head + encode_all(values_of(items@).take(i as int)),
            decreases items.len() - i,
        {
            items[i].serialize_into(bytes);
            proof {
                let all = values_of(items@);
                assert(all.take(i + 1).drop_last() =~= all.take(i as int));
            }
            i = i + 1;
        }
        proof {
            let all = values_of(items@);
            assert(all.take(i as int) =~= all);
        }
    }
}

} // verus!
