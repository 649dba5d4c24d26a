//! Decoding reads the bytes of one value and no more: what it gives does not
//! depend on the bytes that follow the value.

use crate::resp::{
    decode, decode_items, decode_number, decode_text, first_cr, first_line_end,
    lemma_decode_items_rest, lemma_decode_rest, lemma_first_cr, lemma_first_line_end, line_end_at,
    ProtocolError, Value, CR, TAG_ARRAY, TAG_BULK, TAG_ERROR, TAG_INTEGER, TAG_STRING,
};
use vstd::prelude::*;

verus! {

/// The bytes of `s` that decoding took, where `rest` is what it left.
pub open spec fn taken(s: Seq<u8>, rest: Seq<u8>) -> Seq<u8> {
    s.take(s.len() - rest.len())
}

/// A line of text is read the same whatever follows its line end.
pub proof fn lemma_decode_text_frame(s: Seq<u8>, tail: Seq<u8>)
    requires
        decode_text(s) is Ok,
    ensures
        decode_text(taken(s, decode_text(s)->Ok_0.1) + tail) == Ok::<
            (Seq<char>, Seq<u8>),
            ProtocolError,
        >((decode_text(s)->Ok_0.0, tail)),
{
    let rest = decode_text(s)->Ok_0.1;
    let end = first_line_end(s, 0)->Some_0;
    lemma_first_line_end(s, 0);
    let moved = taken(s, rest) + tail;
    lemma_first_line_end(moved, 0);
    assert(line_end_at(moved, end));
    assert forall|j: int| 0 <= j < end implies !line_end_at(moved, j) by {
        assert(!line_end_at(s, j));
    }
    assert(moved.take(end) =~= s.take(end));
    assert(moved.skip(end + 2) =~= tail);
}

/// An integer field is read the same whatever follows the byte after its
/// carriage return.
pub proof fn lemma_decode_number_frame(s: Seq<u8>, tail: Seq<u8>)
    requires
        decode_number(s) is Ok,
    ensures
        decode_number(taken(s, decode_number(s)->Ok_0.1) + tail) == Ok::<
            (i64, Seq<u8>),
            ProtocolError,
        >((decode_number(s)->Ok_0.0, tail)),
{
    let rest = decode_number(s)->Ok_0.1;
    let end = first_cr(s, 0);
    lemma_first_cr(s, 0);
    let moved = taken(s, rest) + tail;
    lemma_first_cr(moved, 0);
    assert(moved[end] == CR);
    assert(moved.take(end) =~= s.take(end));
    assert(moved.skip(end + 2) =~= tail);
}

/// A value is decoded the same whatever follows its bytes.
pub proof fn lemma_decode_frame(s: Seq<u8>, tail: Seq<u8>)
    requires
        decode(s) is Ok,
    ensures
        decode(taken(s, decode(s)->Ok_0.1) + tail) == Ok::<(Value, Seq<u8>), ProtocolError>(
            (decode(s)->Ok_0.0, tail),
        ),
    decreases s.len(), 0nat,
{
    let rest = decode(s)->Ok_0.1;
    lemma_decode_rest(s);
    let moved = taken(s, rest) + tail;
    let body = s.skip(1);
    assert(moved.skip(1) =~= taken(body, rest) + tail);
    if s[0] == TAG_STRING || s[0] == TAG_ERROR {
        lemma_decode_text_frame(body, tail);
    } else if s[0] == TAG_INTEGER {
        lemma_decode_number_frame(body, tail);
    } else if s[0] == TAG_BULK {
        let (length, after) = decode_number(body)->Ok_0;
        lemma_first_cr(body, 0);
        let field = taken(body, after);
        if length < 0 {
            lemma_decode_number_frame(body, tail);
        } else {
            let payload = after.take(length + 2);
            lemma_decode_number_frame(body, payload + tail);
            assert(taken(body, rest) + tail =~= field + (payload + tail));
            assert((payload + tail).take(length as int) =~= after.take(length as int));
            assert((payload + tail).skip(length + 2) =~= tail);
        }
    } else if s[0] == TAG_ARRAY {
        let (count, after) = decode_number(body)->Ok_0;
        lemma_first_cr(body, 0);
        let field = taken(body, after);
        lemma_decode_items_rest(after, count as nat);
        lemma_decode_items_frame(after, count as nat, tail);
        let items = taken(after, rest);
        lemma_decode_number_frame(body, items + tail);
        assert(taken(body, rest) + tail =~= field + (items + tail));
    }
}

/// Values are decoded the same whatever follows their bytes.
pub proof fn lemma_decode_items_frame(s: Seq<u8>, count: nat, tail: Seq<u8>)
    requires
        decode_items(s, count) is Ok,
    ensures
        decode_items(taken(s, decode_items(s, count)->Ok_0.1) + tail, count) == Ok::<
            (Seq<Value>, Seq<u8>),
            ProtocolError,
        >((decode_items(s, count)->Ok_0.0, tail)),
    decreases s.len(), count + 1,
{
    let rest = decode_items(s, count)->Ok_0.1;
    if count > 0 {
        let after = decode(s)->Ok_0.1;
        lemma_decode_rest(s);
        lemma_decode_items_rest(after, (count - 1) as nat);
        let others = taken(after, rest);
        lemma_decode_frame(s, others + tail);
        lemma_decode_items_frame(after, (count - 1) as nat, tail);
        assert(taken(s, rest) + tail =~= taken(s, after) + (others + tail));
    }
}

} // verus!
