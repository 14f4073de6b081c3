//! The wire codec: framed protocol values with four shapes (simple string,
//! bulk string, array, null), a byte-exact serializer, and a deserializer
//! over whole-frame byte buffers.
//!
//! The grammar is written down twice: `encoded` gives the exact bytes of a
//! frame, and `decode_one` gives the value a buffer decodes to. The
//! serializer and deserializer are proved to produce exactly those, and
//! `lemma_decode_of_encoded` proves the round trip: decoding an encoded
//! well-formed frame gives the frame back.

use vstd::prelude::*;
use vstd::slice::slice_subrange;
use vstd::utf8::char_is_scalar;
use vstd::utf8::char_u32_cast;
use vstd::utf8::decode_utf8;
use vstd::utf8::encode_utf8;
use vstd::utf8::encode_utf8_decode_utf8;
use vstd::utf8::encode_utf8_valid_utf8;
use vstd::utf8::has_width_1_encoding;
use vstd::utf8::valid_utf8;

use crate::text::all_digit_bytes;
use crate::text::bytes_value;
use crate::text::convert_to_string;
use crate::text::dec_bytes;
use crate::text::lemma_bytes_value_dec_bytes;
use crate::text::lemma_dec_bytes_digits;
use crate::text::parse_dec_bytes;
use crate::text::usize_to_dec_bytes;

verus! {

/// A protocol value: one frame on the wire.
#[derive(Debug, PartialEq)]
pub enum Value {
    SimpleString(String),
    BulkString(String),
    Array(Vec<Value>),
    Null,
}

/// The mathematical shape of a [`Value`].
pub enum ValueModel {
    SimpleString(Seq<char>),
    BulkString(Seq<char>),
    Array(Seq<ValueModel>),
    Null,
}

pub open spec fn value_model(v: Value) -> ValueModel
    decreases v,
{
    match v {
        Value::SimpleString(s) => ValueModel::SimpleString(s@),
        Value::BulkString(s) => ValueModel::BulkString(s@),
        Value::Array(arr) => ValueModel::Array(seq_models(arr@)),
        Value::Null => ValueModel::Null,
    }
}

pub open spec fn seq_models(s: Seq<Value>) -> Seq<ValueModel>
    decreases s,
{
    if s.len() == 0 {
        Seq::empty()
    } else {
        seq_models(s.drop_last()).push(value_model(s.last()))
    }
}

impl View for Value {
    type V = ValueModel;

    open spec fn view(&self) -> ValueModel {
        value_model(*self)
    }
}

pub proof fn lemma_seq_models(s: Seq<Value>)
    ensures
        seq_models(s).len() == s.len(),
        forall|i: int| 0 <= i < s.len() ==> seq_models(s)[i] == value_model(#[trigger] s[i]),
    decreases s.len(),
{
    if s.len() > 0 {
        lemma_seq_models(s.drop_last());
        assert forall|i: int| 0 <= i < s.len() implies seq_models(s)[i] == value_model(
            #[trigger] s[i],
        ) by {
            if i < s.len() - 1 {
                assert(seq_models(s.drop_last())[i] == value_model(s.drop_last()[i]));
                assert(s.drop_last()[i] == s[i]);
            } else {
                assert(s.last() == s[i]);
            }
        }
    }
}

pub proof fn lemma_seq_models_push(s: Seq<Value>, v: Value)
    ensures
        seq_models(s.push(v)) == seq_models(s).push(value_model(v)),
{
    assert(s.push(v).drop_last() =~= s);
    assert(s.push(v).last() == v);
}

/// Well-formedness under the wire grammar: a simple string carries no
/// carriage return or line feed, and length fields fit the machine.
pub open spec fn wf(m: ValueModel) -> bool
    decreases m,
{
    match m {
        ValueModel::SimpleString(s) => !s.contains('\r') && !s.contains('\n'),
        ValueModel::BulkString(s) => encode_utf8(s).len() <= usize::MAX,
        ValueModel::Array(elems) => elems.len() <= usize::MAX && wf_list(elems),
        ValueModel::Null => true,
    }
}

pub open spec fn wf_list(elems: Seq<ValueModel>) -> bool
    decreases elems,
{
    if elems.len() == 0 {
        true
    } else {
        wf(elems[0]) && wf_list(elems.drop_first())
    }
}

pub open spec fn crlf() -> Seq<u8> {
    seq![13u8, 10u8]
}

/// The exact bytes of a frame on the wire.
pub open spec fn encoded(m: ValueModel) -> Seq<u8>
    decreases m,
{
    match m {
        ValueModel::SimpleString(s) => seq![43u8] + encode_utf8(s) + crlf(),
        ValueModel::BulkString(s) => seq![36u8] + dec_bytes(encode_utf8(s).len()) + crlf()
            + encode_utf8(s) + crlf(),
        ValueModel::Array(elems) => seq![42u8] + dec_bytes(elems.len()) + crlf() + encoded_list(
            elems,
        ),
        ValueModel::Null => seq![36u8, 45u8, 49u8, 13u8, 10u8],
    }
}

pub open spec fn encoded_list(elems: Seq<ValueModel>) -> Seq<u8>
    decreases elems,
{
    if elems.len() == 0 {
        Seq::empty()
    } else {
        encoded(elems[0]) + encoded_list(elems.drop_first())
    }
}

/// The index of the first carriage return at or after `pos`, or the length
/// of the buffer if there is none.
pub open spec fn first_cr(b: Seq<u8>, pos: int) -> int
    decreases b.len() - pos,
        when 0 <= pos <= b.len()
{
    if pos >= b.len() {
        b.len() as int
    } else if b[pos] == 13 {
        pos
    } else {
        first_cr(b, pos + 1)
    }
}

/// A header line: the bytes up to the first carriage return, which must be
/// followed by a line feed. A carriage return not followed by a line feed,
/// or a line that never ends, is a failure.
pub open spec fn parse_line(b: Seq<u8>, pos: int) -> Option<(Seq<u8>, int)> {
    if !(0 <= pos <= b.len()) {
        Option::None
    } else {
        let i = first_cr(b, pos);
        if i + 1 < b.len() && b[i + 1] == 10 {
            Option::Some((b.subrange(pos, i), i + 2))
        } else {
            Option::None
        }
    }
}

/// A header line holding a decimal count that fits the machine.
pub open spec fn parse_count(b: Seq<u8>, pos: int) -> Option<(nat, int)> {
    match parse_line(b, pos) {
        Option::None => Option::None,
        Option::Some((t, end)) => if t.len() > 0 && all_digit_bytes(t) && bytes_value(t)
            <= usize::MAX {
            Option::Some((bytes_value(t), end))
        } else {
            Option::None
        },
    }
}

/// The value decoded from `b` at `pos`, with the position just past it.
/// Dispatches on the type tag; an empty buffer or an unknown tag fails.
pub open spec fn decode_one(b: Seq<u8>, pos: int) -> Option<(ValueModel, int)>
    decreases b.len() - pos, 0int,
        when 0 <= pos <= b.len()
{
    if pos >= b.len() {
        Option::None
    } else {
        let tag = b[pos];
        if tag == 43 {
            match parse_line(b, pos + 1) {
                Option::None => Option::None,
                Option::Some((t, end)) => if valid_utf8(t) {
                    Option::Some((ValueModel::SimpleString(decode_utf8(t)), end))
                } else {
                    Option::None
                },
            }
        } else if tag == 36 {
            match parse_line(b, pos + 1) {
                Option::None => Option::None,
                Option::Some((t, end)) => if t == seq![45u8, 49u8] {
                    Option::Some((ValueModel::Null, end))
                } else if t.len() > 0 && all_digit_bytes(t) && bytes_value(t) <= usize::MAX {
                    let n = bytes_value(t);
                    if end + n + 2 <= b.len() && b[end + n] == 13 && b[end + n + 1] == 10
                        && valid_utf8(b.subrange(end, end + n)) {
                        Option::Some(
                            (ValueModel::BulkString(decode_utf8(b.subrange(end, end + n))), end + n
                                + 2),
                        )
                    } else {
                        Option::None
                    }
                } else {
                    Option::None
                },
            }
        } else if tag == 42 {
            match parse_count(b, pos + 1) {
                Option::None => Option::None,
                Option::Some((n, end)) => if pos < end <= b.len() {
                    match decode_list(b, end, n) {
                        Option::None => Option::None,
                        Option::Some((elems, end2)) => Option::Some(
                            (ValueModel::Array(elems), end2),
                        ),
                    }
                } else {
                    Option::None
                },
            }
        } else {
            Option::None
        }
    }
}

/// `n` consecutive values decoded from `b` at `pos`.
pub open spec fn decode_list(b: Seq<u8>, pos: int, n: nat) -> Option<(Seq<ValueModel>, int)>
    decreases b.len() - pos, n,
        when 0 <= pos <= b.len()
{
    if n == 0 {
        Option::Some((Seq::empty(), pos))
    } else {
        match decode_one(b, pos) {
            Option::None => Option::None,
            Option::Some((m, end)) => if pos < end <= b.len() {
                match decode_list(b, end, (n - 1) as nat) {
                    Option::None => Option::None,
                    Option::Some((rest, end2)) => Option::Some((seq![m] + rest, end2)),
                }
            } else {
                Option::None
            },
        }
    }
}

/// The first frame decoded from a whole buffer.
pub open spec fn decode(b: Seq<u8>) -> Option<(ValueModel, int)> {
    decode_one(b, 0)
}

proof fn lemma_first_cr_is(b: Seq<u8>, pos: int, i: int)
    requires
        0 <= pos <= i <= b.len(),
        forall|j: int| pos <= j < i ==> b[j] != 13,
        i == b.len() || b[i] == 13,
    ensures
        first_cr(b, pos) == i,
    decreases i - pos,
{
    if pos < i {
        lemma_first_cr_is(b, pos + 1, i);
    }
}

/// No byte below 128 appears in the UTF-8 encoding of a sequence unless
/// the corresponding ASCII character appears in the sequence.
proof fn lemma_utf8_no_byte(s: Seq<char>, x: u8)
    requires
        x < 128,
        forall|j: int| 0 <= j < s.len() ==> #[trigger] s[j] != x as char,
    ensures
        forall|i: int|
            0 <= i < encode_utf8(s).len() ==> #[trigger] encode_utf8(s)[i] != x,
    decreases s.len(),
{
    if s.len() > 0 {
        let c = s[0];
        let u = c as u32;
        char_is_scalar(c);
        assert(forall|j: int|
            0 <= j < s.drop_first().len() ==> #[trigger] s.drop_first()[j] != x as char);
        lemma_utf8_no_byte(s.drop_first(), x);
        let xc = x as char;
        assert(xc as u32 == x as u32);
        if u == x as u32 {
            char_u32_cast(c, u);
            char_u32_cast(xc, u);
            assert(false);
        }
        let head = vstd::utf8::encode_scalar(u);
        assert(forall|i: int| 0 <= i < head.len() ==> #[trigger] head[i] != x) by {
            if has_width_1_encoding(u) {
                assert((u & 0x7F) as u8 != x) by (bit_vector)
                    requires
                        u <= 0x7F,
                        x < 128,
                        u != x as u32,
                ;
            } else {
                assert((0xC0 | ((u >> 6) & 0x1F) as u8) >= 0x80 && (0x80 | (u & 0x3F) as u8)
                    >= 0x80 && (0xE0 | ((u >> 12) & 0x0F) as u8) >= 0x80 && (0xF0 | ((u >> 18)
                    & 0x7) as u8) >= 0x80 && (0x80 | ((u >> 6) & 0x3F) as u8) >= 0x80 && (0x80 | ((u
                    >> 12) & 0x3F) as u8) >= 0x80) by (bit_vector);
            }
        }
        assert(encode_utf8(s) == head + encode_utf8(s.drop_first()));
        assert(forall|i: int|
            0 <= i < encode_utf8(s).len() ==> #[trigger] encode_utf8(s)[i] != x) by {
            assert(forall|i: int|
                0 <= i < encode_utf8(s).len() ==> encode_utf8(s)[i] == (head + encode_utf8(
                    s.drop_first(),
                ))[i]);
        }
    }
}

/// A well-formed frame placed at `pos` in a buffer decodes to itself, with
/// the position just past it: the round trip of the codec.
pub proof fn lemma_decode_of_encoded(m: ValueModel, b: Seq<u8>, pos: int)
    requires
        wf(m),
        0 <= pos,
        pos + encoded(m).len() <= b.len(),
        b.subrange(pos, pos + encoded(m).len()) == encoded(m),
    ensures
        decode_one(b, pos) == Option::Some((m, pos + encoded(m).len())),
    decreases m, 0int,
{
    let e = encoded(m);
    assert(forall|i: int| 0 <= i < e.len() ==> b[pos + i] == #[trigger] e[i]) by {
        assert(forall|i: int|
            0 <= i < e.len() ==> #[trigger] b[pos + i] == b.subrange(pos, pos + e.len())[i]);
    }
    match m {
        ValueModel::Null => {
            assert(e[0] == 36 && e[1] == 45 && e[2] == 49 && e[3] == 13 && e[4] == 10);
            assert(b[pos] == 36);
            assert(b[pos + 1] == 45 && b[pos + 2] == 49 && b[pos + 3] == 13 && b[pos + 4] == 10);
            lemma_first_cr_is(b, pos + 1, pos + 3);
            let t = b.subrange(pos + 1, pos + 3);
            assert(t =~= seq![45u8, 49u8]);
            assert(parse_line(b, pos + 1) == Option::Some((t, pos + 5)));
        },
        ValueModel::SimpleString(s) => {
            let u = encode_utf8(s);
            assert(e[0] == 43);
            assert(b[pos + 0] == e[0]);
            assert(b[pos] == 43);
            assert(forall|j: int| 0 <= j < s.len() ==> #[trigger] s[j] != '\r') by {
                assert(forall|j: int| 0 <= j < s.len() ==> s.contains(s[j]));
            }
            assert(13u8 as char == '\r');
            lemma_utf8_no_byte(s, 13);
            assert(forall|j: int| pos + 1 <= j < pos + 1 + u.len() ==> #[trigger] b[j] != 13) by {
                assert(forall|j: int|
                    pos + 1 <= j < pos + 1 + u.len() ==> b[j] == e[j - pos] && e[j - pos] == u[j
                        - pos - 1]);
            }
            assert(e[1 + u.len() as int] == 13 && e[2 + u.len() as int] == 10);
            assert(b[pos + (1 + u.len())] == 13 && b[pos + (2 + u.len())] == 10);
            assert(b[pos + 1 + u.len()] == 13 && b[pos + 2 + u.len()] == 10);
            lemma_first_cr_is(b, pos + 1, pos + 1 + u.len());
            let t = b.subrange(pos + 1, pos + 1 + u.len());
            assert(e == seq![43u8] + encode_utf8(s) + crlf());
            assert forall|j: int| 0 <= j < u.len() implies t[j] == u[j] by {
                assert(b[pos + (1 + j)] == e[1 + j]);
                assert(e[1 + j] == u[j]);
            }
            assert(t =~= u);
            assert(parse_line(b, pos + 1) == Option::Some((t, pos + 3 + u.len())));
            encode_utf8_valid_utf8(s);
            encode_utf8_decode_utf8(s);
            assert(decode_one(b, pos) == Option::Some(
                (ValueModel::SimpleString(s), pos + e.len()),
            ));
        },
        ValueModel::BulkString(s) => {
            let u = encode_utf8(s);
            let d = dec_bytes(u.len());
            lemma_dec_bytes_digits(u.len());
            lemma_bytes_value_dec_bytes(u.len());
            assert(e == seq![36u8] + d + crlf() + u + crlf());
            assert(e[0] == 36);
            assert(b[pos + 0] == e[0]);
            assert(b[pos] == 36);
            assert(forall|j: int| pos + 1 <= j < pos + 1 + d.len() ==> #[trigger] b[j] != 13) by {
                assert(forall|j: int|
                    pos + 1 <= j < pos + 1 + d.len() ==> b[j] == e[j - pos] && e[j - pos] == d[j
                        - pos - 1]);
            }
            assert(e[1 + d.len() as int] == 13 && e[2 + d.len() as int] == 10);
            assert(b[pos + (1 + d.len())] == 13 && b[pos + (2 + d.len())] == 10);
            assert(b[pos + 1 + d.len()] == 13 && b[pos + 2 + d.len()] == 10);
            lemma_first_cr_is(b, pos + 1, pos + 1 + d.len());
            let t = b.subrange(pos + 1, pos + 1 + d.len());
            assert forall|j: int| 0 <= j < d.len() implies t[j] == d[j] by {
                assert(b[pos + (1 + j)] == e[1 + j]);
                assert(e[1 + j] == d[j]);
            }
            assert(t =~= d);
            let hdr_end = pos + 3 + d.len();
            assert(parse_line(b, pos + 1) == Option::Some((t, hdr_end)));
            assert(t != seq![45u8, 49u8]) by {
                assert(crate::text::is_digit_byte(t[0]));
            }
            assert(bytes_value(t) == u.len());
            let n = u.len() as int;
            assert forall|j: int| 0 <= j < n implies b.subrange(hdr_end, hdr_end + n)[j] == u[j] by {
                assert(b[pos + (3 + d.len() + j)] == e[3 + d.len() + j]);
                assert(e[3 + d.len() + j] == u[j]);
            }
            assert(b.subrange(hdr_end, hdr_end + n) =~= u);
            assert(e[3 + d.len() + n] == 13 && e[4 + d.len() + n] == 10);
            assert(b[pos + (3 + d.len() + n)] == 13 && b[pos + (4 + d.len() + n)] == 10);
            assert(b[hdr_end + n] == 13 && b[hdr_end + n + 1] == 10);
            encode_utf8_valid_utf8(s);
            encode_utf8_decode_utf8(s);
            assert(decode_one(b, pos) == Option::Some((ValueModel::BulkString(s), pos + e.len())));
        },
        ValueModel::Array(elems) => {
            let d = dec_bytes(elems.len());
            lemma_dec_bytes_digits(elems.len());
            lemma_bytes_value_dec_bytes(elems.len());
            assert(e == seq![42u8] + d + crlf() + encoded_list(elems));
            assert(e[0] == 42);
            assert(b[pos + 0] == e[0]);
            assert(b[pos] == 42);
            assert(forall|j: int| pos + 1 <= j < pos + 1 + d.len() ==> #[trigger] b[j] != 13) by {
                assert(forall|j: int|
                    pos + 1 <= j < pos + 1 + d.len() ==> b[j] == e[j - pos] && e[j - pos] == d[j
                        - pos - 1]);
            }
            assert(e[1 + d.len() as int] == 13 && e[2 + d.len() as int] == 10);
            assert(b[pos + (1 + d.len())] == 13 && b[pos + (2 + d.len())] == 10);
            assert(b[pos + 1 + d.len()] == 13 && b[pos + 2 + d.len()] == 10);
            lemma_first_cr_is(b, pos + 1, pos + 1 + d.len());
            let t = b.subrange(pos + 1, pos + 1 + d.len());
            assert forall|j: int| 0 <= j < d.len() implies t[j] == d[j] by {
                assert(b[pos + (1 + j)] == e[1 + j]);
                assert(e[1 + j] == d[j]);
            }
            assert(t =~= d);
            let hdr_end = pos + 3 + d.len();
            assert(parse_count(b, pos + 1) == Option::Some((elems.len(), hdr_end)));
            let ll = encoded_list(elems).len() as int;
            assert forall|j: int|
                0 <= j < ll implies b.subrange(hdr_end, hdr_end + ll)[j] == encoded_list(elems)[j]
            by {
                assert(b[pos + (3 + d.len() + j)] == e[3 + d.len() + j]);
                assert(e[3 + d.len() + j] == encoded_list(elems)[j]);
            }
            assert(b.subrange(hdr_end, hdr_end + ll) =~= encoded_list(elems));
            lemma_decode_list_of_encoded(elems, b, hdr_end);
            assert(decode_one(b, pos) == Option::Some((ValueModel::Array(elems), pos + e.len())));
        },
    }
}

pub proof fn lemma_decode_list_of_encoded(elems: Seq<ValueModel>, b: Seq<u8>, pos: int)
    requires
        wf_list(elems),
        0 <= pos,
        pos + encoded_list(elems).len() <= b.len(),
        b.subrange(pos, pos + encoded_list(elems).len()) == encoded_list(elems),
    ensures
        decode_list(b, pos, elems.len()) == Option::Some(
            (elems, pos + encoded_list(elems).len()),
        ),
    decreases elems, 1int,
{
    if elems.len() == 0 {
        assert(elems =~= Seq::<ValueModel>::empty());
    } else {
        let first = elems[0];
        let e0 = encoded(first);
        let rest = elems.drop_first();
        let el = encoded_list(elems);
        assert(el == e0 + encoded_list(rest));
        assert(forall|i: int| 0 <= i < el.len() ==> b[pos + i] == #[trigger] el[i]) by {
            assert(forall|i: int|
                0 <= i < el.len() ==> #[trigger] b[pos + i] == b.subrange(pos, pos + el.len())[i]);
        }
        assert forall|j: int| 0 <= j < e0.len() implies b.subrange(pos, pos + e0.len() as int)[j]
            == e0[j] by {
            assert(b[pos + j] == el[j]);
            assert(el[j] == e0[j]);
        }
        assert(b.subrange(pos, pos + e0.len() as int) =~= e0);
        lemma_decode_of_encoded(first, b, pos);
        lemma_encoded_nonempty(first);
        let mid = pos + e0.len();
        let rl = encoded_list(rest).len() as int;
        assert forall|j: int| 0 <= j < rl implies b.subrange(mid, mid + rl)[j] == encoded_list(
            rest,
        )[j] by {
            assert(b[pos + (e0.len() + j)] == el[e0.len() + j]);
            assert(el[e0.len() + j] == encoded_list(rest)[j]);
        }
        assert(b.subrange(mid, mid + rl) =~= encoded_list(rest));
        lemma_decode_list_of_encoded(rest, b, mid);
        assert(seq![first] + rest =~= elems);
    }
}

proof fn lemma_encoded_nonempty(m: ValueModel)
    ensures
        encoded(m).len() >= 3,
{
}

/// Decoding a whole encoded well-formed frame gives the frame back and
/// consumes the buffer exactly.
pub proof fn lemma_round_trip(m: ValueModel)
    requires
        wf(m),
    ensures
        decode(encoded(m)) == Option::Some((m, encoded(m).len() as int)),
{
    let e = encoded(m);
    assert(e.subrange(0, e.len() as int) =~= e);
    lemma_decode_of_encoded(m, e, 0);
}

fn push_bytes(out: &mut Vec<u8>, src: &[u8])
    ensures
        final(out)@ == old(out)@ + src@,
{
    out.extend_from_slice(src);
}

proof fn lemma_encoded_list_snoc(s: Seq<ValueModel>, x: ValueModel)
    ensures
        encoded_list(s.push(x)) == encoded_list(s) + encoded(x),
    decreases s.len(),
{
    if s.len() == 0 {
        assert(s.push(x)[0] == x);
        assert(s.push(x).drop_first() =~= Seq::<ValueModel>::empty());
        assert(encoded_list(Seq::<ValueModel>::empty()) =~= Seq::<u8>::empty());
        assert(encoded_list(s.push(x)) =~= encoded(x));
        assert(encoded_list(s) + encoded(x) =~= encoded(x));
    } else {
        assert(s.push(x)[0] == s[0]);
        assert(s.push(x).drop_first() =~= s.drop_first().push(x));
        lemma_encoded_list_snoc(s.drop_first(), x);
        assert(encoded_list(s.push(x)) == encoded(s[0]) + (encoded_list(s.drop_first()) + encoded(
            x,
        )));
        assert(encoded(s[0]) + (encoded_list(s.drop_first()) + encoded(x)) =~= (encoded(s[0])
            + encoded_list(s.drop_first())) + encoded(x));
    }
}

impl Value {
    /// The exact wire bytes of this frame.
    #[verifier::loop_isolation(false)]
    pub fn serialize(&self) -> (r: Vec<u8>)
        ensures
            r@ == encoded(self@),
        decreases *self,
    {
        match self {
            Value::SimpleString(s) => {
                let mut out: Vec<u8> = Vec::new();
                out.push(43);
                push_bytes(&mut out, s.as_str().as_bytes());
                out.push(13);
                out.push(10);
                proof {
                    assert(out@ =~= encoded(self@));
                }
                out
            },
            Value::BulkString(s) => {
                let bytes = s.as_str().as_bytes();
                let mut out: Vec<u8> = Vec::new();
                out.push(36);
                let digits = usize_to_dec_bytes(bytes.len());
                push_bytes(&mut out, digits.as_slice());
                out.push(13);
                out.push(10);
                push_bytes(&mut out, bytes);
                out.push(13);
                out.push(10);
                proof {
                    assert(out@ =~= encoded(self@));
                }
                out
            },
            Value::Array(arr) => {
                let mut out: Vec<u8> = Vec::new();
                out.push(42);
                let digits = usize_to_dec_bytes(arr.len());
                push_bytes(&mut out, digits.as_slice());
                out.push(13);
                out.push(10);
                let ghost header = out@;
                let ghost models = seq_models(arr@);
                proof {
                    lemma_seq_models(arr@);
                    assert(models.take(0) =~= Seq::<ValueModel>::empty());
                }
                let n = arr.len();
                let mut i: usize = 0;
                while i < n
                    invariant
                        0 <= i <= n,
                        n == arr@.len(),
                        out@ == header + encoded_list(models.take(i as int)),
                    decreases n - i,
                {
                    let piece = (&arr[i]).serialize();
                    push_bytes(&mut out, piece.as_slice());
                    proof {
                        assert(models.take(i + 1) =~= models.take(i as int).push(models[i as int]));
                        lemma_encoded_list_snoc(models.take(i as int), models[i as int]);
                    }
                    i += 1;
                }
                proof {
                    assert(models.take(n as int) =~= models);
                    assert(out@ =~= encoded(self@));
                }
                out
            },
            Value::Null => {
                let mut out: Vec<u8> = Vec::new();
                out.push(36);
                out.push(45);
                out.push(49);
                out.push(13);
                out.push(10);
                proof {
                    assert(out@ =~= encoded(self@));
                }
                out
            },
        }
    }

    /// The first frame decoded from a whole buffer, with the index just
    /// past it; a malformed buffer gives nothing.
    pub fn deserialize(buf: &[u8]) -> (r: Option<(Value, usize)>)
        ensures
            (r is Some) <==> decode(buf@) is Some,
            r matches Some((v, end)) ==> (decode(buf@) matches Some((m, e)) && v@ == m && end == e),
    {
        Self::deserialize_at(buf, 0)
    }

    /// The frame decoded at `pos`, mirroring `decode_one` exactly.
    fn deserialize_at(buf: &[u8], pos: usize) -> (r: Option<(Value, usize)>)
        requires
            pos <= buf@.len(),
        ensures
            (r is Some) <==> decode_one(buf@, pos as int) is Some,
            r matches Some((v, end)) ==> (decode_one(buf@, pos as int) matches Some((m, e)) && v@
                == m && end == e && pos < end <= buf@.len()),
        decreases buf@.len() - pos, 1int,
    {
        if pos >= buf.len() {
            return None;
        }
        let tag = buf[pos];
        if tag == 43 {
            Self::parse_simple_string(buf, pos)
        } else if tag == 36 {
            Self::parse_bulk_string(buf, pos)
        } else if tag == 42 {
            Self::parse_array(buf, pos)
        } else {
            None
        }
    }

    /// The byte range of the header line starting at `pos`: the index of
    /// its carriage return and the index just past the line feed.
    fn split_on_next_crlf(buf: &[u8], pos: usize) -> (r: Option<(usize, usize)>)
        requires
            pos <= buf@.len(),
        ensures
            (r is Some) <==> parse_line(buf@, pos as int) is Some,
            r matches Some((cr, end)) ==> (parse_line(buf@, pos as int) matches Some((t, e)) && t
                == buf@.subrange(pos as int, cr as int) && end == e && pos <= cr && cr + 2 == end
                && end <= buf@.len()),
    {
        let n = buf.len();
        let mut i: usize = pos;
        while i < n
            invariant
                pos <= i <= n,
                n == buf@.len(),
                forall|j: int| pos <= j < i ==> buf@[j] != 13,
            decreases n - i,
        {
            if buf[i] == 13 {
                proof {
                    lemma_first_cr_is(buf@, pos as int, i as int);
                }
                if i + 1 < n && buf[i + 1] == 10 {
                    return Some((i, i + 2));
                } else {
                    return None;
                }
            }
            i += 1;
        }
        proof {
            lemma_first_cr_is(buf@, pos as int, n as int);
        }
        None
    }

    /// A simple-string frame: `+`, the text, then the line end.
    fn parse_simple_string(buf: &[u8], pos: usize) -> (r: Option<(Value, usize)>)
        requires
            pos < buf@.len(),
            buf@[pos as int] == 43,
        ensures
            (r is Some) <==> decode_one(buf@, pos as int) is Some,
            r matches Some((v, end)) ==> (decode_one(buf@, pos as int) matches Some((m, e)) && v@
                == m && end == e && pos < end <= buf@.len()),
    {
        let total = buf.len();
        match Self::split_on_next_crlf(buf, pos + 1) {
            None => None,
            Some((cr, end)) => {
                let token = slice_subrange(buf, pos + 1, cr);
                match convert_to_string(token) {
                    None => None,
                    Some(s) => Some((Value::SimpleString(s), end)),
                }
            },
        }
    }

    /// A bulk-string frame: `$`, a length or `-1`, then the payload.
    fn parse_bulk_string(buf: &[u8], pos: usize) -> (r: Option<(Value, usize)>)
        requires
            pos < buf@.len(),
            buf@[pos as int] == 36,
        ensures
            (r is Some) <==> decode_one(buf@, pos as int) is Some,
            r matches Some((v, end)) ==> (decode_one(buf@, pos as int) matches Some((m, e)) && v@
                == m && end == e && pos < end <= buf@.len()),
    {
        let total = buf.len();
        let (cr, end) = match Self::split_on_next_crlf(buf, pos + 1) {
            None => {
                return None;
            },
            Some(x) => x,
        };
        let ghost t = buf@.subrange(pos + 1, cr as int);
        if cr == pos + 3 && buf[pos + 1] == 45 && buf[pos + 2] == 49 {
            proof {
                assert(t =~= seq![45u8, 49u8]);
            }
            return Some((Value::Null, end));
        }
        proof {
            if t == seq![45u8, 49u8] {
                assert(buf@[pos + 1] == t[0] && buf@[pos + 2] == t[1]);
                assert(cr == pos + 3);
                assert(false);
            }
        }
        let n = match parse_dec_bytes(buf, pos + 1, cr) {
            None => {
                return None;
            },
            Some(n) => n,
        };
        let rem = buf.len() - end;
        if n > rem {
            return None;
        }
        if rem - n < 2 {
            return None;
        }
        if !(buf[end + n] == 13 && buf[end + n + 1] == 10) {
            return None;
        }
        let payload = slice_subrange(buf, end, end + n);
        match convert_to_string(payload) {
            None => None,
            Some(s) => Some((Value::BulkString(s), end + n + 2)),
        }
    }

    /// An array frame: `*`, a count, then that many frames in sequence.
    #[verifier::loop_isolation(false)]
    fn parse_array(buf: &[u8], pos: usize) -> (r: Option<(Value, usize)>)
        requires
            pos < buf@.len(),
            buf@[pos as int] == 42,
        ensures
            (r is Some) <==> decode_one(buf@, pos as int) is Some,
            r matches Some((v, end)) ==> (decode_one(buf@, pos as int) matches Some((m, e)) && v@
                == m && end == e && pos < end <= buf@.len()),
        decreases buf@.len() - pos, 0int,
    {
        let total = buf.len();
        let (cr, e0) = match Self::split_on_next_crlf(buf, pos + 1) {
            None => {
                return None;
            },
            Some(x) => x,
        };
        let n = match parse_dec_bytes(buf, pos + 1, cr) {
            None => {
                return None;
            },
            Some(n) => n,
        };
        let ghost b = buf@;
        proof {
            assert(parse_count(b, pos + 1) == Option::Some((n as nat, e0 as int)));
        }
        let mut elems: Vec<Value> = Vec::new();
        let mut cur: usize = e0;
        let mut k: usize = 0;
        proof {
            lemma_seq_models(elems@);
            assert(seq_models(elems@) =~= Seq::<ValueModel>::empty());
        }
        while k < n
            invariant
                0 <= k <= n,
                pos < e0 <= cur <= b.len(),
                b == buf@,
                elems@.len() == k,
                (decode_list(b, e0 as int, n as nat) is Some) == (decode_list(
                    b,
                    cur as int,
                    (n - k) as nat,
                ) is Some),
                decode_list(b, e0 as int, n as nat) matches Some((all_m, end_all)) ==> (
                decode_list(b, cur as int, (n - k) as nat) matches Some((rest, end_r)) && all_m
                    == seq_models(elems@) + rest && end_all == end_r),
            decreases n - k,
        {
            let ghost sub = (n - k) as nat;
            match Self::deserialize_at(buf, cur) {
                None => {
                    proof {
                        assert(decode_list(b, cur as int, sub) is None);
                    }
                    return None;
                },
                Some((v, end)) => {
                    proof {
                        let m = value_model(v);
                        assert(decode_one(b, cur as int) == Option::Some((m, end as int)));
                        assert(decode_list(b, cur as int, sub) matches Some((r1, e1)) ==> (
                        decode_list(b, end as int, (sub - 1) as nat) matches Some((r2, e2)) && r1
                            == seq![m] + r2 && e1 == e2));
                        assert(decode_list(b, end as int, (sub - 1) as nat) matches Some((r2, e2))
                            ==> decode_list(b, cur as int, sub) matches Some((r1, e1)) && r1
                            == seq![m] + r2 && e1 == e2);
                        lemma_seq_models_push(elems@, v);
                        let full = decode_list(b, e0 as int, n as nat);
                        let after = decode_list(b, end as int, (sub - 1) as nat);
                        if full is Some && after is Some {
                            let r2 = after->Some_0.0;
                            assert(full->Some_0.0 == seq_models(elems@) + (seq![m] + r2));
                            assert(seq_models(elems@) + (seq![m] + r2) =~= seq_models(
                                elems@.push(v),
                            ) + r2);
                        }
                    }
                    elems.push(v);
                    cur = end;
                    k += 1;
                },
            }
        }
        proof {
            assert(decode_list(b, cur as int, 0) == Option::Some(
                (Seq::<ValueModel>::empty(), cur as int),
            ));
            let full = decode_list(b, e0 as int, n as nat);
            if full is Some {
                assert(full->Some_0.0 =~= seq_models(elems@));
            }
            assert(decode_one(b, pos as int) matches Some((m, e)) && m == ValueModel::Array(
                seq_models(elems@),
            ) && e == cur as int);
        }
        Some((Value::Array(elems), cur))
    }
}

} // verus!
