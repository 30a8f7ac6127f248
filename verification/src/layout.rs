//! The wire format, byte by byte and field by field: where each part of a value
//! stands in what is written, and which part of what is read each value comes from.

use vstd::prelude::*;
use vstd::utf8::{decode_utf8, encode_utf8, valid_utf8};

use crate::error::CodecError;
use crate::laws::{
    lemma_string_read_alike, lemma_strings_read_alike, lemma_varint_read_alike, string_roundtrip,
    tuple_roundtrip, varint_roundtrip,
};
use crate::text::{utf8_error_len, utf8_valid_up_to};
use crate::wire::{
    be_bytes, be_value, lemma_parse_strings_stuck, lemma_varint_bytes_len, parse_string,
    parse_strings, parse_tuple, parse_varint, string_bytes, strings_bytes, tuple_bytes,
    varint_bytes, Parsed,
};

verus! {

/// Two bytes spell a number, the first the higher digit. Further digits are left out.
pub proof fn two_bytes_layout(v: nat)
    ensures
        be_bytes(v, 2) == seq![(v / 256 % 256) as u8, (v % 256) as u8],
{
    reveal_with_fuel(be_bytes, 3);
    assert(be_bytes(v, 2) =~= seq![(v / 256 % 256) as u8, (v % 256) as u8]);
}

/// Of two bytes that spell a number the first is the higher digit.
pub proof fn two_bytes_reading(s: Seq<u8>)
    requires
        s.len() == 2,
    ensures
        be_value(s) == s[0] * 256 + s[1],
{
    reveal_with_fuel(be_value, 3);
    assert(s.drop_last().drop_last() =~= Seq::<u8>::empty());
}

/// A number is written in the fewest of 1, 2, 4 or 8 bytes that hold it in all but
/// their two top bits, which tell the length; the other bits spell it, the most
/// significant first.
pub proof fn varint_layout(v: u64)
    requires
        v <= 4611686018427387903,
    ensures
        ({
            let b = varint_bytes(v);
            &&& v < 64 ==> b.len() == 1 && b[0] == v
            &&& 64 <= v < 16384 ==> b.len() == 2 && b[0] / 64 == 1 && v == b[0] % 64 * 256 + b[1]
            &&& 16384 <= v < 1073741824 ==> b.len() == 4 && b[0] / 64 == 2 && v == b[0] % 64
                * 16777216 + b[1] * 65536 + b[2] * 256 + b[3]
            &&& 1073741824 <= v ==> b.len() == 8 && b[0] / 64 == 3 && v == b[0] % 64
                * 72057594037927936 + b[1] * 281474976710656 + b[2] * 1099511627776 + b[3]
                * 4294967296 + b[4] * 16777216 + b[5] * 65536 + b[6] * 256 + b[7]
        }),
{
    let b = varint_bytes(v);
    varint_roundtrip(v, Seq::empty());
    assert(b + Seq::<u8>::empty() =~= b);
    lemma_varint_bytes_len(v);
    crate::laws::varint_length_table(v);
    varint_reading(b);
}

/// Whoever wrote it, a number is read from as many bytes as the two top bits of the
/// first announce: 1, 2, 4 or 8. Their other bits spell it, the most significant
/// first, and what comes behind them is left. If fewer are there, nothing is read.
pub proof fn varint_reading(s: Seq<u8>)
    ensures
        s.len() == 0 ==> parse_varint(s) == (Parsed::<u64> {
            outcome: Err(CodecError::VarIntMissing),
            rest: s,
        }),
        s.len() > 0 ==> {
            let n: int = if s[0] / 64 == 0 {
                1
            } else if s[0] / 64 == 1 {
                2
            } else if s[0] / 64 == 2 {
                4
            } else {
                8
            };
            &&& s.len() < n ==> parse_varint(s) == (Parsed::<u64> {
                outcome: Err(CodecError::VarIntTruncated(n as u64)),
                rest: s,
            })
            &&& s.len() >= n ==> parse_varint(s).rest == s.skip(n)
            &&& s.len() >= n ==> (parse_varint(s).outcome matches Ok(v) && {
                &&& n == 1 ==> v == s[0]
                &&& n == 2 ==> v == s[0] % 64 * 256 + s[1]
                &&& n == 4 ==> v == s[0] % 64 * 16777216 + s[1] * 65536 + s[2] * 256 + s[3]
                &&& n == 8 ==> v == s[0] % 64 * 72057594037927936 + s[1] * 281474976710656 + s[2]
                    * 1099511627776 + s[3] * 4294967296 + s[4] * 16777216 + s[5] * 65536 + s[6]
                    * 256 + s[7]
            })
        },
{
    reveal(parse_varint);
    if s.len() > 0 {
        let n = crate::wire::varint_announced(s[0]) as int;
        if s.len() >= n {
            let masked = s.take(n).update(0, s[0] % 64);
            reveal_with_fuel(be_value, 2);
            assert(masked.take(0) =~= Seq::<u8>::empty());
            lemma_be_value_step(masked, 1);
            if n >= 2 {
                lemma_be_value_step(masked, 2);
            }
            if n >= 4 {
                lemma_be_value_step(masked, 3);
                lemma_be_value_step(masked, 4);
            }
            if n >= 8 {
                lemma_be_value_step(masked, 5);
                lemma_be_value_step(masked, 6);
                lemma_be_value_step(masked, 7);
                lemma_be_value_step(masked, 8);
            }
            assert(masked.take(n) =~= masked);
        }
    }
}

proof fn lemma_be_value_step(s: Seq<u8>, n: int)
    requires
        0 < n <= s.len(),
    ensures
        be_value(s.take(n)) == be_value(s.take(n - 1)) * 256 + s[n - 1],
{
    assert(s.take(n).drop_last() =~= s.take(n - 1));
}

/// Bytes that are a number and nothing else, in however many bytes it is written.
pub open spec fn spells_number(s: Seq<u8>, v: u64) -> bool {
    parse_varint(s) == (Parsed { outcome: Ok(v), rest: Seq::empty() })
}

/// Bytes that are a string and nothing else.
pub open spec fn spells_text(s: Seq<u8>, text: Seq<char>) -> bool {
    parse_string(s) == (Parsed { outcome: Ok(text), rest: Seq::empty() })
}

/// Bytes that are a tuple of strings and nothing else.
pub open spec fn spells_texts(s: Seq<u8>, texts: Seq<Seq<char>>) -> bool {
    parse_tuple(s) == (Parsed { outcome: Ok(texts), rest: Seq::empty() })
}

pub(crate) proof fn lemma_number_first(s: Seq<u8>, v: u64, rest: Seq<u8>)
    requires
        spells_number(s, v),
    ensures
        parse_varint(s + rest) == (Parsed { outcome: Ok(v), rest }),
{
    lemma_varint_read_alike(s, rest);
    assert(Seq::<u8>::empty() + rest =~= rest);
}

pub(crate) proof fn lemma_text_first(s: Seq<u8>, text: Seq<char>, rest: Seq<u8>)
    requires
        spells_text(s, text),
    ensures
        parse_string(s + rest) == (Parsed { outcome: Ok(text), rest }),
{
    lemma_string_read_alike(s, rest);
    assert(Seq::<u8>::empty() + rest =~= rest);
}

pub(crate) proof fn lemma_texts_first(s: Seq<u8>, texts: Seq<Seq<char>>, rest: Seq<u8>)
    requires
        spells_texts(s, texts),
    ensures
        parse_tuple(s + rest) == (Parsed { outcome: Ok(texts), rest }),
{
    lemma_varint_read_alike(s, rest);
    if let Ok(n) = parse_varint(s).outcome {
        lemma_strings_read_alike(parse_varint(s).rest, n as nat, rest);
    }
    assert(Seq::<u8>::empty() + rest =~= rest);
}

pub(crate) proof fn lemma_number_written(v: u64)
    requires
        v <= 4611686018427387903,
    ensures
        spells_number(varint_bytes(v), v),
{
    varint_roundtrip(v, Seq::empty());
    assert(varint_bytes(v) + Seq::<u8>::empty() =~= varint_bytes(v));
}

pub(crate) proof fn lemma_text_written(text: Seq<char>)
    requires
        encode_utf8(text).len() <= 4611686018427387903,
    ensures
        spells_text(string_bytes(text), text),
{
    string_roundtrip(text, Seq::empty());
    assert(string_bytes(text) + Seq::<u8>::empty() =~= string_bytes(text));
}

/// Texts each of which has a length that can be written, and whose number can.
pub open spec fn writable(texts: Seq<Seq<char>>) -> bool {
    &&& texts.len() <= 4611686018427387903
    &&& forall|i: int|
        0 <= i < texts.len() ==> encode_utf8(#[trigger] texts[i]).len() <= 4611686018427387903
}

pub(crate) proof fn lemma_texts_written(texts: Seq<Seq<char>>)
    requires
        writable(texts),
    ensures
        spells_texts(tuple_bytes(texts), texts),
{
    tuple_roundtrip(texts, Seq::empty());
    assert(tuple_bytes(texts) + Seq::<u8>::empty() =~= tuple_bytes(texts));
}

/// A string is written as the number of its UTF-8 bytes and these bytes, all of
/// them and nothing else.
pub proof fn string_layout(text: Seq<char>)
    requires
        encode_utf8(text).len() <= 4611686018427387903,
    ensures
        parse_varint(string_bytes(text)) == (Parsed {
            outcome: Ok(encode_utf8(text).len() as u64),
            rest: encode_utf8(text),
        }),
{
    varint_roundtrip(encode_utf8(text).len() as u64, encode_utf8(text));
}

/// A string is read from its length, however written, and as many bytes: if they
/// are UTF-8, it is what they encode. What comes behind them is left. If they are
/// not all there, none is taken.
pub proof fn string_reading(length: Seq<u8>, bytes: Seq<u8>, rest: Seq<u8>)
    requires
        spells_number(length, bytes.len() as u64),
        bytes.len() <= 4611686018427387903,
    ensures
        valid_utf8(bytes) ==> parse_string(length + bytes + rest) == (Parsed {
            outcome: Ok(decode_utf8(bytes)),
            rest,
        }),
        !valid_utf8(bytes) ==> parse_string(length + bytes + rest) == (Parsed::<Seq<char>> {
            outcome: Err(
                CodecError::InvalidUtf8 {
                    valid_up_to: utf8_valid_up_to(bytes) as usize,
                    error_len: utf8_error_len(bytes),
                },
            ),
            rest,
        }),
        forall|n: int|
            0 <= n < bytes.len() ==> #[trigger] parse_string(length + bytes.take(n)) == (Parsed::<
                Seq<char>,
            > {
                outcome: Err(CodecError::StringTruncated(bytes.len() as u64)),
                rest: bytes.take(n),
            }),
{
    let v = bytes.len() as u64;
    assert(length + bytes + rest =~= length + (bytes + rest));
    lemma_number_first(length, v, bytes + rest);
    assert((bytes + rest).take(bytes.len() as int) =~= bytes);
    assert((bytes + rest).skip(bytes.len() as int) =~= rest);
    assert forall|n: int| 0 <= n < bytes.len() implies #[trigger] parse_string(
        length + bytes.take(n),
    ) == (Parsed::<Seq<char>> {
        outcome: Err(CodecError::StringTruncated(bytes.len() as u64)),
        rest: bytes.take(n),
    }) by {
        lemma_number_first(length, v, bytes.take(n));
    }
}

/// A tuple is written as the number of its strings and these strings, each of them
/// as a string is written, in order.
pub proof fn tuple_layout(texts: Seq<Seq<char>>)
    requires
        writable(texts),
    ensures
        parse_varint(tuple_bytes(texts)) == (Parsed {
            outcome: Ok(texts.len() as u64),
            rest: Seq::new(texts.len(), |i: int| string_bytes(texts[i])).flatten(),
        }),
{
    lemma_strings_flatten(texts);
    varint_roundtrip(texts.len() as u64, strings_bytes(texts));
}

proof fn lemma_strings_flatten(texts: Seq<Seq<char>>)
    ensures
        strings_bytes(texts) == Seq::new(texts.len(), |i: int| string_bytes(texts[i])).flatten(),
    decreases texts.len(),
{
    let pieces = Seq::new(texts.len(), |i: int| string_bytes(texts[i]));
    pieces.lemma_flatten_and_flatten_alt_are_equivalent();
    if texts.len() > 0 {
        let init = texts.drop_last();
        lemma_strings_flatten(init);
        let before = Seq::new(init.len(), |i: int| string_bytes(init[i]));
        before.lemma_flatten_and_flatten_alt_are_equivalent();
        assert(pieces.drop_last() =~= before);
    }
}

/// A tuple is read from the number of its strings, however written, and these
/// strings, in order. What comes behind them is left.
pub proof fn tuple_reading(
    count: Seq<u8>,
    pieces: Seq<Seq<u8>>,
    texts: Seq<Seq<char>>,
    rest: Seq<u8>,
)
    requires
        pieces.len() == texts.len() <= 4611686018427387903,
        spells_number(count, texts.len() as u64),
        forall|i: int| 0 <= i < texts.len() ==> spells_text(#[trigger] pieces[i], texts[i]),
    ensures
        parse_tuple(count + pieces.flatten() + rest) == (Parsed { outcome: Ok(texts), rest }),
{
    assert(count + pieces.flatten() + rest =~= count + (pieces.flatten() + rest));
    lemma_number_first(count, texts.len() as u64, pieces.flatten() + rest);
    lemma_strings_reading(pieces, texts, rest);
}

/// A tuple is not read if one of its strings is not, be it that the bytes end before
/// it, and for the same reason.
pub proof fn tuple_fails(
    count: Seq<u8>,
    n: u64,
    pieces: Seq<Seq<u8>>,
    texts: Seq<Seq<char>>,
    s: Seq<u8>,
    e: CodecError,
)
    requires
        pieces.len() == texts.len() < n,
        spells_number(count, n),
        forall|i: int| 0 <= i < texts.len() ==> spells_text(#[trigger] pieces[i], texts[i]),
        parse_string(s).outcome == Err::<Seq<char>, CodecError>(e),
    ensures
        parse_tuple(count + pieces.flatten() + s) == (Parsed::<Seq<Seq<char>>> {
            outcome: Err(e),
            rest: parse_string(s).rest,
        }),
{
    let tail = pieces.flatten() + s;
    assert(count + pieces.flatten() + s =~= count + tail);
    lemma_number_first(count, n, tail);
    lemma_strings_reading(pieces, texts, s);
    let k = texts.len() + 1;
    assert(parse_strings(tail, k).outcome == Err::<Seq<Seq<char>>, CodecError>(e));
    lemma_parse_strings_stuck(tail, k, n as nat);
}

proof fn lemma_strings_reading(pieces: Seq<Seq<u8>>, texts: Seq<Seq<char>>, rest: Seq<u8>)
    requires
        pieces.len() == texts.len(),
        forall|i: int| 0 <= i < texts.len() ==> spells_text(#[trigger] pieces[i], texts[i]),
    ensures
        parse_strings(pieces.flatten() + rest, texts.len()) == (Parsed {
            outcome: Ok(texts),
            rest,
        }),
    decreases texts.len(),
{
    pieces.lemma_flatten_and_flatten_alt_are_equivalent();
    if texts.len() == 0 {
        assert(pieces =~= Seq::empty());
        assert(pieces.flatten() + rest =~= rest);
        assert(texts =~= Seq::empty());
    } else {
        let before = pieces.drop_last();
        before.lemma_flatten_and_flatten_alt_are_equivalent();
        let tail = pieces.last() + rest;
        lemma_strings_reading(before, texts.drop_last(), tail);
        assert(pieces.flatten() + rest =~= before.flatten() + tail);
        assert(spells_text(pieces[pieces.len() - 1], texts[texts.len() - 1]));
        lemma_text_first(pieces.last(), texts.last(), rest);
        assert(texts.drop_last().push(texts.last()) =~= texts);
    }
}

} // verus!
