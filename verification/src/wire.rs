//! The wire format as mathematics: what bytes a value is written as, and what a
//! byte string is read as.
//!
//! Reading is a total function from the bytes at hand to an outcome and the
//! bytes that are left, so that it also says how much a failed read consumes.

use vstd::prelude::*;
use vstd::utf8::{decode_utf8, encode_utf8, valid_utf8};

use crate::error::CodecError;
use crate::text::{utf8_error_len, utf8_valid_up_to};

verus! {

/// What reading a value off the front of a byte string yields.
pub struct Parsed<T> {
    pub outcome: Result<T, CodecError>,
    pub rest: Seq<u8>,
}

/// `v` in `n` bytes, most significant first. Higher digits are cut off.
pub open spec fn be_bytes(v: nat, n: nat) -> Seq<u8>
    decreases n,
{
    if n == 0 {
        Seq::empty()
    } else {
        be_bytes(v / 256, (n - 1) as nat).push((v % 256) as u8)
    }
}

/// The number that a byte string spells, most significant byte first.
pub open spec fn be_value(s: Seq<u8>) -> nat
    decreases s.len(),
{
    if s.len() == 0 {
        0
    } else {
        be_value(s.drop_last()) * 256 + s.last() as nat
    }
}

/// How many bytes a variable-length integer takes.
pub open spec fn varint_len(v: u64) -> nat {
    if v < 0x40 {
        1
    } else if v < 0x4000 {
        2
    } else if v < 0x4000_0000 {
        4
    } else {
        8
    }
}

/// A variable-length integer: big-endian in 1, 2, 4 or 8 bytes, with the binary
/// logarithm of that length in the two top bits.
#[verifier::opaque]
pub open spec fn varint_bytes(v: u64) -> Seq<u8> {
    if v < 0x40 {
        be_bytes(v as nat, 1)
    } else if v < 0x4000 {
        be_bytes((0x4000 + v) as nat, 2)
    } else if v < 0x4000_0000 {
        be_bytes((0x8000_0000 + v) as nat, 4)
    } else {
        be_bytes((0xc000_0000_0000_0000 + v) as nat, 8)
    }
}

/// The length that the first byte of a variable-length integer announces.
pub open spec fn varint_announced(first: u8) -> nat {
    if first < 0x40 {
        1
    } else if first < 0x80 {
        2
    } else if first < 0xc0 {
        4
    } else {
        8
    }
}

/// Reads a variable-length integer. No byte is consumed if it is incomplete.
#[verifier::opaque]
pub open spec fn parse_varint(s: Seq<u8>) -> Parsed<u64> {
    if s.len() == 0 {
        Parsed { outcome: Err(CodecError::VarIntMissing), rest: s }
    } else {
        let n = varint_announced(s[0]);
        if s.len() < n {
            Parsed { outcome: Err(CodecError::VarIntTruncated(n as u64)), rest: s }
        } else {
            Parsed {
                outcome: Ok(be_value(s.take(n as int).update(0, s[0] % 64)) as u64),
                rest: s.skip(n as int),
            }
        }
    }
}

/// A string: the number of its UTF-8 bytes, then these bytes.
pub open spec fn string_bytes(text: Seq<char>) -> Seq<u8> {
    varint_bytes(encode_utf8(text).len() as u64) + encode_utf8(text)
}

/// Reads a string. Bytes that turn out not to be UTF-8 are consumed.
pub open spec fn parse_string(s: Seq<u8>) -> Parsed<Seq<char>> {
    let len = parse_varint(s);
    match len.outcome {
        Err(e) => Parsed { outcome: Err(e), rest: len.rest },
        Ok(n) => if len.rest.len() < n {
            Parsed { outcome: Err(CodecError::StringTruncated(n)), rest: len.rest }
        } else {
            let bytes = len.rest.take(n as int);
            Parsed {
                outcome: if valid_utf8(bytes) {
                    Ok(decode_utf8(bytes))
                } else {
                    Err(
                        CodecError::InvalidUtf8 {
                            valid_up_to: utf8_valid_up_to(bytes) as usize,
                            error_len: utf8_error_len(bytes),
                        },
                    )
                },
                rest: len.rest.skip(n as int),
            }
        },
    }
}

/// Strings, one after the other.
pub open spec fn strings_bytes(texts: Seq<Seq<char>>) -> Seq<u8>
    decreases texts.len(),
{
    if texts.len() == 0 {
        Seq::empty()
    } else {
        strings_bytes(texts.drop_last()) + string_bytes(texts.last())
    }
}

/// A tuple of strings: their number, then each of them.
pub open spec fn tuple_bytes(texts: Seq<Seq<char>>) -> Seq<u8> {
    varint_bytes(texts.len() as u64) + strings_bytes(texts)
}

/// Reads `n` strings, up to the first that cannot be read.
pub open spec fn parse_strings(s: Seq<u8>, n: nat) -> Parsed<Seq<Seq<char>>>
    decreases n,
{
    if n == 0 {
        Parsed { outcome: Ok(Seq::empty()), rest: s }
    } else {
        let init = parse_strings(s, (n - 1) as nat);
        match init.outcome {
            Err(e) => Parsed { outcome: Err(e), rest: init.rest },
            Ok(texts) => {
                let last = parse_string(init.rest);
                match last.outcome {
                    Err(e) => Parsed { outcome: Err(e), rest: last.rest },
                    Ok(text) => Parsed { outcome: Ok(texts.push(text)), rest: last.rest },
                }
            },
        }
    }
}

/// Reads a tuple of strings.
pub open spec fn parse_tuple(s: Seq<u8>) -> Parsed<Seq<Seq<char>>> {
    let count = parse_varint(s);
    match count.outcome {
        Err(e) => Parsed { outcome: Err(e), rest: count.rest },
        Ok(n) => parse_strings(count.rest, n as nat),
    }
}

/// `be_bytes` has the length that it is asked for.
pub broadcast proof fn lemma_be_bytes_len(v: nat, n: nat)
    ensures
        #[trigger] be_bytes(v, n).len() == n,
    decreases n,
{
    if n > 0 {
        lemma_be_bytes_len(v / 256, (n - 1) as nat);
    }
}

/// A variable-length integer has its length.
pub broadcast proof fn lemma_varint_bytes_len(v: u64)
    ensures
        #[trigger] varint_bytes(v).len() == varint_len(v),
{
    reveal(varint_bytes);
    broadcast use lemma_be_bytes_len;

}

/// Once a string cannot be read, asking for more of them changes nothing.
pub proof fn lemma_parse_strings_stuck(s: Seq<u8>, m: nat, n: nat)
    requires
        m <= n,
        parse_strings(s, m).outcome is Err,
    ensures
        parse_strings(s, n) == parse_strings(s, m),
    decreases n,
{
    if m < n {
        lemma_parse_strings_stuck(s, m, (n - 1) as nat);
    }
}

} // verus!
