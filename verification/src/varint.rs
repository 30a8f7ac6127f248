//! QUIC variable-length integers.

use bytes::{Bytes, BytesMut};
use vstd::prelude::*;

use crate::buffer::{advance, chunk, get_u8, put_u16, put_u32, put_u64, put_u8, unread, written};
use crate::error::CodecError;
use crate::text::{decimal, push_decimal};
use crate::wire::{
    be_bytes, be_value, lemma_varint_bytes_len, parse_varint, varint_announced, varint_bytes,
    varint_len,
};

verus! {

/// A QUIC variable-length integer: a value of at most 62 bits.
#[derive(Debug, Clone, Copy, PartialEq, Eq, Hash)]
pub struct VarInt(u64);

impl View for VarInt {
    type V = u64;

    closed spec fn view(&self) -> u64 {
        self.0
    }
}

impl VarInt {
    /// The largest value.
    pub const MAX: u64 = 0x3fff_ffff_ffff_ffff;

    #[verifier::type_invariant]
    spec fn fits(self) -> bool {
        self.0 <= Self::MAX
    }

    /// The integer of this value, if it fits in 62 bits.
    pub fn from_u64(v: u64) -> (r: Result<Self, CodecError>)
        ensures
            v <= Self::MAX ==> (r matches Ok(x) && x@ == v),
            v > Self::MAX ==> r == Err::<Self, CodecError>(CodecError::VarIntOverflow(v)),
    {
        if v > Self::MAX {
            return Err(CodecError::VarIntOverflow(v));
        }
        Ok(Self(v))
    }

    /// The value.
    pub fn into_inner(self) -> (v: u64)
        ensures
            v == self@,
            v <= Self::MAX,
    {
        proof {
            use_type_invariant(&self);
        }
        self.0
    }

    /// The value in base ten.
    pub fn to_string(&self) -> (s: String)
        ensures
            s@ == decimal(self@ as nat),
    {
        let mut s = String::new();
        push_decimal(&mut s, self.0);
        assert(s@ =~= decimal(self@ as nat));
        s
    }

    /// How many bytes `encode` writes.
    pub fn size(&self) -> (n: usize)
        ensures
            n == varint_len(self@),
            n == varint_bytes(self@).len(),
    {
        broadcast use lemma_varint_bytes_len;

        let v = self.0;
        if v < 0x40 {
            1
        } else if v < 0x4000 {
            2
        } else if v < 0x4000_0000 {
            4
        } else {
            8
        }
    }

    /// Appends the integer to a buffer.
    pub fn encode(&self, buf: &mut BytesMut)
        requires
            written(*old(buf)).len() + varint_len(self@) <= isize::MAX,
        ensures
            written(*final(buf)) == written(*old(buf)) + varint_bytes(self@),
    {
        proof {
            use_type_invariant(self);
            reveal(varint_bytes);
        }
        let v = self.0;
        if v < 0x40 {
            proof {
                reveal_with_fuel(be_bytes, 2);
            }
            put_u8(buf, v as u8);
            assert(written(*buf) =~= written(*old(buf)) + varint_bytes(self@));
        } else if v < 0x4000 {
            assert(0x4000u16 | (v as u16) == 0x4000 + v) by (bit_vector)
                requires
                    v < 0x4000,
            ;
            put_u16(buf, 0x4000 | v as u16);
        } else if v < 0x4000_0000 {
            assert(0x8000_0000u32 | (v as u32) == 0x8000_0000 + v) by (bit_vector)
                requires
                    v < 0x4000_0000,
            ;
            put_u32(buf, 0x8000_0000 | v as u32);
        } else {
            assert(0xc000_0000_0000_0000u64 | v == 0xc000_0000_0000_0000 + v) by (bit_vector)
                requires
                    v <= 0x3fff_ffff_ffff_ffff,
            ;
            put_u64(buf, 0xc000_0000_0000_0000 | v);
        }
    }

    /// Reads an integer off the front of a buffer.
    pub fn decode(buf: &mut Bytes) -> (r: Result<Self, CodecError>)
        ensures
            match r {
                Ok(x) => parse_varint(unread(*old(buf))).outcome == Ok::<u64, CodecError>(x@),
                Err(e) => parse_varint(unread(*old(buf))).outcome == Err::<u64, CodecError>(e),
            },
            unread(*final(buf)) == parse_varint(unread(*old(buf))).rest,
    {
        reveal(parse_varint);
        let ghost s = unread(*buf);
        let remaining = buf.len();
        if remaining == 0 {
            return Err(CodecError::VarIntMissing);
        }
        let first = chunk(buf)[0];
        proof {
            lemma_prefix(first);
        }
        let prefix = first >> 6;
        let len = 1usize << prefix;
        assert(len == varint_announced(first));
        if remaining < len {
            return Err(CodecError::VarIntTruncated(len as u64));
        }
        let mut val: u64 = (first & 0x3f) as u64;
        advance(buf, 1);
        let ghost masked = s.take(len as int).update(0, s[0] % 64);
        proof {
            reveal_with_fuel(be_value, 2);
            assert(masked.take(1).drop_last() =~= Seq::<u8>::empty());
        }
        let mut i: usize = 1;
        while i < len
            invariant
                1 <= i <= len <= 8,
                len <= s.len(),
                masked == s.take(len as int).update(0, s[0] % 64),
                unread(*buf) == s.skip(i as int),
                val == be_value(masked.take(i as int)),
                val < pow256_quarter(i as nat),
            decreases len - i,
        {
            let ghost before = val;
            let b = get_u8(buf);
            assert((before << 8) | (b as u64) == before * 256 + b) by (bit_vector)
                requires
                    before < 0x40_0000_0000_0000,
            ;
            val = (val << 8) | b as u64;
            proof {
                assert(b == masked[i as int]);
                assert(masked.take(i + 1).drop_last() =~= masked.take(i as int));
                assert(s.skip(i as int).skip(1) =~= s.skip(i + 1));
            }
            i = i + 1;
        }
        proof {
            assert(masked.take(len as int) =~= masked);
        }
        Ok(Self(val))
    }
}

impl From<u32> for VarInt {
    fn from(v: u32) -> (r: Self)
        ensures
            r@ == v,
    {
        Self(v as u64)
    }
}

impl vstd::std_specs::convert::FromSpecImpl<u32> for VarInt {
    open spec fn obeys_from_spec() -> bool {
        true
    }

    closed spec fn from_spec(v: u32) -> Self {
        Self(v as u64)
    }
}

/// A quarter of 256 to the power of `n`: what `n` bytes can hold with their two
/// top bits clear, for the lengths that occur.
spec fn pow256_quarter(n: nat) -> nat {
    if n == 1 {
        0x40
    } else if n == 2 {
        0x4000
    } else if n == 3 {
        0x40_0000
    } else if n == 4 {
        0x4000_0000
    } else if n == 5 {
        0x40_0000_0000
    } else if n == 6 {
        0x4000_0000_0000
    } else if n == 7 {
        0x40_0000_0000_0000
    } else {
        0x4000_0000_0000_0000
    }
}

/// The two top bits of a first byte, and the six that are left.
proof fn lemma_prefix(first: u8)
    ensures
        (1usize << (first >> 6)) == varint_announced(first),
        (first & 0x3f) == first % 64,
        (first & 0x3f) < 64,
        (first >> 6) < 4,
{
    assert((first & 0x3f) == first % 64) by (bit_vector);
    assert((first & 0x3f) < 64) by (bit_vector);
    assert((first >> 6) < 4) by (bit_vector);
    assert(first < 0x40 ==> (first >> 6) == 0) by (bit_vector);
    assert(0x40 <= first < 0x80 ==> (first >> 6) == 1) by (bit_vector);
    assert(0x80 <= first < 0xc0 ==> (first >> 6) == 2) by (bit_vector);
    assert(0xc0 <= first ==> (first >> 6) == 3) by (bit_vector);
    assert((1usize << 0u8) == 1) by (bit_vector);
    assert((1usize << 1u8) == 2) by (bit_vector);
    assert((1usize << 2u8) == 4) by (bit_vector);
    assert((1usize << 3u8) == 8) by (bit_vector);
}

} // verus!
