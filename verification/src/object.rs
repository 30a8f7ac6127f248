//! Objects: one per unidirectional stream, behind a subgroup header.

use bytes::{Bytes, BytesMut};
use vstd::prelude::*;
use vstd::slice::{slice_subrange, slice_to_vec};

use crate::buffer::{bytes_from_vec, chunk, unread, written};
use crate::error::CodecError;
use crate::laws::{header_roundtrip, varint_roundtrip};
use crate::message::{
    decode_varint, encode_varint, header_bytes, header_fits, parse_header, SubgroupHeader,
};
use crate::varint::VarInt;
use crate::wire::{parse_varint, varint_bytes, Parsed};

verus! {

/// All of an object stream but the payload.
pub struct ObjectHead {
    pub header: SubgroupHeader,
    pub object_id: u64,
    pub payload_length: u64,
}

/// The head of an object stream: the subgroup header, the identifier of the
/// object and the length of its payload.
pub open spec fn object_head_bytes(head: ObjectHead) -> Seq<u8> {
    header_bytes(head.header) + varint_bytes(head.object_id) + varint_bytes(head.payload_length)
}

/// A head that can be written.
pub open spec fn object_head_fits(head: ObjectHead) -> bool {
    &&& header_fits(head.header)
    &&& head.object_id <= VarInt::MAX
    &&& head.payload_length <= VarInt::MAX
}

/// Reads the head of an object stream.
pub open spec fn parse_object_head(s: Seq<u8>) -> Parsed<ObjectHead> {
    let header = parse_header(s);
    match header.outcome {
        Err(e) => Parsed { outcome: Err(e), rest: header.rest },
        Ok(h) => {
            let id = parse_varint(header.rest);
            match id.outcome {
                Err(e) => Parsed { outcome: Err(e), rest: id.rest },
                Ok(object_id) => {
                    let len = parse_varint(id.rest);
                    match len.outcome {
                        Err(e) => Parsed { outcome: Err(e), rest: len.rest },
                        Ok(payload_length) => Parsed {
                            outcome: Ok(ObjectHead { header: h, object_id, payload_length }),
                            rest: len.rest,
                        },
                    }
                },
            }
        },
    }
}

/// A stream whose head, if it can be read, announces no more payload than there
/// is.
pub open spec fn object_in_bounds(s: Seq<u8>) -> bool {
    parse_object_head(s).outcome matches Ok(head) ==> head.payload_length <= parse_object_head(
        s,
    ).rest.len()
}

/// Reads an object: its head, and as much payload as that announces. Bytes after
/// the payload are ignored.
pub open spec fn parse_object(s: Seq<u8>) -> Result<(ObjectHead, Seq<u8>), CodecError> {
    match parse_object_head(s).outcome {
        Err(e) => Err(e),
        Ok(head) => Ok((head, parse_object_head(s).rest.take(head.payload_length as int))),
    }
}

impl ObjectHead {
    /// The bytes that the stream starts with; the payload follows them.
    pub fn encode(&self) -> (out: BytesMut)
        requires
            object_head_fits(*self),
        ensures
            written(out) == object_head_bytes(*self),
    {
        broadcast use crate::wire::lemma_varint_bytes_len;

        let mut buf = BytesMut::new();
        self.header.encode(&mut buf);
        encode_varint(&mut buf, self.object_id);
        encode_varint(&mut buf, self.payload_length);
        assert(written(buf) =~= object_head_bytes(*self));
        buf
    }

    /// Reads a head off the front of a buffer.
    pub fn decode(buf: &mut Bytes) -> (r: Result<Self, CodecError>)
        ensures
            r == parse_object_head(unread(*old(buf))).outcome,
            unread(*final(buf)) == parse_object_head(unread(*old(buf))).rest,
    {
        let header = SubgroupHeader::decode(buf)?;
        let object_id = decode_varint(buf)?;
        let payload_length = decode_varint(buf)?;
        Ok(ObjectHead { header, object_id, payload_length })
    }
}

/// Whether the head of an object stream, if it can be read, announces no more
/// payload than there is.
pub fn payload_complete(stream: &Vec<u8>) -> (b: bool)
    ensures
        b == object_in_bounds(stream@),
{
    let mut data = bytes_from_vec(slice_to_vec(stream.as_slice()));
    match ObjectHead::decode(&mut data) {
        Ok(head) => head.payload_length <= data.len() as u64,
        Err(_) => true,
    }
}

/// Reads an object from all the bytes of its stream: its subgroup header, its
/// identifier and its payload.
pub fn decode_object(stream: Vec<u8>) -> (r: Result<(SubgroupHeader, u64, Vec<u8>), CodecError>)
    requires
        object_in_bounds(stream@),
    ensures
        match r {
            Ok((header, object_id, payload)) => parse_object(stream@) == Ok::<
                (ObjectHead, Seq<u8>),
                CodecError,
            >(
                (
                    ObjectHead { header, object_id, payload_length: payload@.len() as u64 },
                    payload@,
                ),
            ),
            Err(e) => parse_object(stream@) == Err::<(ObjectHead, Seq<u8>), CodecError>(e),
        },
{
    let mut data = bytes_from_vec(stream);
    let head = ObjectHead::decode(&mut data)?;
    let rest = chunk(&data);
    assert(head.payload_length <= rest.len());
    let payload = slice_to_vec(slice_subrange(rest, 0, head.payload_length as usize));
    assert(payload@ =~= unread(data).take(head.payload_length as int));
    Ok((head.header, head.object_id, payload))
}

/// An object is read back from the head and the payload of its stream, whatever
/// comes behind them.
pub proof fn object_roundtrip(head: ObjectHead, payload: Seq<u8>, extra: Seq<u8>)
    requires
        object_head_fits(head),
        head.payload_length == payload.len(),
    ensures
        object_in_bounds(object_head_bytes(head) + payload + extra),
        parse_object(object_head_bytes(head) + payload + extra) == Ok::<
            (ObjectHead, Seq<u8>),
            CodecError,
        >((head, payload)),
{
    let t3 = payload + extra;
    let t2 = varint_bytes(head.payload_length) + t3;
    let t1 = varint_bytes(head.object_id) + t2;
    assert(object_head_bytes(head) + payload + extra =~= header_bytes(head.header) + t1);
    header_roundtrip(head.header, t1);
    varint_roundtrip(head.object_id, t2);
    varint_roundtrip(head.payload_length, t3);
    assert(t3.take(payload.len() as int) =~= payload);
}

} // verus!
