//! What was read can be written again, in no more bytes.

use vstd::prelude::*;
use vstd::utf8::{decode_utf8, decode_utf8_encode_utf8, valid_utf8};

use crate::error::CodecError;
use crate::laws::{
    known_message, message_known, unknown_params_are_left_out, varint_read_bounds,
};
use crate::message::{
    header_bytes, header_fits, lemma_known_part_len, message_bytes, message_fits, message_type,
    param_bytes, param_fits, params_bytes, params_fit, parse_header, parse_message, parse_param,
    parse_param_number, parse_params, parse_payload, parse_setup, parse_track, parse_two_varints,
    payload_bytes, setup_bytes, text_fits, texts_fit, Message, MessageView,
};
use crate::object::{
    object_head_bytes, object_head_fits, object_in_bounds, parse_object, parse_object_head,
};
use crate::relay::{forward_fits, publish_answer, relay_outcome, subscribe_answer};
use crate::varint::VarInt;
use crate::wire::{
    be_value, lemma_be_bytes_len, lemma_varint_bytes_len, parse_string, parse_strings, parse_tuple,
    parse_varint, string_bytes, strings_bytes, tuple_bytes, varint_bytes,
};

verus! {

proof fn lemma_string_read(s: Seq<u8>)
    ensures
        parse_string(s).outcome matches Ok(text) ==> {
            &&& text_fits(text)
            &&& string_bytes(text).len() <= s.len() - parse_string(s).rest.len()
        },
{
    varint_read_bounds(s);
    let len = parse_varint(s);
    if let Ok(n) = len.outcome {
        if len.rest.len() >= n {
            let bytes = len.rest.take(n as int);
            if valid_utf8(bytes) {
                decode_utf8_encode_utf8(bytes);
                assert(parse_string(s).outcome == Ok::<Seq<char>, CodecError>(decode_utf8(bytes)));
            }
        }
    }
}

proof fn lemma_strings_read(s: Seq<u8>, n: nat)
    ensures
        parse_strings(s, n).outcome matches Ok(texts) ==> {
            &&& texts.len() == n
            &&& forall|i: int| 0 <= i < n ==> text_fits(#[trigger] texts[i])
            &&& strings_bytes(texts).len() <= s.len() - parse_strings(s, n).rest.len()
        },
    decreases n,
{
    if n > 0 {
        let init = parse_strings(s, (n - 1) as nat);
        lemma_strings_read(s, (n - 1) as nat);
        lemma_string_read(init.rest);
        if let Ok(texts) = parse_strings(s, n).outcome {
            assert(texts.drop_last() =~= init.outcome->Ok_0);
        }
    }
}

proof fn lemma_tuple_read(s: Seq<u8>)
    ensures
        parse_tuple(s).outcome matches Ok(texts) ==> {
            &&& texts_fit(texts)
            &&& tuple_bytes(texts).len() <= s.len() - parse_tuple(s).rest.len()
        },
{
    varint_read_bounds(s);
    if let Ok(n) = parse_varint(s).outcome {
        lemma_strings_read(parse_varint(s).rest, n as nat);
    }
}

proof fn lemma_track_read(s: Seq<u8>)
    ensures
        parse_track(s).outcome matches Ok((namespace, name)) ==> {
            &&& texts_fit(namespace)
            &&& text_fits(name)
            &&& tuple_bytes(namespace).len() + string_bytes(name).len() <= s.len() - parse_track(
                s,
            ).rest.len()
        },
{
    lemma_tuple_read(s);
    lemma_string_read(parse_tuple(s).rest);
}

proof fn lemma_two_varints_read(s: Seq<u8>)
    ensures
        parse_two_varints(s).outcome matches Ok((a, b)) ==> {
            &&& a <= VarInt::MAX
            &&& b <= VarInt::MAX
            &&& varint_bytes(a).len() + varint_bytes(b).len() <= s.len() - parse_two_varints(
                s,
            ).rest.len()
        },
{
    varint_read_bounds(s);
    varint_read_bounds(parse_varint(s).rest);
}

proof fn lemma_param_number_read(s: Seq<u8>, truncated: CodecError)
    ensures
        parse_param_number(s, truncated).outcome matches Ok(v) ==> {
            &&& v <= VarInt::MAX
            &&& 1 + varint_bytes(v).len() <= s.len() - parse_param_number(s, truncated).rest.len()
        },
{
    varint_read_bounds(s);
    let len = parse_varint(s);
    if let Ok(n) = len.outcome {
        if len.rest.len() >= n {
            varint_read_bounds(len.rest.take(n as int));
        }
    }
}

proof fn lemma_param_read(s: Seq<u8>)
    ensures
        parse_param(s).outcome matches Ok(p) ==> {
            &&& param_fits(p)
            &&& param_bytes(p).len() <= s.len() - parse_param(s).rest.len()
        },
{
    broadcast use lemma_varint_bytes_len;

    varint_read_bounds(s);
    let key = parse_varint(s);
    lemma_param_number_read(key.rest, CodecError::RoleTruncated);
    lemma_param_number_read(key.rest, CodecError::MaxSubscribeIdTruncated);
    lemma_string_read(key.rest);
    varint_read_bounds(key.rest);
}

proof fn lemma_params_read(s: Seq<u8>, n: nat)
    ensures
        parse_params(s, n).outcome matches Ok(params) ==> {
            &&& params.len() == n
            &&& forall|i: int| 0 <= i < n ==> param_fits(#[trigger] params[i])
            &&& params_bytes(params).len() <= s.len() - parse_params(s, n).rest.len()
        },
    decreases n,
{
    if n > 0 {
        let init = parse_params(s, (n - 1) as nat);
        lemma_params_read(s, (n - 1) as nat);
        lemma_param_read(init.rest);
        if let Ok(params) = parse_params(s, n).outcome {
            assert(params.drop_last() =~= init.outcome->Ok_0);
        }
    }
}

proof fn lemma_setup_read(s: Seq<u8>)
    ensures
        parse_setup(s).outcome matches Ok(params) ==> {
            &&& params_fit(params)
            &&& setup_bytes(params).len() <= s.len() - parse_setup(s).rest.len()
        },
{
    broadcast use lemma_varint_bytes_len;

    varint_read_bounds(s);
    if let Ok(n) = parse_varint(s).outcome {
        lemma_params_read(parse_varint(s).rest, n as nat);
        if let Ok(params) = parse_setup(s).outcome {
            lemma_known_part_len(params);
        }
    }
}

proof fn lemma_payload_read(msg_type: u64, s: Seq<u8>)
    ensures
        parse_payload(msg_type, s) matches Ok(m) ==> {
            &&& message_type(m) == msg_type
            &&& message_fits(m)
            &&& payload_bytes(m).len() <= s.len()
        },
{
    broadcast use lemma_varint_bytes_len;

    varint_read_bounds(s);
    lemma_setup_read(s);
    lemma_string_read(s);
    lemma_track_read(s);
    lemma_two_varints_read(s);
    let ids = parse_two_varints(s);
    lemma_track_read(ids.rest);
    lemma_string_read(ids.rest);
    let subscribed = parse_track(ids.rest).rest;
    varint_read_bounds(subscribed.skip(2));
    let published = parse_track(s).rest;
    varint_read_bounds(published.skip(2));
    varint_read_bounds(published);
}

/// A message that was read can be written, in no more bytes than it was read
/// from, and it is then read again as the same message, but for the parameters
/// whose keys are unknown.
pub proof fn read_message_can_be_written(s: Seq<u8>)
    ensures
        parse_message(s).outcome matches Ok(m) ==> {
            &&& message_fits(m)
            &&& payload_bytes(m).len() <= 0xffff
            &&& message_bytes(m).len() <= s.len() - parse_message(s).rest.len()
            &&& parse_message(message_bytes(m)).outcome == Ok::<MessageView, CodecError>(
                known_message(m),
            )
            &&& message_known(m) ==> known_message(m) == m
        },
{
    broadcast use {lemma_varint_bytes_len, lemma_be_bytes_len};

    let msg_type = parse_varint(s);
    varint_read_bounds(s);
    if let Ok(m) = parse_message(s).outcome {
        let length = be_value(msg_type.rest.take(2));
        let body = msg_type.rest.skip(2);
        lemma_two_octets_value(msg_type.rest.take(2));
        lemma_payload_read(msg_type.outcome->Ok_0, body.take(length as int));
        unknown_params_are_left_out(m, Seq::empty());
        assert(message_bytes(m) + Seq::<u8>::empty() =~= message_bytes(m));
    }
}

/// Two bytes spell at most 65535.
proof fn lemma_two_octets_value(s: Seq<u8>)
    requires
        s.len() == 2,
    ensures
        be_value(s) <= 0xffff,
{
    reveal_with_fuel(be_value, 3);
}

/// Whatever announcement or subscription was read, the answer to it can be
/// written.
pub proof fn answers_can_be_written(s: Seq<u8>)
    ensures
        match parse_message(s).outcome {
            Ok(MessageView::Publish { track_namespace, track_name, .. }) => {
                let answer = publish_answer(track_namespace, track_name);
                message_fits(answer) && payload_bytes(answer).len() <= 0xffff
            },
            Ok(MessageView::Subscribe { subscribe_id, .. }) => {
                let answer = Message::SubscribeOk(subscribe_answer(subscribe_id))@;
                message_fits(answer) && payload_bytes(answer).len() <= 0xffff
            },
            _ => true,
        },
{
    broadcast use lemma_varint_bytes_len;

    read_message_can_be_written(s);
}

/// A subgroup header that was read can be written, in no more bytes.
pub proof fn read_header_can_be_written(s: Seq<u8>)
    ensures
        parse_header(s).outcome matches Ok(h) ==> {
            &&& header_fits(h)
            &&& header_bytes(h).len() <= s.len() - parse_header(s).rest.len()
        },
{
    lemma_two_varints_read(s);
    lemma_two_varints_read(parse_two_varints(s).rest);
}

/// The head of an object stream that was read can be written, in no more bytes.
pub proof fn read_object_can_be_written(s: Seq<u8>)
    ensures
        parse_object_head(s).outcome matches Ok(head) ==> {
            &&& object_head_fits(head)
            &&& object_head_bytes(head).len() <= s.len() - parse_object_head(s).rest.len()
        },
{
    read_header_can_be_written(s);
    varint_read_bounds(parse_header(s).rest);
    varint_read_bounds(parse_varint(parse_header(s).rest).rest);
}

/// Whatever object was read and relayed, it can be forwarded to any subscriber
/// whose own numbers were read.
pub proof fn relayed_object_can_be_forwarded(
    tracks: Seq<(Seq<Seq<char>>, Seq<char>)>,
    stream: Seq<u8>,
    subscribe_id: u64,
    track_alias: u64,
)
    requires
        object_in_bounds(stream),
        subscribe_id <= VarInt::MAX,
        track_alias <= VarInt::MAX,
    ensures
        parse_object(stream) matches Ok((head, payload)) ==> (relay_outcome(
            tracks,
            head,
            payload,
        ) matches Some((channel, object)) ==> forward_fits(subscribe_id, track_alias, object)),
{
    read_object_can_be_written(stream);
}

} // verus!
