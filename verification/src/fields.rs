//! Control messages, headers and heads of streams, field by field: what each field
//! is written as and where, and what each is read from.
//!
//! The laws speak of the fields of the executable types, and take what is written
//! apart with no more than the readers of numbers and texts.

use vstd::prelude::*;
use vstd::utf8::encode_utf8;

use crate::error::CodecError;
use crate::laws::{lemma_string_read_alike, lemma_varint_read_alike, varint_roundtrip};
use crate::layout::{
    lemma_number_first, lemma_number_written, lemma_text_first, lemma_text_written,
    lemma_texts_first, lemma_texts_written, spells_number, spells_text, spells_texts,
    two_bytes_layout, two_bytes_reading, varint_layout, writable,
};
use crate::message::{
    header_bytes, header_fits, known_part, lemma_parse_params_stuck, message_bytes, message_fits,
    param_bytes, param_fits, param_views,
    params_bytes, parse_header, parse_message, parse_param, parse_params, parse_payload,
    parse_setup, params_fit, payload_bytes, setup_bytes, texts, ClientSetup, GoAway, Message,
    MessageView, Publish, PublishOk, RequestError, ServerSetup, SetupParameter,
    SetupParameterView, SubgroupHeader, Subscribe, SubscribeDone, SubscribeOk, Unsubscribe,
};
use crate::object::{
    object_head_bytes, object_head_fits, object_in_bounds, parse_object, parse_object_head,
    ObjectHead,
};
use crate::wire::{
    parse_string, parse_tuple, parse_varint, string_bytes, tuple_bytes, varint_bytes,
    Parsed,
};

verus! {

/// The number that tells the kind of a message.
pub open spec fn documented_type(m: Message) -> u64 {
    match m {
        Message::ClientSetup(_) => 0x20,
        Message::ServerSetup(_) => 0x21,
        Message::Subscribe(_) => 0x03,
        Message::SubscribeOk(_) => 0x04,
        Message::RequestError(_) => 0x05,
        Message::Unsubscribe(_) => 0x0a,
        Message::SubscribeDone(_) => 0x0b,
        Message::GoAway(_) => 0x10,
        Message::Publish(_) => 0x1d,
        Message::PublishOk(_) => 0x1e,
    }
}

/// A message is written as a byte that tells its kind, two bytes that spell the
/// length of its payload, and its payload. Of a length that takes more than two bytes
/// the lower two are written.
pub proof fn message_layout(m: Message)
    ensures
        ({
            let b = message_bytes(m@);
            &&& b[0] == documented_type(m)
            &&& b[1] * 256 + b[2] == payload_bytes(m@).len() % 65536
            &&& payload_bytes(m@).len() <= 65535 ==> b[1] * 256 + b[2] == payload_bytes(m@).len()
            &&& b.len() == 3 + payload_bytes(m@).len()
            &&& b.skip(3) == payload_bytes(m@)
        }),
{
    varint_layout(documented_type(m));
    two_bytes_layout(payload_bytes(m@).len());
    assert(message_bytes(m@).skip(3) =~= payload_bytes(m@));
}

/// Whoever wrote it, a message is read from a number that tells its kind, two bytes
/// that spell the length of its payload, and as many bytes. What comes behind them
/// is left. If they are not all there, no message is read.
pub proof fn message_reading(
    kind: Seq<u8>,
    msg_type: u64,
    high: u8,
    low: u8,
    payload: Seq<u8>,
    rest: Seq<u8>,
    n: int,
)
    requires
        spells_number(kind, msg_type),
        payload.len() == high * 256 + low,
        0 <= n < payload.len() || n == 0,
    ensures
        parse_message(kind + seq![high, low] + payload + rest) == (Parsed {
            outcome: parse_payload(msg_type, payload),
            rest,
        }),
        n < payload.len() ==> parse_message(kind + seq![high, low] + payload.take(n)) == (Parsed::<
            MessageView,
        > {
            outcome: Err(CodecError::MessagePayloadTruncated(payload.len() as u64)),
            rest: payload.take(n),
        }),
        parse_message(kind + seq![high]) == (Parsed::<MessageView> {
            outcome: Err(CodecError::MessageLengthMissing),
            rest: seq![high],
        }),
        parse_message(kind) == (Parsed::<MessageView> {
            outcome: Err(CodecError::MessageLengthMissing),
            rest: Seq::empty(),
        }),
{
    let tail = seq![high, low] + (payload + rest);
    assert(kind + seq![high, low] + payload + rest =~= kind + tail);
    lemma_number_first(kind, msg_type, tail);
    assert(tail.take(2) =~= seq![high, low]);
    two_bytes_reading(seq![high, low]);
    assert(tail.skip(2) =~= payload + rest);
    assert((payload + rest).take(payload.len() as int) =~= payload);
    assert((payload + rest).skip(payload.len() as int) =~= rest);
    if n < payload.len() {
        let cut = seq![high, low] + payload.take(n);
        assert(kind + seq![high, low] + payload.take(n) =~= kind + cut);
        lemma_number_first(kind, msg_type, cut);
        assert(cut.take(2) =~= seq![high, low]);
        assert(cut.skip(2) =~= payload.take(n));
    }
    lemma_number_first(kind, msg_type, seq![high]);
    assert(kind + Seq::<u8>::empty() =~= kind);
    lemma_number_first(kind, msg_type, Seq::empty());
}

/// No other number is the kind of a message, whatever its payload is.
pub proof fn other_kinds_are_unknown(msg_type: u64, payload: Seq<u8>)
    requires
        msg_type != 0x20 && msg_type != 0x21 && msg_type != 0x03 && msg_type != 0x04,
        msg_type != 0x05 && msg_type != 0x0a && msg_type != 0x0b && msg_type != 0x10,
        msg_type != 0x1d && msg_type != 0x1e,
    ensures
        parse_payload(msg_type, payload) == Err::<MessageView, CodecError>(
            CodecError::UnknownMessageType(msg_type),
        ),
{
}

/// A Subscribe holds the identifier of the subscription, the alias, the name space and
/// the name of the track, the bytes of its priority and its group order, and its
/// filter, in this order.
pub proof fn subscribe_layout(x: Subscribe)
    requires
        x.subscribe_id <= 4611686018427387903,
        x.track_alias <= 4611686018427387903,
        writable(texts(x.track_namespace@)),
        encode_utf8(x.track_name@).len() <= 4611686018427387903,
        x.filter_type <= 4611686018427387903,
    ensures
        message_fits(Message::Subscribe(x)@),
        ({
            let f1 = parse_varint(payload_bytes(Message::Subscribe(x)@));
            let f2 = parse_varint(f1.rest);
            let f3 = parse_tuple(f2.rest);
            let f4 = parse_string(f3.rest);
            let f5 = parse_varint(f4.rest.skip(2));
            &&& f1.outcome == Ok::<u64, CodecError>(x.subscribe_id)
            &&& f2.outcome == Ok::<u64, CodecError>(x.track_alias)
            &&& f3.outcome == Ok::<Seq<Seq<char>>, CodecError>(texts(x.track_namespace@))
            &&& f4.outcome == Ok::<Seq<char>, CodecError>(x.track_name@)
            &&& f4.rest.len() >= 2
            &&& f4.rest[0] == x.subscriber_priority
            &&& f4.rest[1] == x.group_order
            &&& f5.outcome == Ok::<u64, CodecError>(x.filter_type)
            &&& f5.rest.len() == 0
        }),
{
    let end = Seq::<u8>::empty();
    let t5 = varint_bytes(x.filter_type) + end;
    let t4 = seq![x.subscriber_priority, x.group_order] + t5;
    let t3 = string_bytes(x.track_name@) + t4;
    let t2 = tuple_bytes(texts(x.track_namespace@)) + t3;
    let t1 = varint_bytes(x.track_alias) + t2;
    let t0 = varint_bytes(x.subscribe_id) + t1;
    assert(payload_bytes(Message::Subscribe(x)@) =~= t0);
    lemma_number_written(x.subscribe_id);
    lemma_number_first(varint_bytes(x.subscribe_id), x.subscribe_id, t1);
    lemma_number_written(x.track_alias);
    lemma_number_first(varint_bytes(x.track_alias), x.track_alias, t2);
    lemma_texts_written(texts(x.track_namespace@));
    lemma_texts_first(tuple_bytes(texts(x.track_namespace@)), texts(x.track_namespace@), t3);
    lemma_text_written(x.track_name@);
    lemma_text_first(string_bytes(x.track_name@), x.track_name@, t4);
    assert(t4.skip(2) =~= t5);
    lemma_number_written(x.filter_type);
    lemma_number_first(varint_bytes(x.filter_type), x.filter_type, end);
}

/// Whoever wrote them, these fields are read as a Subscribe, and what comes behind them in
/// the payload is ignored. If the
/// payload ends before its bytes, it is not read.
pub proof fn subscribe_reading(
    x: Subscribe,
    subscribe_id: Seq<u8>,
    track_alias: Seq<u8>,
    track_namespace: Seq<u8>,
    track_name: Seq<u8>,
    filter_type: Seq<u8>,
    rest: Seq<u8>,
    cut: Seq<u8>,
)
    requires
        spells_number(subscribe_id, x.subscribe_id),
        spells_number(track_alias, x.track_alias),
        spells_texts(track_namespace, texts(x.track_namespace@)),
        spells_text(track_name, x.track_name@),
        spells_number(filter_type, x.filter_type),
        cut.len() < 2,
    ensures
        ({
            let payload = subscribe_id + track_alias + track_namespace + track_name
                + seq![x.subscriber_priority, x.group_order] + filter_type + rest;
            parse_payload(0x03, payload) == Ok::<MessageView, CodecError>(Message::Subscribe(x)@)
        }),
        ({
            let payload = subscribe_id + track_alias + track_namespace + track_name + cut;
            parse_payload(0x03, payload) == Err::<MessageView, CodecError>(
                CodecError::SubscribeTruncated,
            )
        }),
{
    let t5 = filter_type + rest;
    let t4 = seq![x.subscriber_priority, x.group_order] + t5;
    let t3 = track_name + t4;
    let t2 = track_namespace + t3;
    let t1 = track_alias + t2;
    let t0 = subscribe_id + t1;
    assert(subscribe_id + track_alias + track_namespace + track_name
        + seq![x.subscriber_priority, x.group_order] + filter_type + rest =~= t0);
    lemma_number_first(subscribe_id, x.subscribe_id, t1);
    lemma_number_first(track_alias, x.track_alias, t2);
    lemma_texts_first(track_namespace, texts(x.track_namespace@), t3);
    lemma_text_first(track_name, x.track_name@, t4);
    assert(t4.skip(2) =~= t5);
    lemma_number_first(filter_type, x.filter_type, rest);
    let c3 = track_name + cut;
    let c2 = track_namespace + c3;
    let c1 = track_alias + c2;
    let c0 = subscribe_id + c1;
    assert(subscribe_id + track_alias + track_namespace + track_name + cut =~= c0);
    lemma_number_first(subscribe_id, x.subscribe_id, c1);
    lemma_number_first(track_alias, x.track_alias, c2);
    lemma_texts_first(track_namespace, texts(x.track_namespace@), c3);
    lemma_text_first(track_name, x.track_name@, cut);
}

/// A SubscribeOk holds the identifier of the subscription, the time after which it
/// expires, the byte of its group order, and a flag: 1 if there is content, 0 if not.
pub proof fn subscribe_ok_layout(x: SubscribeOk)
    requires
        x.subscribe_id <= 4611686018427387903,
        x.expires <= 4611686018427387903,
    ensures
        message_fits(Message::SubscribeOk(x)@),
        ({
            let f1 = parse_varint(payload_bytes(Message::SubscribeOk(x)@));
            let f2 = parse_varint(f1.rest);
            &&& f1.outcome == Ok::<u64, CodecError>(x.subscribe_id)
            &&& f2.outcome == Ok::<u64, CodecError>(x.expires)
            &&& f2.rest == seq![x.group_order, if x.content_exists { 1u8 } else { 0u8 }]
        }),
{
    let end = Seq::<u8>::empty();
    let t2 = seq![x.group_order, if x.content_exists { 1u8 } else { 0u8 }] + end;
    let t1 = varint_bytes(x.expires) + t2;
    let t0 = varint_bytes(x.subscribe_id) + t1;
    assert(payload_bytes(Message::SubscribeOk(x)@) =~= t0);
    lemma_number_written(x.subscribe_id);
    lemma_number_first(varint_bytes(x.subscribe_id), x.subscribe_id, t1);
    lemma_number_written(x.expires);
    lemma_number_first(varint_bytes(x.expires), x.expires, t2);
    assert(t2 =~= seq![x.group_order, if x.content_exists { 1u8 } else { 0u8 }]);
}

/// Whoever wrote them, these fields are read as a SubscribeOk, and what comes behind them in
/// the payload is ignored. Any byte but 0 raises the flag. If the
/// payload ends before its bytes, it is not read.
pub proof fn subscribe_ok_reading(
    x: SubscribeOk,
    subscribe_id: Seq<u8>,
    expires: Seq<u8>,
    flag: u8,
    rest: Seq<u8>,
    cut: Seq<u8>,
)
    requires
        spells_number(subscribe_id, x.subscribe_id),
        spells_number(expires, x.expires),
        x.content_exists <==> flag != 0,
        cut.len() < 2,
    ensures
        ({
            let payload = subscribe_id + expires + seq![x.group_order, flag] + rest;
            parse_payload(0x04, payload) == Ok::<MessageView, CodecError>(Message::SubscribeOk(x)@)
        }),
        ({
            let payload = subscribe_id + expires + cut;
            parse_payload(0x04, payload) == Err::<MessageView, CodecError>(
                CodecError::SubscribeOkTruncated,
            )
        }),
{
    let t2 = seq![x.group_order, flag] + rest;
    let t1 = expires + t2;
    let t0 = subscribe_id + t1;
    assert(subscribe_id + expires + seq![x.group_order, flag] + rest =~= t0);
    lemma_number_first(subscribe_id, x.subscribe_id, t1);
    lemma_number_first(expires, x.expires, t2);
    assert(t2.skip(2) =~= rest);
    let c1 = expires + cut;
    let c0 = subscribe_id + c1;
    assert(subscribe_id + expires + cut =~= c0);
    lemma_number_first(subscribe_id, x.subscribe_id, c1);
    lemma_number_first(expires, x.expires, cut);
}

/// A RequestError holds the identifier of the request, the code and the reason.
pub proof fn request_error_layout(x: RequestError)
    requires
        x.subscribe_id <= 4611686018427387903,
        x.error_code <= 4611686018427387903,
        encode_utf8(x.reason_phrase@).len() <= 4611686018427387903,
    ensures
        message_fits(Message::RequestError(x)@),
        ({
            let f1 = parse_varint(payload_bytes(Message::RequestError(x)@));
            let f2 = parse_varint(f1.rest);
            let f3 = parse_string(f2.rest);
            &&& f1.outcome == Ok::<u64, CodecError>(x.subscribe_id)
            &&& f2.outcome == Ok::<u64, CodecError>(x.error_code)
            &&& f3.outcome == Ok::<Seq<char>, CodecError>(x.reason_phrase@)
            &&& f3.rest.len() == 0
        }),
{
    let end = Seq::<u8>::empty();
    let t2 = string_bytes(x.reason_phrase@) + end;
    let t1 = varint_bytes(x.error_code) + t2;
    let t0 = varint_bytes(x.subscribe_id) + t1;
    assert(payload_bytes(Message::RequestError(x)@) =~= t0);
    lemma_number_written(x.subscribe_id);
    lemma_number_first(varint_bytes(x.subscribe_id), x.subscribe_id, t1);
    lemma_number_written(x.error_code);
    lemma_number_first(varint_bytes(x.error_code), x.error_code, t2);
    lemma_text_written(x.reason_phrase@);
    lemma_text_first(string_bytes(x.reason_phrase@), x.reason_phrase@, end);
}

/// Whoever wrote them, these fields are read as a RequestError, and what comes behind them in
/// the payload is ignored.
pub proof fn request_error_reading(
    x: RequestError,
    subscribe_id: Seq<u8>,
    error_code: Seq<u8>,
    reason_phrase: Seq<u8>,
    rest: Seq<u8>,
)
    requires
        spells_number(subscribe_id, x.subscribe_id),
        spells_number(error_code, x.error_code),
        spells_text(reason_phrase, x.reason_phrase@),
    ensures
        ({
            let payload = subscribe_id + error_code + reason_phrase + rest;
            parse_payload(0x05, payload) == Ok::<MessageView, CodecError>(Message::RequestError(x)@)
        }),
{
    let t2 = reason_phrase + rest;
    let t1 = error_code + t2;
    let t0 = subscribe_id + t1;
    assert(subscribe_id + error_code + reason_phrase + rest =~= t0);
    lemma_number_first(subscribe_id, x.subscribe_id, t1);
    lemma_number_first(error_code, x.error_code, t2);
    lemma_text_first(reason_phrase, x.reason_phrase@, rest);
}

/// An Unsubscribe holds the identifier of the subscription.
pub proof fn unsubscribe_layout(x: Unsubscribe)
    requires
        x.subscribe_id <= 4611686018427387903,
    ensures
        message_fits(Message::Unsubscribe(x)@),
        ({
            let f1 = parse_varint(payload_bytes(Message::Unsubscribe(x)@));
            &&& f1.outcome == Ok::<u64, CodecError>(x.subscribe_id)
            &&& f1.rest.len() == 0
        }),
{
    let end = Seq::<u8>::empty();
    let t0 = varint_bytes(x.subscribe_id) + end;
    assert(payload_bytes(Message::Unsubscribe(x)@) =~= t0);
    lemma_number_written(x.subscribe_id);
    lemma_number_first(varint_bytes(x.subscribe_id), x.subscribe_id, end);
}

/// Whoever wrote them, these fields are read as a Unsubscribe, and what comes behind them in
/// the payload is ignored.
pub proof fn unsubscribe_reading(
    x: Unsubscribe,
    subscribe_id: Seq<u8>,
    rest: Seq<u8>,
)
    requires
        spells_number(subscribe_id, x.subscribe_id),
    ensures
        ({
            let payload = subscribe_id + rest;
            parse_payload(0x0a, payload) == Ok::<MessageView, CodecError>(Message::Unsubscribe(x)@)
        }),
{
    let t0 = subscribe_id + rest;
    assert(subscribe_id + rest =~= t0);
    lemma_number_first(subscribe_id, x.subscribe_id, rest);
}

/// A SubscribeDone holds the identifier of the subscription, the code, the reason and
/// a flag: 1 if there is content, 0 if not.
pub proof fn subscribe_done_layout(x: SubscribeDone)
    requires
        x.subscribe_id <= 4611686018427387903,
        x.status_code <= 4611686018427387903,
        encode_utf8(x.reason_phrase@).len() <= 4611686018427387903,
    ensures
        message_fits(Message::SubscribeDone(x)@),
        ({
            let f1 = parse_varint(payload_bytes(Message::SubscribeDone(x)@));
            let f2 = parse_varint(f1.rest);
            let f3 = parse_string(f2.rest);
            &&& f1.outcome == Ok::<u64, CodecError>(x.subscribe_id)
            &&& f2.outcome == Ok::<u64, CodecError>(x.status_code)
            &&& f3.outcome == Ok::<Seq<char>, CodecError>(x.reason_phrase@)
            &&& f3.rest == seq![if x.content_exists { 1u8 } else { 0u8 }]
        }),
{
    let end = Seq::<u8>::empty();
    let t3 = seq![if x.content_exists { 1u8 } else { 0u8 }] + end;
    let t2 = string_bytes(x.reason_phrase@) + t3;
    let t1 = varint_bytes(x.status_code) + t2;
    let t0 = varint_bytes(x.subscribe_id) + t1;
    assert(payload_bytes(Message::SubscribeDone(x)@) =~= t0);
    lemma_number_written(x.subscribe_id);
    lemma_number_first(varint_bytes(x.subscribe_id), x.subscribe_id, t1);
    lemma_number_written(x.status_code);
    lemma_number_first(varint_bytes(x.status_code), x.status_code, t2);
    lemma_text_written(x.reason_phrase@);
    lemma_text_first(string_bytes(x.reason_phrase@), x.reason_phrase@, t3);
    assert(t3 =~= seq![if x.content_exists { 1u8 } else { 0u8 }]);
}

/// Whoever wrote them, these fields are read as a SubscribeDone, and what comes behind them in
/// the payload is ignored. Any byte but 0 raises the flag. If the
/// payload ends before its bytes, it is not read.
pub proof fn subscribe_done_reading(
    x: SubscribeDone,
    subscribe_id: Seq<u8>,
    status_code: Seq<u8>,
    reason_phrase: Seq<u8>,
    flag: u8,
    rest: Seq<u8>,
    cut: Seq<u8>,
)
    requires
        spells_number(subscribe_id, x.subscribe_id),
        spells_number(status_code, x.status_code),
        spells_text(reason_phrase, x.reason_phrase@),
        x.content_exists <==> flag != 0,
        cut.len() < 1,
    ensures
        ({
            let payload = subscribe_id + status_code + reason_phrase + seq![flag] + rest;
            parse_payload(0x0b, payload) == Ok::<MessageView, CodecError>(
                Message::SubscribeDone(x)@,
            )
        }),
        ({
            let payload = subscribe_id + status_code + reason_phrase + cut;
            parse_payload(0x0b, payload) == Err::<MessageView, CodecError>(
                CodecError::SubscribeDoneTruncated,
            )
        }),
{
    let t3 = seq![flag] + rest;
    let t2 = reason_phrase + t3;
    let t1 = status_code + t2;
    let t0 = subscribe_id + t1;
    assert(subscribe_id + status_code + reason_phrase + seq![flag] + rest =~= t0);
    lemma_number_first(subscribe_id, x.subscribe_id, t1);
    lemma_number_first(status_code, x.status_code, t2);
    lemma_text_first(reason_phrase, x.reason_phrase@, t3);
    assert(t3.skip(1) =~= rest);
    let c2 = reason_phrase + cut;
    let c1 = status_code + c2;
    let c0 = subscribe_id + c1;
    assert(subscribe_id + status_code + reason_phrase + cut =~= c0);
    lemma_number_first(subscribe_id, x.subscribe_id, c1);
    lemma_number_first(status_code, x.status_code, c2);
    lemma_text_first(reason_phrase, x.reason_phrase@, cut);
}

/// A GoAway holds the address of the new session.
pub proof fn goaway_layout(x: GoAway)
    requires
        encode_utf8(x.new_session_uri@).len() <= 4611686018427387903,
    ensures
        message_fits(Message::GoAway(x)@),
        ({
            let f1 = parse_string(payload_bytes(Message::GoAway(x)@));
            &&& f1.outcome == Ok::<Seq<char>, CodecError>(x.new_session_uri@)
            &&& f1.rest.len() == 0
        }),
{
    let end = Seq::<u8>::empty();
    let t0 = string_bytes(x.new_session_uri@) + end;
    assert(payload_bytes(Message::GoAway(x)@) =~= t0);
    lemma_text_written(x.new_session_uri@);
    lemma_text_first(string_bytes(x.new_session_uri@), x.new_session_uri@, end);
}

/// Whoever wrote them, these fields are read as a GoAway, and what comes behind them in
/// the payload is ignored.
pub proof fn goaway_reading(
    x: GoAway,
    new_session_uri: Seq<u8>,
    rest: Seq<u8>,
)
    requires
        spells_text(new_session_uri, x.new_session_uri@),
    ensures
        ({
            let payload = new_session_uri + rest;
            parse_payload(0x10, payload) == Ok::<MessageView, CodecError>(Message::GoAway(x)@)
        }),
{
    let t0 = new_session_uri + rest;
    assert(new_session_uri + rest =~= t0);
    lemma_text_first(new_session_uri, x.new_session_uri@, rest);
}

/// A Publish holds the name space and the name of the track, the bytes of its
/// priority and its group order, and the number of its parameters, which is zero.
pub proof fn publish_layout(x: Publish)
    requires
        writable(texts(x.track_namespace@)),
        encode_utf8(x.track_name@).len() <= 4611686018427387903,
    ensures
        message_fits(Message::Publish(x)@),
        ({
            let f1 = parse_tuple(payload_bytes(Message::Publish(x)@));
            let f2 = parse_string(f1.rest);
            let f3 = parse_varint(f2.rest.skip(2));
            &&& f1.outcome == Ok::<Seq<Seq<char>>, CodecError>(texts(x.track_namespace@))
            &&& f2.outcome == Ok::<Seq<char>, CodecError>(x.track_name@)
            &&& f2.rest.len() >= 2
            &&& f2.rest[0] == x.subscriber_priority
            &&& f2.rest[1] == x.group_order
            &&& f3.outcome == Ok::<u64, CodecError>(0)
            &&& f3.rest.len() == 0
        }),
{
    let end = Seq::<u8>::empty();
    let t3 = varint_bytes(0) + end;
    let t2 = seq![x.subscriber_priority, x.group_order] + t3;
    let t1 = string_bytes(x.track_name@) + t2;
    let t0 = tuple_bytes(texts(x.track_namespace@)) + t1;
    assert(payload_bytes(Message::Publish(x)@) =~= t0);
    lemma_texts_written(texts(x.track_namespace@));
    lemma_texts_first(tuple_bytes(texts(x.track_namespace@)), texts(x.track_namespace@), t1);
    lemma_text_written(x.track_name@);
    lemma_text_first(string_bytes(x.track_name@), x.track_name@, t2);
    assert(t2.skip(2) =~= t3);
    lemma_number_written(0);
    lemma_number_first(varint_bytes(0), 0, end);
}

/// Whoever wrote them, these fields are read as a Publish, and what comes behind them in
/// the payload is ignored. So are the parameters, however many there are. If the
/// payload ends before its bytes, it is not read.
pub proof fn publish_reading(
    x: Publish,
    track_namespace: Seq<u8>,
    track_name: Seq<u8>,
    count: Seq<u8>,
    params: u64,
    rest: Seq<u8>,
    cut: Seq<u8>,
)
    requires
        spells_texts(track_namespace, texts(x.track_namespace@)),
        spells_text(track_name, x.track_name@),
        spells_number(count, params),
        cut.len() < 2,
    ensures
        ({
            let payload = track_namespace + track_name
                + seq![x.subscriber_priority, x.group_order] + count + rest;
            parse_payload(0x1d, payload) == Ok::<MessageView, CodecError>(Message::Publish(x)@)
        }),
        ({
            let payload = track_namespace + track_name + cut;
            parse_payload(0x1d, payload) == Err::<MessageView, CodecError>(
                CodecError::PublishTruncated,
            )
        }),
{
    let t3 = count + rest;
    let t2 = seq![x.subscriber_priority, x.group_order] + t3;
    let t1 = track_name + t2;
    let t0 = track_namespace + t1;
    assert(track_namespace + track_name + seq![x.subscriber_priority, x.group_order] + count
        + rest =~= t0);
    lemma_texts_first(track_namespace, texts(x.track_namespace@), t1);
    lemma_text_first(track_name, x.track_name@, t2);
    assert(t2.skip(2) =~= t3);
    lemma_number_first(count, params, rest);
    let c1 = track_name + cut;
    let c0 = track_namespace + c1;
    assert(track_namespace + track_name + cut =~= c0);
    lemma_texts_first(track_namespace, texts(x.track_namespace@), c1);
    lemma_text_first(track_name, x.track_name@, cut);
}

/// A PublishOk holds the name space and the name of the track, and the number of its
/// parameters, which is zero.
pub proof fn publish_ok_layout(x: PublishOk)
    requires
        writable(texts(x.track_namespace@)),
        encode_utf8(x.track_name@).len() <= 4611686018427387903,
    ensures
        message_fits(Message::PublishOk(x)@),
        ({
            let f1 = parse_tuple(payload_bytes(Message::PublishOk(x)@));
            let f2 = parse_string(f1.rest);
            let f3 = parse_varint(f2.rest);
            &&& f1.outcome == Ok::<Seq<Seq<char>>, CodecError>(texts(x.track_namespace@))
            &&& f2.outcome == Ok::<Seq<char>, CodecError>(x.track_name@)
            &&& f3.outcome == Ok::<u64, CodecError>(0)
            &&& f3.rest.len() == 0
        }),
{
    let end = Seq::<u8>::empty();
    let t2 = varint_bytes(0) + end;
    let t1 = string_bytes(x.track_name@) + t2;
    let t0 = tuple_bytes(texts(x.track_namespace@)) + t1;
    assert(payload_bytes(Message::PublishOk(x)@) =~= t0);
    lemma_texts_written(texts(x.track_namespace@));
    lemma_texts_first(tuple_bytes(texts(x.track_namespace@)), texts(x.track_namespace@), t1);
    lemma_text_written(x.track_name@);
    lemma_text_first(string_bytes(x.track_name@), x.track_name@, t2);
    lemma_number_written(0);
    lemma_number_first(varint_bytes(0), 0, end);
}

/// Whoever wrote them, these fields are read as a PublishOk, and what comes behind them in
/// the payload is ignored. So are the parameters, however many there are.
pub proof fn publish_ok_reading(
    x: PublishOk,
    track_namespace: Seq<u8>,
    track_name: Seq<u8>,
    count: Seq<u8>,
    params: u64,
    rest: Seq<u8>,
)
    requires
        spells_texts(track_namespace, texts(x.track_namespace@)),
        spells_text(track_name, x.track_name@),
        spells_number(count, params),
    ensures
        ({
            let payload = track_namespace + track_name + count + rest;
            parse_payload(0x1e, payload) == Ok::<MessageView, CodecError>(Message::PublishOk(x)@)
        }),
{
    let t2 = count + rest;
    let t1 = track_name + t2;
    let t0 = track_namespace + t1;
    assert(track_namespace + track_name + count + rest =~= t0);
    lemma_texts_first(track_namespace, texts(x.track_namespace@), t1);
    lemma_text_first(track_name, x.track_name@, t2);
    lemma_number_first(count, params, rest);
}

/// A setup parameter is written as a number that tells its kind, the length of its
/// value, and its value: a number, or the bytes of a text. Nothing is written of one
/// whose kind is unknown.
pub proof fn param_layout(p: SetupParameter)
    requires
        writable_param(p),
    ensures
        ({
            let key = parse_varint(param_bytes(p@));
            let length = parse_varint(key.rest);
            let value = parse_varint(length.rest);
            match p {
                SetupParameter::Role(v) => {
                    &&& key.outcome == Ok::<u64, CodecError>(0)
                    &&& length.outcome == Ok::<u64, CodecError>(length.rest.len() as u64)
                    &&& value.outcome == Ok::<u64, CodecError>(v)
                    &&& value.rest.len() == 0
                },
                SetupParameter::Path(text) => {
                    &&& key.outcome == Ok::<u64, CodecError>(1)
                    &&& length.outcome == Ok::<u64, CodecError>(encode_utf8(text@).len() as u64)
                    &&& length.rest == encode_utf8(text@)
                },
                SetupParameter::MaxSubscribeId(v) => {
                    &&& key.outcome == Ok::<u64, CodecError>(2)
                    &&& length.outcome == Ok::<u64, CodecError>(length.rest.len() as u64)
                    &&& value.outcome == Ok::<u64, CodecError>(v)
                    &&& value.rest.len() == 0
                },
                SetupParameter::Unknown(_) => param_bytes(p@).len() == 0,
            }
        }),
{
    match p {
        SetupParameter::Role(v) => lemma_number_param_layout(0, v),
        SetupParameter::Path(text) => {
            varint_roundtrip(1, string_bytes(text@));
            varint_roundtrip(encode_utf8(text@).len() as u64, encode_utf8(text@));
        },
        SetupParameter::MaxSubscribeId(v) => lemma_number_param_layout(2, v),
        SetupParameter::Unknown(_) => {},
    }
}

proof fn lemma_number_param_layout(key: u64, v: u64)
    requires
        key <= 2,
        v <= 4611686018427387903,
    ensures
        ({
            let b = varint_bytes(v);
            let n = b.len() as u64;
            let s = varint_bytes(key) + varint_bytes(n) + b;
            &&& parse_varint(s) == (Parsed { outcome: Ok(key), rest: varint_bytes(n) + b })
            &&& parse_varint(varint_bytes(n) + b) == (Parsed { outcome: Ok(n), rest: b })
            &&& n == b.len()
            &&& parse_varint(b) == (Parsed { outcome: Ok(v), rest: Seq::empty() })
        }),
{
    let b = varint_bytes(v);
    let n = b.len() as u64;
    varint_layout(v);
    assert(varint_bytes(key) + varint_bytes(n) + b =~= varint_bytes(key) + (varint_bytes(n) + b));
    varint_roundtrip(key, varint_bytes(n) + b);
    varint_roundtrip(n, b);
    lemma_number_written(v);
}

/// Whoever wrote it, a setup parameter is read from a number that tells its kind,
/// the length of its value, and its value. A Role and a MaxSubscribeId are numbers
/// that their values start with, a Path is the text of its value, and of any other
/// kind the value is passed over. What comes behind the value is left.
pub proof fn param_reading(
    key: Seq<u8>,
    kind: u64,
    length: Seq<u8>,
    value: Seq<u8>,
    rest: Seq<u8>,
    number: u64,
    text: Seq<char>,
)
    requires
        spells_number(key, kind),
        spells_number(length, value.len() as u64),
        value.len() <= 4611686018427387903,
        kind == 0 || kind == 2 ==> parse_varint(value).outcome == Ok::<u64, CodecError>(number),
        kind == 1 ==> spells_text(length + value, text),
    ensures
        parse_param(key + length + value + rest) == (Parsed {
            outcome: Ok::<SetupParameterView, CodecError>(
                if kind == 0 {
                    SetupParameterView::Role(number)
                } else if kind == 1 {
                    SetupParameterView::Path(text)
                } else if kind == 2 {
                    SetupParameterView::MaxSubscribeId(number)
                } else {
                    SetupParameterView::Unknown(kind)
                },
            ),
            rest,
        }),
{
    let tail = length + (value + rest);
    assert(key + length + value + rest =~= key + tail);
    lemma_number_first(key, kind, tail);
    lemma_number_first(length, value.len() as u64, value + rest);
    assert((value + rest).take(value.len() as int) =~= value);
    assert((value + rest).skip(value.len() as int) =~= rest);
    if kind == 1 {
        assert(tail =~= (length + value) + rest);
        lemma_text_first(length + value, text, rest);
    }
}

/// A setup parameter whose value is cut short is not read.
pub proof fn cut_param_reading(key: Seq<u8>, kind: u64, length: Seq<u8>, n: u64, value: Seq<u8>)
    requires
        spells_number(key, kind),
        spells_number(length, n),
        value.len() < n,
    ensures
        parse_param(key + length + value).outcome == Err::<SetupParameterView, CodecError>(
            if kind == 0 {
                CodecError::RoleTruncated
            } else if kind == 1 {
                CodecError::StringTruncated(n)
            } else if kind == 2 {
                CodecError::MaxSubscribeIdTruncated
            } else {
                CodecError::UnknownParameterTruncated(kind)
            },
        ),
{
    assert(key + length + value =~= key + (length + value));
    lemma_number_first(key, kind, length + value);
    lemma_number_first(length, n, value);
}

/// The views of a Role, a Path and a MaxSubscribeId hold what these hold.
pub proof fn param_views_are_faithful(p: SetupParameter, q: SetupParameter)
    requires
        p@ == q@,
    ensures
        match (p, q) {
            (SetupParameter::Role(a), SetupParameter::Role(b)) => a == b,
            (SetupParameter::Path(a), SetupParameter::Path(b)) => a@ == b@,
            (SetupParameter::MaxSubscribeId(a), SetupParameter::MaxSubscribeId(b)) => a == b,
            (SetupParameter::Unknown(a), SetupParameter::Unknown(b)) => a == b,
            _ => false,
        },
{
}

/// A setup parameter whose number or text can be written.
pub open spec fn writable_param(p: SetupParameter) -> bool {
    match p {
        SetupParameter::Role(v) => v <= 4611686018427387903,
        SetupParameter::Path(text) => encode_utf8(text@).len() <= 4611686018427387903,
        SetupParameter::MaxSubscribeId(v) => v <= 4611686018427387903,
        SetupParameter::Unknown(_) => true,
    }
}

/// The parameters of a setup are written as the number of those whose kinds are
/// known, and each of them, in order.
pub proof fn setup_layout(params: Seq<SetupParameter>)
    requires
        params.len() <= 4611686018427387903,
    ensures
        (forall|i: int| 0 <= i < params.len() ==> writable_param(#[trigger] params[i]))
            ==> params_fit(param_views(params)),
        parse_varint(setup_bytes(param_views(params))) == (Parsed {
            outcome: Ok(params.filter(|p: SetupParameter| !(p is Unknown)).len() as u64),
            rest: Seq::new(params.len(), |i: int| param_bytes(params[i]@)).flatten(),
        }),
{
    if forall|i: int| 0 <= i < params.len() ==> writable_param(#[trigger] params[i]) {
        assert forall|i: int| 0 <= i < params.len() implies param_fits(
            #[trigger] param_views(params)[i],
        ) by {
            assert(writable_param(params[i]));
        }
    }
    lemma_known_count(params);
    lemma_params_flatten(params);
    varint_roundtrip(
        known_part(param_views(params)).len() as u64,
        params_bytes(param_views(params)),
    );
}

proof fn lemma_known_count(params: Seq<SetupParameter>)
    ensures
        known_part(param_views(params)).len() == params.filter(
            |p: SetupParameter| !(p is Unknown),
        ).len(),
        params.filter(|p: SetupParameter| !(p is Unknown)).len() <= params.len(),
    decreases params.len(),
{
    reveal(Seq::filter);
    if params.len() > 0 {
        lemma_known_count(params.drop_last());
        assert(param_views(params).drop_last() =~= param_views(params.drop_last()));
    }
}

proof fn lemma_params_flatten(params: Seq<SetupParameter>)
    ensures
        params_bytes(param_views(params)) == Seq::new(
            params.len(),
            |i: int| param_bytes(params[i]@),
        ).flatten(),
    decreases params.len(),
{
    let pieces = Seq::new(params.len(), |i: int| param_bytes(params[i]@));
    pieces.lemma_flatten_and_flatten_alt_are_equivalent();
    if params.len() > 0 {
        let init = params.drop_last();
        lemma_params_flatten(init);
        let before = Seq::new(init.len(), |i: int| param_bytes(init[i]@));
        before.lemma_flatten_and_flatten_alt_are_equivalent();
        assert(pieces.drop_last() =~= before);
        assert(param_views(params).drop_last() =~= param_views(init));
    }
}

/// Bytes that are a setup parameter and nothing else.
pub open spec fn spells_param(s: Seq<u8>, p: SetupParameter) -> bool {
    parse_param(s) == (Parsed { outcome: Ok(p@), rest: Seq::empty() })
}

/// The parameters of a setup are read from their number, however written, and each
/// of them, in order. What comes behind them is left.
pub proof fn setup_reading(
    count: Seq<u8>,
    pieces: Seq<Seq<u8>>,
    params: Seq<SetupParameter>,
    rest: Seq<u8>,
)
    requires
        pieces.len() == params.len() <= 4611686018427387903,
        spells_number(count, params.len() as u64),
        forall|i: int| 0 <= i < params.len() ==> spells_param(#[trigger] pieces[i], params[i]),
    ensures
        parse_setup(count + pieces.flatten() + rest) == (Parsed {
            outcome: Ok(param_views(params)),
            rest,
        }),
{
    assert(count + pieces.flatten() + rest =~= count + (pieces.flatten() + rest));
    lemma_number_first(count, params.len() as u64, pieces.flatten() + rest);
    lemma_params_reading(pieces, params, rest);
}

/// A setup is not read if one of its parameters is not, be it that the bytes end
/// before it, and for the same reason.
pub proof fn setup_fails(
    count: Seq<u8>,
    n: u64,
    pieces: Seq<Seq<u8>>,
    params: Seq<SetupParameter>,
    s: Seq<u8>,
    e: CodecError,
)
    requires
        pieces.len() == params.len() < n,
        spells_number(count, n),
        forall|i: int| 0 <= i < params.len() ==> spells_param(#[trigger] pieces[i], params[i]),
        parse_param(s).outcome == Err::<SetupParameterView, CodecError>(e),
    ensures
        parse_setup(count + pieces.flatten() + s).outcome == Err::<
            Seq<SetupParameterView>,
            CodecError,
        >(e),
        parse_payload(0x20, count + pieces.flatten() + s) == Err::<MessageView, CodecError>(e),
        parse_payload(0x21, count + pieces.flatten() + s) == Err::<MessageView, CodecError>(e),
{
    let tail = pieces.flatten() + s;
    assert(count + pieces.flatten() + s =~= count + tail);
    lemma_number_first(count, n, tail);
    lemma_params_reading(pieces, params, s);
    let k = params.len() + 1;
    assert(parse_params(tail, k).outcome == Err::<Seq<SetupParameterView>, CodecError>(e));
    lemma_parse_params_stuck(tail, k, n as nat);
}

proof fn lemma_params_reading(pieces: Seq<Seq<u8>>, params: Seq<SetupParameter>, rest: Seq<u8>)
    requires
        pieces.len() == params.len(),
        forall|i: int| 0 <= i < params.len() ==> spells_param(#[trigger] pieces[i], params[i]),
    ensures
        parse_params(pieces.flatten() + rest, params.len()) == (Parsed {
            outcome: Ok(param_views(params)),
            rest,
        }),
    decreases params.len(),
{
    pieces.lemma_flatten_and_flatten_alt_are_equivalent();
    if params.len() == 0 {
        assert(pieces =~= Seq::empty());
        assert(pieces.flatten() + rest =~= rest);
        assert(param_views(params) =~= Seq::empty());
    } else {
        let before = pieces.drop_last();
        before.lemma_flatten_and_flatten_alt_are_equivalent();
        let tail = pieces.last() + rest;
        lemma_params_reading(before, params.drop_last(), tail);
        assert(pieces.flatten() + rest =~= before.flatten() + tail);
        assert(spells_param(pieces[pieces.len() - 1], params[params.len() - 1]));
        lemma_param_read_alike(pieces.last(), rest);
        assert(Seq::<u8>::empty() + rest =~= rest);
        assert(param_views(params.drop_last()).push(params.last()@) =~= param_views(params));
    }
}

proof fn lemma_param_read_alike(s: Seq<u8>, t: Seq<u8>)
    requires
        parse_param(s).outcome is Ok,
    ensures
        parse_param(s + t) == (Parsed {
            outcome: parse_param(s).outcome,
            rest: parse_param(s).rest + t,
        }),
{
    lemma_varint_read_alike(s, t);
    let r = parse_varint(s).rest;
    let kind = parse_varint(s).outcome->Ok_0;
    if kind == 1 {
        lemma_string_read_alike(r, t);
    } else {
        lemma_varint_read_alike(r, t);
        let value = parse_varint(r).rest;
        let n = parse_varint(r).outcome->Ok_0 as int;
        assert((value + t).take(n) =~= value.take(n));
        assert((value + t).skip(n) =~= value.skip(n) + t);
    }
}

/// The setups of a client and of a server hold their parameters and nothing else.
pub proof fn setups_layout(c: ClientSetup, s: ServerSetup)
    ensures
        payload_bytes(Message::ClientSetup(c)@) == setup_bytes(param_views(c.params@)),
        payload_bytes(Message::ServerSetup(s)@) == setup_bytes(param_views(s.params@)),
        params_fit(param_views(c.params@)) ==> message_fits(Message::ClientSetup(c)@),
        params_fit(param_views(s.params@)) ==> message_fits(Message::ServerSetup(s)@),
{
}

/// Whoever wrote them, parameters are read as the setup of a client or of a server,
/// and what comes behind them in the payload is ignored.
pub proof fn setups_reading(
    c: ClientSetup,
    s: ServerSetup,
    count: Seq<u8>,
    pieces: Seq<Seq<u8>>,
    rest: Seq<u8>,
)
    requires
        c.params@ == s.params@,
        pieces.len() == c.params@.len() <= 4611686018427387903,
        spells_number(count, pieces.len() as u64),
        forall|i: int| 0 <= i < pieces.len() ==> spells_param(#[trigger] pieces[i], c.params@[i]),
    ensures
        parse_payload(0x20, count + pieces.flatten() + rest) == Ok::<MessageView, CodecError>(
            Message::ClientSetup(c)@,
        ),
        parse_payload(0x21, count + pieces.flatten() + rest) == Ok::<MessageView, CodecError>(
            Message::ServerSetup(s)@,
        ),
{
    setup_reading(count, pieces, c.params@, rest);
}

/// A subgroup header is written as the identifier of the subscription, the alias of
/// the track, the group and the subgroup, and the byte of its priority.
pub proof fn header_layout(h: SubgroupHeader)
    requires
        h.subscribe_id <= 4611686018427387903,
        h.track_alias <= 4611686018427387903,
        h.group_id <= 4611686018427387903,
        h.subgroup_id <= 4611686018427387903,
    ensures
        header_fits(h),
        ({
            let f1 = parse_varint(header_bytes(h));
            let f2 = parse_varint(f1.rest);
            let f3 = parse_varint(f2.rest);
            let f4 = parse_varint(f3.rest);
            &&& f1.outcome == Ok::<u64, CodecError>(h.subscribe_id)
            &&& f2.outcome == Ok::<u64, CodecError>(h.track_alias)
            &&& f3.outcome == Ok::<u64, CodecError>(h.group_id)
            &&& f4.outcome == Ok::<u64, CodecError>(h.subgroup_id)
            &&& f4.rest == seq![h.publisher_priority]
        }),
{
    let t4 = seq![h.publisher_priority];
    let t3 = varint_bytes(h.subgroup_id) + t4;
    let t2 = varint_bytes(h.group_id) + t3;
    let t1 = varint_bytes(h.track_alias) + t2;
    assert(header_bytes(h) =~= varint_bytes(h.subscribe_id) + t1);
    varint_roundtrip(h.subscribe_id, t1);
    varint_roundtrip(h.track_alias, t2);
    varint_roundtrip(h.group_id, t3);
    varint_roundtrip(h.subgroup_id, t4);
}

/// Whoever wrote them, these fields are read as a subgroup header, and what comes
/// behind them is left. Without the last byte it is not read.
pub proof fn header_reading(
    h: SubgroupHeader,
    subscribe_id: Seq<u8>,
    track_alias: Seq<u8>,
    group_id: Seq<u8>,
    subgroup_id: Seq<u8>,
    rest: Seq<u8>,
)
    requires
        spells_number(subscribe_id, h.subscribe_id),
        spells_number(track_alias, h.track_alias),
        spells_number(group_id, h.group_id),
        spells_number(subgroup_id, h.subgroup_id),
    ensures
        parse_header(
            subscribe_id + track_alias + group_id + subgroup_id + seq![h.publisher_priority] + rest,
        ) == (Parsed { outcome: Ok(h), rest }),
        parse_header(subscribe_id + track_alias + group_id + subgroup_id).outcome == Err::<
            SubgroupHeader,
            CodecError,
        >(CodecError::PublisherPriorityMissing),
{
    let t4 = seq![h.publisher_priority] + rest;
    let t3 = subgroup_id + t4;
    let t2 = group_id + t3;
    let t1 = track_alias + t2;
    assert(subscribe_id + track_alias + group_id + subgroup_id + seq![h.publisher_priority] + rest
        =~= subscribe_id + t1);
    lemma_number_first(subscribe_id, h.subscribe_id, t1);
    lemma_number_first(track_alias, h.track_alias, t2);
    lemma_number_first(group_id, h.group_id, t3);
    lemma_number_first(subgroup_id, h.subgroup_id, t4);
    assert(t4.skip(1) =~= rest);
    let c3 = subgroup_id + Seq::<u8>::empty();
    let c2 = group_id + c3;
    let c1 = track_alias + c2;
    assert(subscribe_id + track_alias + group_id + subgroup_id =~= subscribe_id + c1);
    lemma_number_first(subscribe_id, h.subscribe_id, c1);
    lemma_number_first(track_alias, h.track_alias, c2);
    lemma_number_first(group_id, h.group_id, c3);
    lemma_number_first(subgroup_id, h.subgroup_id, Seq::empty());
}

/// The head of an object's stream is a subgroup header, the identifier of the object
/// and the length of its payload, in this order.
pub proof fn object_head_layout(head: ObjectHead)
    requires
        header_fits(head.header),
        head.object_id <= 4611686018427387903,
        head.payload_length <= 4611686018427387903,
    ensures
        object_head_fits(head),
        object_head_bytes(head).take(header_bytes(head.header).len() as int) == header_bytes(
            head.header,
        ),
        ({
            let f1 = parse_varint(
                object_head_bytes(head).skip(header_bytes(head.header).len() as int),
            );
            let f2 = parse_varint(f1.rest);
            &&& f1.outcome == Ok::<u64, CodecError>(head.object_id)
            &&& f2.outcome == Ok::<u64, CodecError>(head.payload_length)
            &&& f2.rest.len() == 0
        }),
{
    let b = header_bytes(head.header);
    let t = varint_bytes(head.object_id) + varint_bytes(head.payload_length);
    assert(object_head_bytes(head).take(b.len() as int) =~= b);
    assert(object_head_bytes(head).skip(b.len() as int) =~= t);
    varint_roundtrip(head.object_id, varint_bytes(head.payload_length));
    lemma_number_written(head.payload_length);
}

/// Whoever wrote it, an object is read from a subgroup header, its identifier, the
/// length of its payload and as many bytes. What comes behind them is ignored.
pub proof fn object_reading(
    header: Seq<u8>,
    h: SubgroupHeader,
    id: Seq<u8>,
    object_id: u64,
    length: Seq<u8>,
    payload: Seq<u8>,
    extra: Seq<u8>,
)
    requires
        forall|rest: Seq<u8>|
            #[trigger] parse_header(header + rest) == (Parsed::<SubgroupHeader> {
                outcome: Ok(h),
                rest,
            }),
        spells_number(id, object_id),
        spells_number(length, payload.len() as u64),
        payload.len() <= 4611686018427387903,
    ensures
        object_in_bounds(header + id + length + payload + extra),
        parse_object(header + id + length + payload + extra) == Ok::<
            (ObjectHead, Seq<u8>),
            CodecError,
        >(
            (
                ObjectHead { header: h, object_id, payload_length: payload.len() as u64 },
                payload,
            ),
        ),
        parse_object_head(header + id + length + payload + extra).rest == payload + extra,
{
    let t2 = length + (payload + extra);
    let t1 = id + t2;
    assert(header + id + length + payload + extra =~= header + t1);
    assert(parse_header(header + t1) == (Parsed::<SubgroupHeader> { outcome: Ok(h), rest: t1 }));
    lemma_number_first(id, object_id, t2);
    lemma_number_first(length, payload.len() as u64, payload + extra);
    assert((payload + extra).take(payload.len() as int) =~= payload);
}

/// A stream that ends before the payload that its head announces is not taken for a
/// complete one, and only such a stream is not.
pub proof fn cut_objects_are_noticed(
    header: Seq<u8>,
    h: SubgroupHeader,
    id: Seq<u8>,
    object_id: u64,
    length: Seq<u8>,
    n: u64,
    there: Seq<u8>,
)
    requires
        forall|rest: Seq<u8>|
            #[trigger] parse_header(header + rest) == (Parsed::<SubgroupHeader> {
                outcome: Ok(h),
                rest,
            }),
        spells_number(id, object_id),
        spells_number(length, n),
    ensures
        object_in_bounds(header + id + length + there) <==> n <= there.len(),
{
    let t2 = length + there;
    let t1 = id + t2;
    assert(header + id + length + there =~= header + t1);
    assert(parse_header(header + t1) == (Parsed::<SubgroupHeader> { outcome: Ok(h), rest: t1 }));
    lemma_number_first(id, object_id, t2);
    lemma_number_first(length, n, there);
}

/// A payload whose first field cannot be read is not read, for the same reason.
pub proof fn first_fields_fail(s: Seq<u8>, e: CodecError)
    ensures
        parse_varint(s).outcome == Err::<u64, CodecError>(e) ==> {
            let failed = Err::<MessageView, CodecError>(e);
            &&& parse_payload(0x03, s) == failed
            &&& parse_payload(0x04, s) == failed
            &&& parse_payload(0x05, s) == failed
            &&& parse_payload(0x0a, s) == failed
            &&& parse_payload(0x0b, s) == failed
            &&& parse_payload(0x20, s) == failed
            &&& parse_payload(0x21, s) == failed
        },
        parse_string(s).outcome == Err::<Seq<char>, CodecError>(e) ==> parse_payload(0x10, s)
            == Err::<MessageView, CodecError>(e),
        parse_tuple(s).outcome == Err::<Seq<Seq<char>>, CodecError>(e) ==> {
            &&& parse_payload(0x1d, s) == Err::<MessageView, CodecError>(e)
            &&& parse_payload(0x1e, s) == Err::<MessageView, CodecError>(e)
        },
{
}

/// Neither is one whose second or third field cannot be read.
pub proof fn later_fields_fail(
    id: Seq<u8>,
    a: u64,
    number: Seq<u8>,
    b: u64,
    namespace: Seq<u8>,
    parts: Seq<Seq<char>>,
    s: Seq<u8>,
    e: CodecError,
)
    requires
        spells_number(id, a),
        spells_number(number, b),
        spells_texts(namespace, parts),
    ensures
        parse_varint(s).outcome == Err::<u64, CodecError>(e) ==> {
            let failed = Err::<MessageView, CodecError>(e);
            &&& parse_payload(0x03, id + s) == failed
            &&& parse_payload(0x04, id + s) == failed
            &&& parse_payload(0x05, id + s) == failed
            &&& parse_payload(0x0b, id + s) == failed
        },
        parse_string(s).outcome == Err::<Seq<char>, CodecError>(e) ==> {
            let failed = Err::<MessageView, CodecError>(e);
            &&& parse_payload(0x05, id + number + s) == failed
            &&& parse_payload(0x0b, id + number + s) == failed
            &&& parse_payload(0x03, id + number + namespace + s) == failed
            &&& parse_payload(0x1d, namespace + s) == failed
            &&& parse_payload(0x1e, namespace + s) == failed
        },
        parse_tuple(s).outcome == Err::<Seq<Seq<char>>, CodecError>(e) ==> parse_payload(
            0x03,
            id + number + s,
        ) == Err::<MessageView, CodecError>(e),
{
    lemma_number_first(id, a, s);
    assert(id + number + s =~= id + (number + s));
    lemma_number_first(id, a, number + s);
    lemma_number_first(number, b, s);
    let tail = namespace + s;
    assert(id + number + namespace + s =~= id + (number + tail));
    lemma_number_first(id, a, number + tail);
    lemma_number_first(number, b, tail);
    lemma_texts_first(namespace, parts, s);
}

/// Nor is one whose last number cannot be read.
pub proof fn last_fields_fail(
    id: Seq<u8>,
    a: u64,
    number: Seq<u8>,
    b: u64,
    namespace: Seq<u8>,
    parts: Seq<Seq<char>>,
    name: Seq<u8>,
    text: Seq<char>,
    octets: Seq<u8>,
    s: Seq<u8>,
    e: CodecError,
)
    requires
        spells_number(id, a),
        spells_number(number, b),
        spells_texts(namespace, parts),
        spells_text(name, text),
        octets.len() == 2,
        parse_varint(s).outcome == Err::<u64, CodecError>(e),
    ensures
        parse_payload(0x03, id + number + namespace + name + octets + s) == Err::<
            MessageView,
            CodecError,
        >(e),
        parse_payload(0x1d, namespace + name + octets + s) == Err::<MessageView, CodecError>(e),
        parse_payload(0x1e, namespace + name + s) == Err::<MessageView, CodecError>(e),
{
    let t2 = octets + s;
    let t1 = name + t2;
    let t0 = namespace + t1;
    assert(id + number + namespace + name + octets + s =~= id + (number + t0));
    lemma_number_first(id, a, number + t0);
    lemma_number_first(number, b, t0);
    lemma_texts_first(namespace, parts, t1);
    lemma_text_first(name, text, t2);
    assert(t2.skip(2) =~= s);
    assert(namespace + name + octets + s =~= t0);
    assert(namespace + name + s =~= namespace + (name + s));
    lemma_texts_first(namespace, parts, name + s);
    lemma_text_first(name, text, s);
}

/// A subgroup header is not read if one of its numbers is not, nor is the head of an
/// object's stream, and for the same reason.
pub proof fn header_fails(
    f1: Seq<u8>,
    a: u64,
    f2: Seq<u8>,
    b: u64,
    f3: Seq<u8>,
    c: u64,
    s: Seq<u8>,
    e: CodecError,
)
    requires
        spells_number(f1, a),
        spells_number(f2, b),
        spells_number(f3, c),
        parse_varint(s).outcome == Err::<u64, CodecError>(e),
    ensures
        parse_header(s).outcome == Err::<SubgroupHeader, CodecError>(e),
        parse_header(f1 + s).outcome == Err::<SubgroupHeader, CodecError>(e),
        parse_header(f1 + f2 + s).outcome == Err::<SubgroupHeader, CodecError>(e),
        parse_header(f1 + f2 + f3 + s).outcome == Err::<SubgroupHeader, CodecError>(e),
        forall|t: Seq<u8>|
            parse_header(t).outcome == Err::<SubgroupHeader, CodecError>(e)
                ==> #[trigger] parse_object(t) == Err::<(ObjectHead, Seq<u8>), CodecError>(e),
{
    lemma_number_first(f1, a, s);
    assert(f1 + f2 + s =~= f1 + (f2 + s));
    lemma_number_first(f1, a, f2 + s);
    lemma_number_first(f2, b, s);
    assert(f1 + f2 + f3 + s =~= f1 + (f2 + (f3 + s)));
    lemma_number_first(f1, a, f2 + (f3 + s));
    lemma_number_first(f2, b, f3 + s);
    lemma_number_first(f3, c, s);
}

/// An object is not read if its identifier or the length of its payload is not, and for
/// the same reason.
pub proof fn object_fails(
    header: Seq<u8>,
    h: SubgroupHeader,
    id: Seq<u8>,
    object_id: u64,
    s: Seq<u8>,
    e: CodecError,
)
    requires
        forall|rest: Seq<u8>|
            #[trigger] parse_header(header + rest) == (Parsed::<SubgroupHeader> {
                outcome: Ok(h),
                rest,
            }),
        spells_number(id, object_id),
        parse_varint(s).outcome == Err::<u64, CodecError>(e),
    ensures
        parse_object(header + s) == Err::<(ObjectHead, Seq<u8>), CodecError>(e),
        parse_object(header + id + s) == Err::<(ObjectHead, Seq<u8>), CodecError>(e),
{
    assert(parse_header(header + s) == (Parsed::<SubgroupHeader> { outcome: Ok(h), rest: s }));
    assert(header + id + s =~= header + (id + s));
    assert(parse_header(header + (id + s)) == (Parsed::<SubgroupHeader> {
        outcome: Ok(h),
        rest: id + s,
    }));
    lemma_number_first(id, object_id, s);
}

/// The texts of strings are those of each of them, and so are the views of parameters.
pub proof fn views_are_whole(strings: Seq<String>, params: Seq<SetupParameter>)
    ensures
        texts(strings).len() == strings.len(),
        forall|i: int| 0 <= i < strings.len() ==> #[trigger] texts(strings)[i] == strings[i]@,
        param_views(params).len() == params.len(),
        forall|i: int| 0 <= i < params.len() ==> #[trigger] param_views(params)[i] == params[i]@,
{
}

} // verus!
