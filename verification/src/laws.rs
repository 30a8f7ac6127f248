//! What holds of the wire format as a whole: what is written is read back, no
//! more and no less of the input is used than was written, and an incomplete
//! message is never taken for a complete one.

use vstd::prelude::*;
use vstd::utf8::{encode_utf8, encode_utf8_decode_utf8, encode_utf8_valid_utf8};

use crate::error::CodecError;
use crate::message::{
    flag_byte, frame_bytes, header_bytes, header_fits, known_part, message_bytes, message_fits,
    message_type, param_bytes, param_fits, param_known, params_bytes, params_fit, params_known,
    parse_header, parse_message, parse_param, parse_param_number, parse_params, parse_payload,
    parse_publish, parse_publish_ok, parse_request_error, parse_setup, parse_subscribe,
    parse_subscribe_done, parse_subscribe_ok, parse_track, parse_two_octets, parse_two_varints,
    payload_bytes, setup_bytes, text_fits, texts_fit, MessageView, SetupParameterView,
    SubgroupHeader, PARAM_MAX_SUBSCRIBE_ID, PARAM_PATH, PARAM_ROLE,
};
use crate::varint::VarInt;
use crate::wire::{
    be_bytes, be_value, lemma_be_bytes_len, lemma_varint_bytes_len, parse_string, parse_strings,
    parse_tuple, parse_varint, string_bytes, strings_bytes, tuple_bytes, varint_announced,
    varint_bytes, varint_len, Parsed,
};

verus! {

/// 256 to the power of `n`.
spec fn pow256(n: nat) -> nat
    decreases n,
{
    if n == 0 {
        1
    } else {
        256 * pow256((n - 1) as nat)
    }
}

/// Big-endian bytes spell the number that they were made of.
proof fn lemma_be_value_of_be_bytes(v: nat, n: nat)
    requires
        v < pow256(n),
    ensures
        be_value(be_bytes(v, n)) == v,
    decreases n,
{
    if n > 0 {
        lemma_be_value_of_be_bytes(v / 256, (n - 1) as nat);
        assert(be_bytes(v, n).drop_last() =~= be_bytes(v / 256, (n - 1) as nat));
    }
}

/// A tag in the two top bits of big-endian bytes shows in the first byte, and
/// clearing it there gives the bytes of the number alone.
proof fn lemma_tagged(tag: nat, v: nat, n: nat)
    requires
        n >= 1,
        tag == 0 || tag == 0x40 || tag == 0x80 || tag == 0xc0,
        v < 0x40 * pow256((n - 1) as nat),
    ensures
        ({
            let b = be_bytes(tag * pow256((n - 1) as nat) + v, n);
            &&& b.len() == n
            &&& tag <= b[0] < tag + 0x40
            &&& b.update(0, b[0] % 64) == be_bytes(v, n)
        }),
    decreases n,
{
    broadcast use lemma_be_bytes_len;

    let p = pow256((n - 1) as nat);
    let b = be_bytes(tag * p + v, n);
    if n == 1 {
        reveal_with_fuel(be_bytes, 2);
        assert(b =~= seq![(tag + v) as u8]);
        assert(b.update(0, b[0] % 64) =~= be_bytes(v, n));
    } else {
        let q = pow256((n - 2) as nat);
        assert(tag * p == 256 * (tag * q)) by (nonlinear_arith)
            requires
                p == 256 * q,
        ;
        assert((tag * p + v) / 256 == tag * q + v / 256);
        assert((tag * p + v) % 256 == v % 256);
        lemma_tagged(tag, v / 256, (n - 1) as nat);
        let c = be_bytes(tag * q + v / 256, (n - 1) as nat);
        assert(b == c.push((v % 256) as u8));
        assert(b.update(0, b[0] % 64) =~= c.update(0, c[0] % 64).push((v % 256) as u8));
    }
}

/// What `varint_bytes` writes, in terms of a tag and a length.
proof fn lemma_varint_shape(v: u64)
    requires
        v <= VarInt::MAX,
    ensures
        ({
            let b = varint_bytes(v);
            &&& b.len() == varint_len(v)
            &&& varint_announced(b[0]) == varint_len(v)
            &&& be_value(b.update(0, b[0] % 64)) == v
        }),
{
    broadcast use lemma_be_bytes_len;

    reveal(varint_bytes);
    reveal_with_fuel(pow256, 9);
    let n = varint_len(v);
    let tag: nat = if v < 0x40 {
        0
    } else if v < 0x4000 {
        0x40
    } else if v < 0x4000_0000 {
        0x80
    } else {
        0xc0
    };
    lemma_tagged(tag, v as nat, n);
    lemma_be_value_of_be_bytes(v as nat, n);
}

/// A variable-length integer is read back, and nothing after it is touched.
pub proof fn varint_roundtrip(v: u64, rest: Seq<u8>)
    requires
        v <= VarInt::MAX,
    ensures
        parse_varint(varint_bytes(v) + rest) == (Parsed { outcome: Ok(v), rest }),
{
    reveal(parse_varint);
    lemma_varint_shape(v);
    let b = varint_bytes(v);
    let s = b + rest;
    assert(s.take(b.len() as int) =~= b);
    assert(s.skip(b.len() as int) =~= rest);
}

/// The two top bits of the first byte tell the length, and the length tells the
/// range: 0 to 63 in one byte, to 16383 in two, to 1073741823 in four, to
/// 4611686018427387903 in eight.
pub proof fn varint_length_table(v: u64)
    requires
        v <= VarInt::MAX,
    ensures
        varint_bytes(v)[0] / 64 == 0 <==> varint_bytes(v).len() == 1,
        varint_bytes(v)[0] / 64 == 1 <==> varint_bytes(v).len() == 2,
        varint_bytes(v)[0] / 64 == 2 <==> varint_bytes(v).len() == 4,
        varint_bytes(v)[0] / 64 == 3 <==> varint_bytes(v).len() == 8,
        varint_bytes(v).len() == 1 <==> v <= 63,
        varint_bytes(v).len() == 2 <==> 63 < v <= 16383,
        varint_bytes(v).len() == 4 <==> 16383 < v <= 1073741823,
        varint_bytes(v).len() == 8 <==> 1073741823 < v <= 4611686018427387903,
{
    lemma_varint_shape(v);
}

/// What is read is at most 62 bits wide, takes 1 to 8 bytes, and is never
/// written in more bytes than it was read from.
pub proof fn varint_read_bounds(s: Seq<u8>)
    ensures
        parse_varint(s).outcome matches Ok(v) ==> {
            &&& v <= VarInt::MAX
            &&& 1 <= s.len() - parse_varint(s).rest.len() <= 8
            &&& varint_bytes(v).len() <= s.len() - parse_varint(s).rest.len()
        },
{
    reveal(parse_varint);
    if s.len() > 0 {
        let n = varint_announced(s[0]);
        if s.len() >= n {
            let masked = s.take(n as int).update(0, s[0] % 64);
            reveal_with_fuel(pow256, 9);
            lemma_masked_bound(masked);
            lemma_varint_bytes_len(be_value(masked) as u64);
        }
    }
}

/// Bytes whose first has its two top bits clear spell less than a quarter of
/// what as many bytes can.
proof fn lemma_masked_bound(s: Seq<u8>)
    requires
        s.len() >= 1,
        s[0] < 64,
    ensures
        be_value(s) < 0x40 * pow256((s.len() - 1) as nat),
    decreases s.len(),
{
    if s.len() == 1 {
        reveal_with_fuel(be_value, 2);
        assert(s.drop_last() =~= Seq::<u8>::empty());
    } else {
        lemma_masked_bound(s.drop_last());
    }
}

/// A string is read back, and nothing after it is touched.
pub proof fn string_roundtrip(text: Seq<char>, rest: Seq<u8>)
    requires
        text_fits(text),
    ensures
        parse_string(string_bytes(text) + rest) == (Parsed { outcome: Ok(text), rest }),
{
    let bytes = encode_utf8(text);
    encode_utf8_valid_utf8(text);
    encode_utf8_decode_utf8(text);
    varint_roundtrip(bytes.len() as u64, bytes + rest);
    assert(string_bytes(text) + rest =~= varint_bytes(bytes.len() as u64) + (bytes + rest));
    assert((bytes + rest).take(bytes.len() as int) =~= bytes);
    assert((bytes + rest).skip(bytes.len() as int) =~= rest);
}

proof fn lemma_strings_roundtrip(texts: Seq<Seq<char>>, rest: Seq<u8>)
    requires
        texts_fit(texts),
    ensures
        parse_strings(strings_bytes(texts) + rest, texts.len()) == (Parsed {
            outcome: Ok(texts),
            rest,
        }),
    decreases texts.len(),
{
    if texts.len() == 0 {
        assert(strings_bytes(texts) + rest =~= rest);
        assert(texts =~= Seq::empty());
    } else {
        let last = string_bytes(texts.last()) + rest;
        assert(strings_bytes(texts) + rest =~= strings_bytes(texts.drop_last()) + last);
        assert(text_fits(texts[texts.len() - 1]));
        lemma_strings_roundtrip(texts.drop_last(), last);
        string_roundtrip(texts.last(), rest);
        assert(texts.drop_last().push(texts.last()) =~= texts);
    }
}

/// A tuple of strings is read back, and nothing after it is touched.
pub proof fn tuple_roundtrip(texts: Seq<Seq<char>>, rest: Seq<u8>)
    requires
        texts_fit(texts),
    ensures
        parse_tuple(tuple_bytes(texts) + rest) == (Parsed { outcome: Ok(texts), rest }),
{
    let tail = strings_bytes(texts) + rest;
    assert(tuple_bytes(texts) + rest =~= varint_bytes(texts.len() as u64) + tail);
    varint_roundtrip(texts.len() as u64, tail);
    lemma_strings_roundtrip(texts, rest);
}

proof fn lemma_param_number_roundtrip(v: u64, truncated: CodecError, rest: Seq<u8>)
    requires
        v <= VarInt::MAX,
    ensures
        parse_param_number(
            varint_bytes(varint_bytes(v).len() as u64) + varint_bytes(v) + rest,
            truncated,
        ) == (Parsed { outcome: Ok(v), rest }),
{
    let b = varint_bytes(v);
    lemma_varint_bytes_len(v);
    assert(varint_bytes(b.len() as u64) + b + rest =~= varint_bytes(b.len() as u64) + (b + rest));
    varint_roundtrip(b.len() as u64, b + rest);
    assert((b + rest).take(b.len() as int) =~= b + Seq::<u8>::empty());
    assert((b + rest).skip(b.len() as int) =~= rest);
    varint_roundtrip(v, Seq::empty());
}

proof fn lemma_role_roundtrip(v: u64, rest: Seq<u8>)
    requires
        v <= VarInt::MAX,
    ensures
        parse_param(param_bytes(SetupParameterView::Role(v)) + rest) == (Parsed {
            outcome: Ok(SetupParameterView::Role(v)),
            rest,
        }),
{
    let value = varint_bytes(varint_bytes(v).len() as u64) + varint_bytes(v) + rest;
    assert(param_bytes(SetupParameterView::Role(v)) + rest =~= varint_bytes(PARAM_ROLE) + value);
    varint_roundtrip(PARAM_ROLE, value);
    lemma_param_number_roundtrip(v, CodecError::RoleTruncated, rest);
}

proof fn lemma_path_roundtrip(text: Seq<char>, rest: Seq<u8>)
    requires
        text_fits(text),
    ensures
        parse_param(param_bytes(SetupParameterView::Path(text)) + rest) == (Parsed {
            outcome: Ok(SetupParameterView::Path(text)),
            rest,
        }),
{
    let value = string_bytes(text) + rest;
    assert(param_bytes(SetupParameterView::Path(text)) + rest =~= varint_bytes(PARAM_PATH) + value);
    varint_roundtrip(PARAM_PATH, value);
    string_roundtrip(text, rest);
}

proof fn lemma_max_subscribe_id_roundtrip(v: u64, rest: Seq<u8>)
    requires
        v <= VarInt::MAX,
    ensures
        parse_param(param_bytes(SetupParameterView::MaxSubscribeId(v)) + rest) == (Parsed {
            outcome: Ok(SetupParameterView::MaxSubscribeId(v)),
            rest,
        }),
{
    let value = varint_bytes(varint_bytes(v).len() as u64) + varint_bytes(v) + rest;
    assert(param_bytes(SetupParameterView::MaxSubscribeId(v)) + rest =~= varint_bytes(
        PARAM_MAX_SUBSCRIBE_ID,
    ) + value);
    varint_roundtrip(PARAM_MAX_SUBSCRIBE_ID, value);
    lemma_param_number_roundtrip(v, CodecError::MaxSubscribeIdTruncated, rest);
}

/// A setup parameter with a known key is read back, and nothing after it is
/// touched.
pub proof fn param_roundtrip(p: SetupParameterView, rest: Seq<u8>)
    requires
        param_fits(p),
        param_known(p),
    ensures
        parse_param(param_bytes(p) + rest) == (Parsed { outcome: Ok(p), rest }),
{
    match p {
        SetupParameterView::Role(v) => {
            lemma_role_roundtrip(v, rest);
        },
        SetupParameterView::Path(text) => {
            lemma_path_roundtrip(text, rest);
        },
        SetupParameterView::MaxSubscribeId(v) => {
            lemma_max_subscribe_id_roundtrip(v, rest);
        },
        SetupParameterView::Unknown(_) => {},
    }
}

proof fn lemma_params_roundtrip(params: Seq<SetupParameterView>, rest: Seq<u8>)
    requires
        params_fit(params),
        params_known(params),
    ensures
        parse_params(params_bytes(params) + rest, params.len()) == (Parsed {
            outcome: Ok(params),
            rest,
        }),
    decreases params.len(),
{
    if params.len() == 0 {
        assert(params_bytes(params) + rest =~= rest);
        assert(params =~= Seq::empty());
    } else {
        let last = param_bytes(params.last()) + rest;
        assert(params_bytes(params) + rest =~= params_bytes(params.drop_last()) + last);
        assert(param_fits(params[params.len() - 1]));
        assert(param_known(params[params.len() - 1]));
        lemma_params_roundtrip(params.drop_last(), last);
        param_roundtrip(params.last(), rest);
        assert(params.drop_last().push(params.last()) =~= params);
    }
}

/// Setup parameters are read back, but for those whose keys are unknown, and
/// nothing after them is touched.
pub proof fn setup_roundtrip(params: Seq<SetupParameterView>, rest: Seq<u8>)
    requires
        params_fit(params),
    ensures
        parse_setup(setup_bytes(params) + rest) == (Parsed {
            outcome: Ok(known_part(params)),
            rest,
        }),
        params_known(params) ==> known_part(params) == params,
{
    lemma_known_part(params);
    let known = known_part(params);
    let tail = params_bytes(params) + rest;
    assert(setup_bytes(params) + rest =~= varint_bytes(known.len() as u64) + tail);
    varint_roundtrip(known.len() as u64, tail);
    lemma_params_roundtrip(known, rest);
}

proof fn lemma_two_varints_roundtrip(a: u64, b: u64, rest: Seq<u8>)
    requires
        a <= VarInt::MAX,
        b <= VarInt::MAX,
    ensures
        parse_two_varints(varint_bytes(a) + varint_bytes(b) + rest) == (Parsed {
            outcome: Ok((a, b)),
            rest,
        }),
{
    let tail = varint_bytes(b) + rest;
    assert(varint_bytes(a) + varint_bytes(b) + rest =~= varint_bytes(a) + tail);
    varint_roundtrip(a, tail);
    varint_roundtrip(b, rest);
}

proof fn lemma_track_roundtrip(namespace: Seq<Seq<char>>, name: Seq<char>, rest: Seq<u8>)
    requires
        texts_fit(namespace),
        text_fits(name),
    ensures
        parse_track(tuple_bytes(namespace) + string_bytes(name) + rest) == (Parsed {
            outcome: Ok((namespace, name)),
            rest,
        }),
{
    let tail = string_bytes(name) + rest;
    assert(tuple_bytes(namespace) + string_bytes(name) + rest =~= tuple_bytes(namespace) + tail);
    tuple_roundtrip(namespace, tail);
    string_roundtrip(name, rest);
}

proof fn lemma_two_octets_roundtrip(a: u8, b: u8, truncated: CodecError, rest: Seq<u8>)
    ensures
        parse_two_octets(seq![a, b] + rest, truncated) == (Parsed { outcome: Ok((a, b)), rest }),
{
    assert((seq![a, b] + rest).skip(2) =~= rest);
}

/// A message whose setup parameters, if it has any, all have known keys.
pub open spec fn message_known(m: MessageView) -> bool {
    match m {
        MessageView::ClientSetup { params } => params_known(params),
        MessageView::ServerSetup { params } => params_known(params),
        _ => true,
    }
}

proof fn lemma_subscribe_roundtrip(m: MessageView)
    requires
        message_fits(m),
        m is Subscribe,
    ensures
        parse_subscribe(payload_bytes(m)) == Ok::<MessageView, CodecError>(m),
{
    let nil = Seq::<u8>::empty();
    if let MessageView::Subscribe {
        subscribe_id,
        track_alias,
        track_namespace,
        track_name,
        subscriber_priority,
        group_order,
        filter_type,
    } = m {
        let t3 = varint_bytes(filter_type) + nil;
        let t2 = seq![subscriber_priority, group_order] + t3;
        let t1 = tuple_bytes(track_namespace) + string_bytes(track_name) + t2;
        assert(payload_bytes(m) =~= varint_bytes(subscribe_id) + varint_bytes(track_alias) + t1);
        lemma_two_varints_roundtrip(subscribe_id, track_alias, t1);
        lemma_track_roundtrip(track_namespace, track_name, t2);
        lemma_two_octets_roundtrip(
            subscriber_priority,
            group_order,
            CodecError::SubscribeTruncated,
            t3,
        );
        varint_roundtrip(filter_type, nil);
    }
}

proof fn lemma_subscribe_ok_roundtrip(m: MessageView)
    requires
        message_fits(m),
        m is SubscribeOk,
    ensures
        parse_subscribe_ok(payload_bytes(m)) == Ok::<MessageView, CodecError>(m),
{
    let nil = Seq::<u8>::empty();
    if let MessageView::SubscribeOk { subscribe_id, expires, group_order, content_exists } = m {
        let flag = flag_byte(content_exists);
        let t1 = seq![group_order, flag] + nil;
        assert(payload_bytes(m) =~= varint_bytes(subscribe_id) + varint_bytes(expires) + t1);
        lemma_two_varints_roundtrip(subscribe_id, expires, t1);
        lemma_two_octets_roundtrip(group_order, flag, CodecError::SubscribeOkTruncated, nil);
    }
}

proof fn lemma_request_error_roundtrip(m: MessageView)
    requires
        message_fits(m),
        m is RequestError,
    ensures
        parse_request_error(payload_bytes(m)) == Ok::<MessageView, CodecError>(m),
{
    let nil = Seq::<u8>::empty();
    if let MessageView::RequestError { subscribe_id, error_code, reason_phrase } = m {
        let t1 = string_bytes(reason_phrase) + nil;
        assert(payload_bytes(m) =~= varint_bytes(subscribe_id) + varint_bytes(error_code) + t1);
        lemma_two_varints_roundtrip(subscribe_id, error_code, t1);
        string_roundtrip(reason_phrase, nil);
    }
}

proof fn lemma_subscribe_done_roundtrip(m: MessageView)
    requires
        message_fits(m),
        m is SubscribeDone,
    ensures
        parse_subscribe_done(payload_bytes(m)) == Ok::<MessageView, CodecError>(m),
{
    if let MessageView::SubscribeDone {
        subscribe_id,
        status_code,
        reason_phrase,
        content_exists,
    } = m {
        let t2 = seq![flag_byte(content_exists)];
        let t1 = string_bytes(reason_phrase) + t2;
        assert(payload_bytes(m) =~= varint_bytes(subscribe_id) + varint_bytes(status_code) + t1);
        lemma_two_varints_roundtrip(subscribe_id, status_code, t1);
        string_roundtrip(reason_phrase, t2);
    }
}

proof fn lemma_publish_roundtrip(m: MessageView)
    requires
        message_fits(m),
        m is Publish,
    ensures
        parse_publish(payload_bytes(m)) == Ok::<MessageView, CodecError>(m),
{
    let nil = Seq::<u8>::empty();
    if let MessageView::Publish { track_namespace, track_name, subscriber_priority, group_order } =
        m {
        let t3 = varint_bytes(0) + nil;
        let t2 = seq![subscriber_priority, group_order] + t3;
        assert(payload_bytes(m) =~= tuple_bytes(track_namespace) + string_bytes(track_name) + t2);
        lemma_track_roundtrip(track_namespace, track_name, t2);
        lemma_two_octets_roundtrip(
            subscriber_priority,
            group_order,
            CodecError::PublishTruncated,
            t3,
        );
        varint_roundtrip(0, nil);
    }
}

proof fn lemma_publish_ok_roundtrip(m: MessageView)
    requires
        message_fits(m),
        m is PublishOk,
    ensures
        parse_publish_ok(payload_bytes(m)) == Ok::<MessageView, CodecError>(m),
{
    let nil = Seq::<u8>::empty();
    if let MessageView::PublishOk { track_namespace, track_name } = m {
        let t2 = varint_bytes(0) + nil;
        assert(payload_bytes(m) =~= tuple_bytes(track_namespace) + string_bytes(track_name) + t2);
        lemma_track_roundtrip(track_namespace, track_name, t2);
        varint_roundtrip(0, nil);
    }
}

/// A payload is read back as the message that it was written for.
pub proof fn payload_roundtrip(m: MessageView)
    requires
        message_fits(m),
        message_known(m),
    ensures
        parse_payload(message_type(m), payload_bytes(m)) == Ok::<MessageView, CodecError>(m),
{
    let nil = Seq::<u8>::empty();
    assert(payload_bytes(m) + nil =~= payload_bytes(m));
    match m {
        MessageView::ClientSetup { params } => {
            setup_roundtrip(params, nil);
        },
        MessageView::ServerSetup { params } => {
            setup_roundtrip(params, nil);
        },
        MessageView::Subscribe { .. } => {
            lemma_subscribe_roundtrip(m);
        },
        MessageView::SubscribeOk { .. } => {
            lemma_subscribe_ok_roundtrip(m);
        },
        MessageView::RequestError { .. } => {
            lemma_request_error_roundtrip(m);
        },
        MessageView::Unsubscribe { subscribe_id } => {
            varint_roundtrip(subscribe_id, nil);
        },
        MessageView::SubscribeDone { .. } => {
            lemma_subscribe_done_roundtrip(m);
        },
        MessageView::GoAway { new_session_uri } => {
            string_roundtrip(new_session_uri, nil);
        },
        MessageView::Publish { .. } => {
            lemma_publish_roundtrip(m);
        },
        MessageView::PublishOk { .. } => {
            lemma_publish_ok_roundtrip(m);
        },
    }
}

/// Reading a frame: its payload is found, whatever it holds, and nothing after
/// it is touched.
proof fn lemma_frame(t: u64, p: Seq<u8>, rest: Seq<u8>)
    requires
        t <= VarInt::MAX,
        p.len() <= 0xffff,
    ensures
        parse_message(frame_bytes(t, p) + rest) == (Parsed { outcome: parse_payload(t, p), rest }),
{
    broadcast use lemma_be_bytes_len;

    let t1 = be_bytes(p.len(), 2) + p + rest;
    assert(frame_bytes(t, p) + rest =~= varint_bytes(t) + t1);
    varint_roundtrip(t, t1);
    assert(t1.take(2) =~= be_bytes(p.len(), 2));
    assert(t1.skip(2) =~= p + rest);
    reveal_with_fuel(pow256, 3);
    lemma_be_value_of_be_bytes(p.len(), 2);
    assert((p + rest).take(p.len() as int) =~= p);
    assert((p + rest).skip(p.len() as int) =~= rest);
}

/// A message is read back, and nothing after it is touched. Its payload has to
/// fit in the two bytes of the length, and the keys of its parameters have to be
/// known, since of the others the value is not written.
pub proof fn message_roundtrip(m: MessageView, rest: Seq<u8>)
    requires
        message_fits(m),
        message_known(m),
        payload_bytes(m).len() <= 0xffff,
    ensures
        parse_message(message_bytes(m) + rest) == (Parsed { outcome: Ok(m), rest }),
{
    lemma_frame(message_type(m), payload_bytes(m), rest);
    payload_roundtrip(m);
}

/// Different messages are written differently.
pub proof fn message_bytes_injective(a: MessageView, b: MessageView)
    requires
        message_fits(a),
        message_known(a),
        payload_bytes(a).len() <= 0xffff,
        message_fits(b),
        message_known(b),
        payload_bytes(b).len() <= 0xffff,
        message_bytes(a) == message_bytes(b),
    ensures
        a == b,
{
    message_roundtrip(a, Seq::empty());
    message_roundtrip(b, Seq::empty());
}

/// A message that has not arrived completely is not read: however many of its
/// bytes are missing, reading fails.
pub proof fn message_prefix_fails(m: MessageView, n: int)
    requires
        payload_bytes(m).len() <= 0xffff,
        0 <= n < message_bytes(m).len(),
    ensures
        parse_message(message_bytes(m).take(n)).outcome is Err,
{
    broadcast use {lemma_be_bytes_len, lemma_varint_bytes_len};

    let b = varint_bytes(message_type(m));
    let p = payload_bytes(m);
    let s = message_bytes(m).take(n);
    lemma_varint_shape(message_type(m));
    if n < b.len() {
        reveal(parse_varint);
        if n > 0 {
            assert(s[0] == b[0]);
        }
    } else {
        let t1 = (be_bytes(p.len(), 2) + p).take(n - b.len());
        assert(s =~= b + t1);
        varint_roundtrip(message_type(m), t1);
        if t1.len() >= 2 {
            assert(t1.take(2) =~= be_bytes(p.len(), 2));
            reveal_with_fuel(pow256, 3);
            lemma_be_value_of_be_bytes(p.len(), 2);
        }
    }
}

/// A variable-length integer is read alike whatever follows it.
pub(crate) proof fn lemma_varint_read_alike(s: Seq<u8>, t: Seq<u8>)
    requires
        parse_varint(s).outcome is Ok,
    ensures
        parse_varint(s + t) == (Parsed {
            outcome: parse_varint(s).outcome,
            rest: parse_varint(s).rest + t,
        }),
{
    reveal(parse_varint);
    let n = varint_announced(s[0]) as int;
    assert((s + t).take(n) =~= s.take(n));
    assert((s + t).skip(n) =~= s.skip(n) + t);
}

/// A string is read alike whatever follows it.
pub(crate) proof fn lemma_string_read_alike(s: Seq<u8>, t: Seq<u8>)
    requires
        parse_string(s).outcome is Ok,
    ensures
        parse_string(s + t) == (Parsed {
            outcome: parse_string(s).outcome,
            rest: parse_string(s).rest + t,
        }),
{
    lemma_varint_read_alike(s, t);
    let r = parse_varint(s).rest;
    if let Ok(n) = parse_varint(s).outcome {
        assert((r + t).take(n as int) =~= r.take(n as int));
        assert((r + t).skip(n as int) =~= r.skip(n as int) + t);
    }
}

pub(crate) proof fn lemma_strings_read_alike(s: Seq<u8>, n: nat, t: Seq<u8>)
    requires
        parse_strings(s, n).outcome is Ok,
    ensures
        parse_strings(s + t, n) == (Parsed {
            outcome: parse_strings(s, n).outcome,
            rest: parse_strings(s, n).rest + t,
        }),
    decreases n,
{
    if n > 0 {
        lemma_strings_read_alike(s, (n - 1) as nat, t);
        lemma_string_read_alike(parse_strings(s, (n - 1) as nat).rest, t);
    }
}

/// A string that has not arrived completely is not read.
pub proof fn string_prefix_fails(text: Seq<char>, n: int)
    requires
        text_fits(text),
        0 <= n < string_bytes(text).len(),
    ensures
        parse_string(string_bytes(text).take(n)).outcome is Err,
{
    let whole = string_bytes(text);
    if parse_string(whole.take(n)).outcome is Ok {
        lemma_string_read_alike(whole.take(n), whole.skip(n));
        assert(whole.take(n) + whole.skip(n) =~= whole + Seq::<u8>::empty());
        string_roundtrip(text, Seq::empty());
    }
}

/// A tuple that has not arrived completely is not read: however many of its bytes
/// are missing, be it only the last, reading fails.
pub proof fn tuple_prefix_fails(texts: Seq<Seq<char>>, n: int)
    requires
        texts_fit(texts),
        0 <= n < tuple_bytes(texts).len(),
    ensures
        parse_tuple(tuple_bytes(texts).take(n)).outcome is Err,
{
    let whole = tuple_bytes(texts);
    let s = whole.take(n);
    if parse_tuple(s).outcome is Ok {
        lemma_varint_read_alike(s, whole.skip(n));
        if let Ok(count) = parse_varint(s).outcome {
            lemma_strings_read_alike(parse_varint(s).rest, count as nat, whole.skip(n));
        }
        assert(s + whole.skip(n) =~= whole + Seq::<u8>::empty());
        tuple_roundtrip(texts, Seq::empty());
    }
}

proof fn lemma_two_varints_read_alike(s: Seq<u8>, t: Seq<u8>)
    requires
        parse_two_varints(s).outcome is Ok,
    ensures
        parse_two_varints(s + t) == (Parsed {
            outcome: parse_two_varints(s).outcome,
            rest: parse_two_varints(s).rest + t,
        }),
{
    lemma_varint_read_alike(s, t);
    lemma_varint_read_alike(parse_varint(s).rest, t);
}

/// A subgroup header that has not arrived completely is not read.
pub proof fn header_prefix_fails(h: SubgroupHeader, n: int)
    requires
        header_fits(h),
        0 <= n < header_bytes(h).len(),
    ensures
        parse_header(header_bytes(h).take(n)).outcome is Err,
{
    let whole = header_bytes(h);
    let s = whole.take(n);
    if parse_header(s).outcome is Ok {
        let t = whole.skip(n);
        lemma_two_varints_read_alike(s, t);
        let middle = parse_two_varints(s).rest;
        lemma_two_varints_read_alike(middle, t);
        let back = parse_two_varints(middle).rest;
        assert((back + t).skip(1) =~= back.skip(1) + t);
        assert(s + t =~= whole + Seq::<u8>::empty());
        header_roundtrip(h, Seq::empty());
    }
}

/// A message is read alike whatever follows it, also one that this library would
/// write otherwise.
pub proof fn message_read_alike(s: Seq<u8>, t: Seq<u8>)
    requires
        parse_message(s).outcome is Ok,
    ensures
        parse_message(s + t) == (Parsed {
            outcome: parse_message(s).outcome,
            rest: parse_message(s).rest + t,
        }),
{
    lemma_varint_read_alike(s, t);
    let r = parse_varint(s).rest;
    let n = be_value(r.take(2)) as int;
    assert((r + t).take(2) =~= r.take(2));
    assert((r + t).skip(2) =~= r.skip(2) + t);
    assert((r.skip(2) + t).take(n) =~= r.skip(2).take(n));
    assert((r.skip(2) + t).skip(n) =~= r.skip(2).skip(n) + t);
}

proof fn lemma_known_part(params: Seq<SetupParameterView>)
    requires
        params_fit(params),
    ensures
        params_bytes(params) == params_bytes(known_part(params)),
        params_fit(known_part(params)),
        params_known(known_part(params)),
        known_part(params).len() <= params.len(),
        params_known(params) ==> known_part(params) == params,
    decreases params.len(),
{
    if params.len() > 0 {
        let init = params.drop_last();
        lemma_known_part(init);
        assert(param_fits(params[params.len() - 1]));
        if params_known(params) {
            assert(param_known(params[params.len() - 1]));
            assert(init.push(params.last()) =~= params);
        }
        if param_known(params.last()) {
            assert(known_part(params).drop_last() =~= known_part(init));
        } else {
            assert(params_bytes(params) =~= params_bytes(init));
        }
    }
}

/// A message without the setup parameters whose keys are unknown.
pub open spec fn known_message(m: MessageView) -> MessageView {
    match m {
        MessageView::ClientSetup { params } => MessageView::ClientSetup {
            params: known_part(params),
        },
        MessageView::ServerSetup { params } => MessageView::ServerSetup {
            params: known_part(params),
        },
        _ => m,
    }
}

/// Whatever its parameters are, a message is read back without those whose keys
/// are unknown, and nothing after it is touched: such a parameter is left out of
/// what is written as if it were not there.
pub proof fn unknown_params_are_left_out(m: MessageView, rest: Seq<u8>)
    requires
        message_fits(m),
        payload_bytes(m).len() <= 0xffff,
    ensures
        message_bytes(m) == message_bytes(known_message(m)),
        parse_message(message_bytes(m) + rest) == (Parsed { outcome: Ok(known_message(m)), rest }),
        message_known(m) ==> known_message(m) == m,
{
    let params = match m {
        MessageView::ClientSetup { params } => params,
        MessageView::ServerSetup { params } => params,
        _ => Seq::empty(),
    };
    lemma_known_part(params);
    lemma_known_part(known_part(params));
    message_roundtrip(known_message(m), rest);
}

/// A subgroup header is read back, and nothing after it is touched.
pub proof fn header_roundtrip(h: SubgroupHeader, rest: Seq<u8>)
    requires
        header_fits(h),
    ensures
        parse_header(header_bytes(h) + rest) == (Parsed { outcome: Ok(h), rest }),
{
    let t2 = seq![h.publisher_priority] + rest;
    let t1 = varint_bytes(h.group_id) + varint_bytes(h.subgroup_id) + t2;
    assert(header_bytes(h) + rest =~= varint_bytes(h.subscribe_id) + varint_bytes(h.track_alias)
        + t1);
    lemma_two_varints_roundtrip(h.subscribe_id, h.track_alias, t1);
    lemma_two_varints_roundtrip(h.group_id, h.subgroup_id, t2);
    assert(t2.skip(1) =~= rest);
}

} // verus!
