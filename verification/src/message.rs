//! Control messages and subgroup headers.

use bytes::{Bytes, BytesMut};
use vstd::prelude::*;
use vstd::slice::slice_to_vec;
use vstd::utf8::encode_utf8;

use crate::buffer::{advance, chunk, contents, get_u16, get_u8, put_u16, put_u8, unread, written};
use crate::error::CodecError;
use crate::text::string_from_utf8;
use crate::varint::VarInt;
use crate::wire::{
    be_bytes, be_value, lemma_be_bytes_len, lemma_parse_strings_stuck, lemma_varint_bytes_len,
    parse_string, parse_strings, parse_tuple, parse_varint, string_bytes, strings_bytes,
    tuple_bytes, varint_bytes, Parsed,
};

verus! {

/// Message types.
pub const MSG_CLIENT_SETUP: u64 = 0x20;

pub const MSG_SERVER_SETUP: u64 = 0x21;

pub const MSG_SUBSCRIBE: u64 = 0x03;

pub const MSG_SUBSCRIBE_OK: u64 = 0x04;

pub const MSG_REQUEST_ERROR: u64 = 0x05;

pub const MSG_UNSUBSCRIBE: u64 = 0x0A;

pub const MSG_SUBSCRIBE_DONE: u64 = 0x0B;

pub const MSG_GOAWAY: u64 = 0x10;

pub const MSG_PUBLISH: u64 = 0x1D;

pub const MSG_PUBLISH_OK: u64 = 0x1E;

/// Keys of setup parameters.
pub const PARAM_ROLE: u64 = 0x0;

pub const PARAM_PATH: u64 = 0x1;

pub const PARAM_MAX_SUBSCRIBE_ID: u64 = 0x2;

/// Groups are delivered oldest first.
pub const GROUP_ORDER_ASCENDING: u8 = 0x01;

/// Delivery starts with the next group.
pub const FILTER_NEXT_GROUP: u64 = 0x01;

/// The name space of a track: a tuple of strings.
pub type TrackNamespace = Vec<String>;

/// The texts of some strings.
pub open spec fn texts(strings: Seq<String>) -> Seq<Seq<char>> {
    Seq::new(strings.len(), |i: int| strings[i]@)
}

/// A control message.
#[derive(Debug, Clone)]
pub enum Message {
    ClientSetup(ClientSetup),
    ServerSetup(ServerSetup),
    Subscribe(Subscribe),
    SubscribeOk(SubscribeOk),
    RequestError(RequestError),
    Unsubscribe(Unsubscribe),
    SubscribeDone(SubscribeDone),
    GoAway(GoAway),
    Publish(Publish),
    PublishOk(PublishOk),
}

/// A parameter of a setup message.
#[derive(Debug, Clone)]
pub enum SetupParameter {
    Role(u64),
    Path(String),
    MaxSubscribeId(u64),
    /// A parameter with an unknown key, whose value was skipped.
    Unknown(u64),
}

#[derive(Debug, Clone)]
pub struct ClientSetup {
    pub params: Vec<SetupParameter>,
}

#[derive(Debug, Clone)]
pub struct ServerSetup {
    pub params: Vec<SetupParameter>,
}

#[derive(Debug, Clone)]
pub struct Subscribe {
    pub subscribe_id: u64,
    pub track_alias: u64,
    pub track_namespace: TrackNamespace,
    pub track_name: String,
    pub subscriber_priority: u8,
    pub group_order: u8,
    pub filter_type: u64,
}

#[derive(Debug, Clone)]
pub struct SubscribeOk {
    pub subscribe_id: u64,
    pub expires: u64,
    pub group_order: u8,
    pub content_exists: bool,
}

#[derive(Debug, Clone)]
pub struct Publish {
    pub track_namespace: TrackNamespace,
    pub track_name: String,
    pub subscriber_priority: u8,
    pub group_order: u8,
}

#[derive(Debug, Clone)]
pub struct PublishOk {
    pub track_namespace: TrackNamespace,
    pub track_name: String,
}

#[derive(Debug, Clone)]
pub struct GoAway {
    pub new_session_uri: String,
}

#[derive(Debug, Clone)]
pub struct Unsubscribe {
    pub subscribe_id: u64,
}

#[derive(Debug, Clone)]
pub struct RequestError {
    pub subscribe_id: u64,
    pub error_code: u64,
    pub reason_phrase: String,
}

#[derive(Debug, Clone)]
pub struct SubscribeDone {
    pub subscribe_id: u64,
    pub status_code: u64,
    pub reason_phrase: String,
    pub content_exists: bool,
}

/// What a subgroup stream starts with.
#[derive(Debug, Clone)]
pub struct SubgroupHeader {
    pub subscribe_id: u64,
    pub track_alias: u64,
    pub group_id: u64,
    pub subgroup_id: u64,
    pub publisher_priority: u8,
}

/// A setup parameter, with its text as characters.
pub enum SetupParameterView {
    Role(u64),
    Path(Seq<char>),
    MaxSubscribeId(u64),
    Unknown(u64),
}

/// A control message, with its texts as characters.
pub enum MessageView {
    ClientSetup { params: Seq<SetupParameterView> },
    ServerSetup { params: Seq<SetupParameterView> },
    Subscribe {
        subscribe_id: u64,
        track_alias: u64,
        track_namespace: Seq<Seq<char>>,
        track_name: Seq<char>,
        subscriber_priority: u8,
        group_order: u8,
        filter_type: u64,
    },
    SubscribeOk { subscribe_id: u64, expires: u64, group_order: u8, content_exists: bool },
    RequestError { subscribe_id: u64, error_code: u64, reason_phrase: Seq<char> },
    Unsubscribe { subscribe_id: u64 },
    SubscribeDone {
        subscribe_id: u64,
        status_code: u64,
        reason_phrase: Seq<char>,
        content_exists: bool,
    },
    GoAway { new_session_uri: Seq<char> },
    Publish {
        track_namespace: Seq<Seq<char>>,
        track_name: Seq<char>,
        subscriber_priority: u8,
        group_order: u8,
    },
    PublishOk { track_namespace: Seq<Seq<char>>, track_name: Seq<char> },
}

impl View for SetupParameter {
    type V = SetupParameterView;

    open spec fn view(&self) -> SetupParameterView {
        match *self {
            SetupParameter::Role(v) => SetupParameterView::Role(v),
            SetupParameter::Path(text) => SetupParameterView::Path(text@),
            SetupParameter::MaxSubscribeId(v) => SetupParameterView::MaxSubscribeId(v),
            SetupParameter::Unknown(key) => SetupParameterView::Unknown(key),
        }
    }
}

/// The views of some parameters.
pub open spec fn param_views(params: Seq<SetupParameter>) -> Seq<SetupParameterView> {
    Seq::new(params.len(), |i: int| params[i]@)
}

impl View for Message {
    type V = MessageView;

    open spec fn view(&self) -> MessageView {
        match *self {
            Message::ClientSetup(m) => MessageView::ClientSetup { params: param_views(m.params@) },
            Message::ServerSetup(m) => MessageView::ServerSetup { params: param_views(m.params@) },
            Message::Subscribe(m) => MessageView::Subscribe {
                subscribe_id: m.subscribe_id,
                track_alias: m.track_alias,
                track_namespace: texts(m.track_namespace@),
                track_name: m.track_name@,
                subscriber_priority: m.subscriber_priority,
                group_order: m.group_order,
                filter_type: m.filter_type,
            },
            Message::SubscribeOk(m) => MessageView::SubscribeOk {
                subscribe_id: m.subscribe_id,
                expires: m.expires,
                group_order: m.group_order,
                content_exists: m.content_exists,
            },
            Message::RequestError(m) => MessageView::RequestError {
                subscribe_id: m.subscribe_id,
                error_code: m.error_code,
                reason_phrase: m.reason_phrase@,
            },
            Message::Unsubscribe(m) => MessageView::Unsubscribe { subscribe_id: m.subscribe_id },
            Message::SubscribeDone(m) => MessageView::SubscribeDone {
                subscribe_id: m.subscribe_id,
                status_code: m.status_code,
                reason_phrase: m.reason_phrase@,
                content_exists: m.content_exists,
            },
            Message::GoAway(m) => MessageView::GoAway { new_session_uri: m.new_session_uri@ },
            Message::Publish(m) => MessageView::Publish {
                track_namespace: texts(m.track_namespace@),
                track_name: m.track_name@,
                subscriber_priority: m.subscriber_priority,
                group_order: m.group_order,
            },
            Message::PublishOk(m) => MessageView::PublishOk {
                track_namespace: texts(m.track_namespace@),
                track_name: m.track_name@,
            },
        }
    }
}

impl Default for ClientSetup {
    /// A setup without parameters.
    fn default() -> (r: Self)
        ensures
            r.params@ == Seq::<SetupParameter>::empty(),
    {
        Self { params: Vec::new() }
    }
}

impl Default for ServerSetup {
    /// A setup without parameters.
    fn default() -> (r: Self)
        ensures
            r.params@ == Seq::<SetupParameter>::empty(),
    {
        Self { params: Vec::new() }
    }
}

// What is written.

/// A setup parameter: its key, the length of its value, its value. Nothing is
/// written of a parameter whose value is not known.
pub open spec fn param_bytes(p: SetupParameterView) -> Seq<u8> {
    match p {
        SetupParameterView::Role(v) => varint_bytes(PARAM_ROLE) + varint_bytes(
            varint_bytes(v).len() as u64,
        ) + varint_bytes(v),
        SetupParameterView::Path(text) => varint_bytes(PARAM_PATH) + string_bytes(text),
        SetupParameterView::MaxSubscribeId(v) => varint_bytes(PARAM_MAX_SUBSCRIBE_ID)
            + varint_bytes(varint_bytes(v).len() as u64) + varint_bytes(v),
        SetupParameterView::Unknown(_) => Seq::empty(),
    }
}

/// Setup parameters, one after the other.
pub open spec fn params_bytes(params: Seq<SetupParameterView>) -> Seq<u8>
    decreases params.len(),
{
    if params.len() == 0 {
        Seq::empty()
    } else {
        params_bytes(params.drop_last()) + param_bytes(params.last())
    }
}

/// A parameter whose key is known.
pub open spec fn param_known(p: SetupParameterView) -> bool {
    !(p is Unknown)
}

/// Parameters whose keys are all known.
pub open spec fn params_known(params: Seq<SetupParameterView>) -> bool {
    forall|i: int| 0 <= i < params.len() ==> param_known(#[trigger] params[i])
}

/// The parameters whose keys are known, in order.
pub open spec fn known_part(params: Seq<SetupParameterView>) -> Seq<SetupParameterView>
    decreases params.len(),
{
    if params.len() == 0 {
        Seq::empty()
    } else if param_known(params.last()) {
        known_part(params.drop_last()).push(params.last())
    } else {
        known_part(params.drop_last())
    }
}

/// The parameters of a setup message: the number of those that are written, then
/// each of them.
pub open spec fn setup_bytes(params: Seq<SetupParameterView>) -> Seq<u8> {
    varint_bytes(known_part(params).len() as u64) + params_bytes(params)
}

/// A flag: one byte.
pub open spec fn flag_byte(flag: bool) -> u8 {
    if flag {
        1
    } else {
        0
    }
}

/// The type of a message.
pub open spec fn message_type(m: MessageView) -> u64 {
    match m {
        MessageView::ClientSetup { .. } => MSG_CLIENT_SETUP,
        MessageView::ServerSetup { .. } => MSG_SERVER_SETUP,
        MessageView::Subscribe { .. } => MSG_SUBSCRIBE,
        MessageView::SubscribeOk { .. } => MSG_SUBSCRIBE_OK,
        MessageView::RequestError { .. } => MSG_REQUEST_ERROR,
        MessageView::Unsubscribe { .. } => MSG_UNSUBSCRIBE,
        MessageView::SubscribeDone { .. } => MSG_SUBSCRIBE_DONE,
        MessageView::GoAway { .. } => MSG_GOAWAY,
        MessageView::Publish { .. } => MSG_PUBLISH,
        MessageView::PublishOk { .. } => MSG_PUBLISH_OK,
    }
}

/// The payload of a message.
pub open spec fn payload_bytes(m: MessageView) -> Seq<u8> {
    match m {
        MessageView::ClientSetup { params } => setup_bytes(params),
        MessageView::ServerSetup { params } => setup_bytes(params),
        MessageView::Subscribe {
            subscribe_id,
            track_alias,
            track_namespace,
            track_name,
            subscriber_priority,
            group_order,
            filter_type,
        } => varint_bytes(subscribe_id) + varint_bytes(track_alias) + tuple_bytes(track_namespace)
            + string_bytes(track_name) + seq![subscriber_priority, group_order] + varint_bytes(
            filter_type,
        ),
        MessageView::SubscribeOk { subscribe_id, expires, group_order, content_exists } =>
            varint_bytes(subscribe_id) + varint_bytes(expires) + seq![
            group_order,
            flag_byte(content_exists),
        ],
        MessageView::RequestError { subscribe_id, error_code, reason_phrase } => varint_bytes(
            subscribe_id,
        ) + varint_bytes(error_code) + string_bytes(reason_phrase),
        MessageView::Unsubscribe { subscribe_id } => varint_bytes(subscribe_id),
        MessageView::SubscribeDone { subscribe_id, status_code, reason_phrase, content_exists } =>
            varint_bytes(subscribe_id) + varint_bytes(status_code) + string_bytes(reason_phrase)
            + seq![flag_byte(content_exists)],
        MessageView::GoAway { new_session_uri } => string_bytes(new_session_uri),
        MessageView::Publish { track_namespace, track_name, subscriber_priority, group_order } =>
            tuple_bytes(track_namespace) + string_bytes(track_name) + seq![
            subscriber_priority,
            group_order,
        ] + varint_bytes(0),
        MessageView::PublishOk { track_namespace, track_name } => tuple_bytes(track_namespace)
            + string_bytes(track_name) + varint_bytes(0),
    }
}

/// A frame: a type, the length of a payload in two bytes, the payload. Of a
/// length that does not fit in two bytes the higher digits are cut off.
pub open spec fn frame_bytes(msg_type: u64, payload: Seq<u8>) -> Seq<u8> {
    varint_bytes(msg_type) + be_bytes(payload.len(), 2) + payload
}

/// A message: the frame of its type and its payload.
pub open spec fn message_bytes(m: MessageView) -> Seq<u8> {
    frame_bytes(message_type(m), payload_bytes(m))
}

/// A parameter that can be written.
pub open spec fn param_fits(p: SetupParameterView) -> bool {
    match p {
        SetupParameterView::Role(v) => v <= VarInt::MAX,
        SetupParameterView::Path(text) => text_fits(text),
        SetupParameterView::MaxSubscribeId(v) => v <= VarInt::MAX,
        SetupParameterView::Unknown(_) => true,
    }
}

/// Parameters that can be written.
pub open spec fn params_fit(params: Seq<SetupParameterView>) -> bool {
    &&& params.len() <= VarInt::MAX
    &&& forall|i: int| 0 <= i < params.len() ==> param_fits(#[trigger] params[i])
}

/// A message whose numbers and lengths fit in variable-length integers.
pub open spec fn message_fits(m: MessageView) -> bool {
    match m {
        MessageView::ClientSetup { params } => params_fit(params),
        MessageView::ServerSetup { params } => params_fit(params),
        MessageView::Subscribe {
            subscribe_id,
            track_alias,
            track_namespace,
            track_name,
            filter_type,
            ..
        } => subscribe_id <= VarInt::MAX && track_alias <= VarInt::MAX && texts_fit(track_namespace)
            && text_fits(track_name) && filter_type <= VarInt::MAX,
        MessageView::SubscribeOk { subscribe_id, expires, .. } => subscribe_id <= VarInt::MAX
            && expires <= VarInt::MAX,
        MessageView::RequestError { subscribe_id, error_code, reason_phrase } => subscribe_id
            <= VarInt::MAX && error_code <= VarInt::MAX && text_fits(reason_phrase),
        MessageView::Unsubscribe { subscribe_id } => subscribe_id <= VarInt::MAX,
        MessageView::SubscribeDone { subscribe_id, status_code, reason_phrase, .. } => subscribe_id
            <= VarInt::MAX && status_code <= VarInt::MAX && text_fits(reason_phrase),
        MessageView::GoAway { new_session_uri } => text_fits(new_session_uri),
        MessageView::Publish { track_namespace, track_name, .. } => texts_fit(track_namespace)
            && text_fits(track_name),
        MessageView::PublishOk { track_namespace, track_name } => texts_fit(track_namespace)
            && text_fits(track_name),
    }
}

// What is read.

/// Reads the value of a parameter that holds a number: its length, then as many
/// bytes, of which a variable-length integer is the first part.
pub open spec fn parse_param_number(s: Seq<u8>, truncated: CodecError) -> Parsed<u64> {
    let len = parse_varint(s);
    match len.outcome {
        Err(e) => Parsed { outcome: Err(e), rest: len.rest },
        Ok(n) => if len.rest.len() < n {
            Parsed { outcome: Err(truncated), rest: len.rest }
        } else {
            Parsed {
                outcome: parse_varint(len.rest.take(n as int)).outcome,
                rest: len.rest.skip(n as int),
            }
        },
    }
}

/// Reads a setup parameter.
pub open spec fn parse_param(s: Seq<u8>) -> Parsed<SetupParameterView> {
    let key = parse_varint(s);
    match key.outcome {
        Err(e) => Parsed { outcome: Err(e), rest: key.rest },
        Ok(k) => if k == PARAM_ROLE {
            let value = parse_param_number(key.rest, CodecError::RoleTruncated);
            match value.outcome {
                Err(e) => Parsed { outcome: Err(e), rest: value.rest },
                Ok(v) => Parsed { outcome: Ok(SetupParameterView::Role(v)), rest: value.rest },
            }
        } else if k == PARAM_PATH {
            let value = parse_string(key.rest);
            match value.outcome {
                Err(e) => Parsed { outcome: Err(e), rest: value.rest },
                Ok(text) => Parsed {
                    outcome: Ok(SetupParameterView::Path(text)),
                    rest: value.rest,
                },
            }
        } else if k == PARAM_MAX_SUBSCRIBE_ID {
            let value = parse_param_number(key.rest, CodecError::MaxSubscribeIdTruncated);
            match value.outcome {
                Err(e) => Parsed { outcome: Err(e), rest: value.rest },
                Ok(v) => Parsed {
                    outcome: Ok(SetupParameterView::MaxSubscribeId(v)),
                    rest: value.rest,
                },
            }
        } else {
            let len = parse_varint(key.rest);
            match len.outcome {
                Err(e) => Parsed { outcome: Err(e), rest: len.rest },
                Ok(n) => if len.rest.len() < n {
                    Parsed {
                        outcome: Err(CodecError::UnknownParameterTruncated(k)),
                        rest: len.rest,
                    }
                } else {
                    Parsed {
                        outcome: Ok(SetupParameterView::Unknown(k)),
                        rest: len.rest.skip(n as int),
                    }
                },
            }
        },
    }
}

/// Reads `n` setup parameters, up to the first that cannot be read.
pub open spec fn parse_params(s: Seq<u8>, n: nat) -> Parsed<Seq<SetupParameterView>>
    decreases n,
{
    if n == 0 {
        Parsed { outcome: Ok(Seq::empty()), rest: s }
    } else {
        let init = parse_params(s, (n - 1) as nat);
        match init.outcome {
            Err(e) => Parsed { outcome: Err(e), rest: init.rest },
            Ok(params) => {
                let last = parse_param(init.rest);
                match last.outcome {
                    Err(e) => Parsed { outcome: Err(e), rest: last.rest },
                    Ok(p) => Parsed { outcome: Ok(params.push(p)), rest: last.rest },
                }
            },
        }
    }
}

/// Reads the parameters of a setup message.
pub open spec fn parse_setup(s: Seq<u8>) -> Parsed<Seq<SetupParameterView>> {
    let count = parse_varint(s);
    match count.outcome {
        Err(e) => Parsed { outcome: Err(e), rest: count.rest },
        Ok(n) => parse_params(count.rest, n as nat),
    }
}

/// Reads two variable-length integers.
pub open spec fn parse_two_varints(s: Seq<u8>) -> Parsed<(u64, u64)> {
    let a = parse_varint(s);
    match a.outcome {
        Err(e) => Parsed { outcome: Err(e), rest: a.rest },
        Ok(x) => {
            let b = parse_varint(a.rest);
            match b.outcome {
                Err(e) => Parsed { outcome: Err(e), rest: b.rest },
                Ok(y) => Parsed { outcome: Ok((x, y)), rest: b.rest },
            }
        },
    }
}

/// Reads the name space and the name of a track.
pub open spec fn parse_track(s: Seq<u8>) -> Parsed<(Seq<Seq<char>>, Seq<char>)> {
    let namespace = parse_tuple(s);
    match namespace.outcome {
        Err(e) => Parsed { outcome: Err(e), rest: namespace.rest },
        Ok(x) => {
            let name = parse_string(namespace.rest);
            match name.outcome {
                Err(e) => Parsed { outcome: Err(e), rest: name.rest },
                Ok(y) => Parsed { outcome: Ok((x, y)), rest: name.rest },
            }
        },
    }
}

/// Reads two bytes.
pub open spec fn parse_two_octets(s: Seq<u8>, truncated: CodecError) -> Parsed<(u8, u8)> {
    if s.len() < 2 {
        Parsed { outcome: Err(truncated), rest: s }
    } else {
        Parsed { outcome: Ok((s[0], s[1])), rest: s.skip(2) }
    }
}

/// Reads the payload of a Subscribe.
pub open spec fn parse_subscribe(s: Seq<u8>) -> Result<MessageView, CodecError> {
    let ids = parse_two_varints(s);
    match ids.outcome {
        Err(e) => Err(e),
        Ok((subscribe_id, track_alias)) => {
            let track = parse_track(ids.rest);
            match track.outcome {
                Err(e) => Err(e),
                Ok((track_namespace, track_name)) => {
                    let flags = parse_two_octets(track.rest, CodecError::SubscribeTruncated);
                    match flags.outcome {
                        Err(e) => Err(e),
                        Ok((subscriber_priority, group_order)) => {
                            match parse_varint(flags.rest).outcome {
                                Err(e) => Err(e),
                                Ok(filter_type) => Ok(
                                    MessageView::Subscribe {
                                        subscribe_id,
                                        track_alias,
                                        track_namespace,
                                        track_name,
                                        subscriber_priority,
                                        group_order,
                                        filter_type,
                                    },
                                ),
                            }
                        },
                    }
                },
            }
        },
    }
}

/// Reads the payload of a SubscribeOk. Any byte but zero raises its flag.
pub open spec fn parse_subscribe_ok(s: Seq<u8>) -> Result<MessageView, CodecError> {
    let ids = parse_two_varints(s);
    match ids.outcome {
        Err(e) => Err(e),
        Ok((subscribe_id, expires)) => {
            match parse_two_octets(ids.rest, CodecError::SubscribeOkTruncated).outcome {
                Err(e) => Err(e),
                Ok((group_order, flag)) => Ok(
                    MessageView::SubscribeOk {
                        subscribe_id,
                        expires,
                        group_order,
                        content_exists: flag != 0,
                    },
                ),
            }
        },
    }
}

/// Reads the payload of a RequestError.
pub open spec fn parse_request_error(s: Seq<u8>) -> Result<MessageView, CodecError> {
    let ids = parse_two_varints(s);
    match ids.outcome {
        Err(e) => Err(e),
        Ok((subscribe_id, error_code)) => match parse_string(ids.rest).outcome {
            Err(e) => Err(e),
            Ok(reason_phrase) => Ok(
                MessageView::RequestError { subscribe_id, error_code, reason_phrase },
            ),
        },
    }
}

/// Reads the payload of a SubscribeDone. Any byte but zero raises its flag.
pub open spec fn parse_subscribe_done(s: Seq<u8>) -> Result<MessageView, CodecError> {
    let ids = parse_two_varints(s);
    match ids.outcome {
        Err(e) => Err(e),
        Ok((subscribe_id, status_code)) => {
            let reason = parse_string(ids.rest);
            match reason.outcome {
                Err(e) => Err(e),
                Ok(reason_phrase) => if reason.rest.len() < 1 {
                    Err(CodecError::SubscribeDoneTruncated)
                } else {
                    Ok(
                        MessageView::SubscribeDone {
                            subscribe_id,
                            status_code,
                            reason_phrase,
                            content_exists: reason.rest[0] != 0,
                        },
                    )
                },
            }
        },
    }
}

/// Reads the payload of a Publish, whose parameters are not looked at.
pub open spec fn parse_publish(s: Seq<u8>) -> Result<MessageView, CodecError> {
    let track = parse_track(s);
    match track.outcome {
        Err(e) => Err(e),
        Ok((track_namespace, track_name)) => {
            let flags = parse_two_octets(track.rest, CodecError::PublishTruncated);
            match flags.outcome {
                Err(e) => Err(e),
                Ok((subscriber_priority, group_order)) => match parse_varint(flags.rest).outcome {
                    Err(e) => Err(e),
                    Ok(_) => Ok(
                        MessageView::Publish {
                            track_namespace,
                            track_name,
                            subscriber_priority,
                            group_order,
                        },
                    ),
                },
            }
        },
    }
}

/// Reads the payload of a PublishOk, whose parameters are not looked at.
pub open spec fn parse_publish_ok(s: Seq<u8>) -> Result<MessageView, CodecError> {
    let track = parse_track(s);
    match track.outcome {
        Err(e) => Err(e),
        Ok((track_namespace, track_name)) => match parse_varint(track.rest).outcome {
            Err(e) => Err(e),
            Ok(_) => Ok(MessageView::PublishOk { track_namespace, track_name }),
        },
    }
}

/// Reads the payload of a message of this type. Bytes that are left over in the
/// payload are ignored.
pub open spec fn parse_payload(msg_type: u64, s: Seq<u8>) -> Result<MessageView, CodecError> {
    if msg_type == MSG_CLIENT_SETUP {
        match parse_setup(s).outcome {
            Err(e) => Err(e),
            Ok(params) => Ok(MessageView::ClientSetup { params }),
        }
    } else if msg_type == MSG_SERVER_SETUP {
        match parse_setup(s).outcome {
            Err(e) => Err(e),
            Ok(params) => Ok(MessageView::ServerSetup { params }),
        }
    } else if msg_type == MSG_SUBSCRIBE {
        parse_subscribe(s)
    } else if msg_type == MSG_SUBSCRIBE_OK {
        parse_subscribe_ok(s)
    } else if msg_type == MSG_REQUEST_ERROR {
        parse_request_error(s)
    } else if msg_type == MSG_UNSUBSCRIBE {
        match parse_varint(s).outcome {
            Err(e) => Err(e),
            Ok(subscribe_id) => Ok(MessageView::Unsubscribe { subscribe_id }),
        }
    } else if msg_type == MSG_SUBSCRIBE_DONE {
        parse_subscribe_done(s)
    } else if msg_type == MSG_GOAWAY {
        match parse_string(s).outcome {
            Err(e) => Err(e),
            Ok(new_session_uri) => Ok(MessageView::GoAway { new_session_uri }),
        }
    } else if msg_type == MSG_PUBLISH {
        parse_publish(s)
    } else if msg_type == MSG_PUBLISH_OK {
        parse_publish_ok(s)
    } else {
        Err(CodecError::UnknownMessageType(msg_type))
    }
}

/// Reads a message. A payload that is there is consumed, whatever it holds.
pub open spec fn parse_message(s: Seq<u8>) -> Parsed<MessageView> {
    let msg_type = parse_varint(s);
    match msg_type.outcome {
        Err(e) => Parsed { outcome: Err(e), rest: msg_type.rest },
        Ok(t) => if msg_type.rest.len() < 2 {
            Parsed { outcome: Err(CodecError::MessageLengthMissing), rest: msg_type.rest }
        } else {
            let length = be_value(msg_type.rest.take(2));
            let body = msg_type.rest.skip(2);
            if body.len() < length {
                Parsed {
                    outcome: Err(CodecError::MessagePayloadTruncated(length as u64)),
                    rest: body,
                }
            } else {
                Parsed {
                    outcome: parse_payload(t, body.take(length as int)),
                    rest: body.skip(length as int),
                }
            }
        },
    }
}

/// A subgroup header: four variable-length integers and the priority.
pub open spec fn header_bytes(h: SubgroupHeader) -> Seq<u8> {
    varint_bytes(h.subscribe_id) + varint_bytes(h.track_alias) + varint_bytes(h.group_id)
        + varint_bytes(h.subgroup_id) + seq![h.publisher_priority]
}

/// A subgroup header that can be written.
pub open spec fn header_fits(h: SubgroupHeader) -> bool {
    &&& h.subscribe_id <= VarInt::MAX
    &&& h.track_alias <= VarInt::MAX
    &&& h.group_id <= VarInt::MAX
    &&& h.subgroup_id <= VarInt::MAX
}

/// Reads a subgroup header.
pub open spec fn parse_header(s: Seq<u8>) -> Parsed<SubgroupHeader> {
    let front = parse_two_varints(s);
    match front.outcome {
        Err(e) => Parsed { outcome: Err(e), rest: front.rest },
        Ok((subscribe_id, track_alias)) => {
            let back = parse_two_varints(front.rest);
            match back.outcome {
                Err(e) => Parsed { outcome: Err(e), rest: back.rest },
                Ok((group_id, subgroup_id)) => if back.rest.len() < 1 {
                    Parsed {
                        outcome: Err(CodecError::PublisherPriorityMissing),
                        rest: back.rest,
                    }
                } else {
                    Parsed {
                        outcome: Ok(
                            SubgroupHeader {
                                subscribe_id,
                                track_alias,
                                group_id,
                                subgroup_id,
                                publisher_priority: back.rest[0],
                            },
                        ),
                        rest: back.rest.skip(1),
                    }
                },
            }
        },
    }
}

/// Appends a number as a variable-length integer.
pub(crate) fn encode_varint(buf: &mut BytesMut, v: u64)
    requires
        v <= VarInt::MAX,
        written(*old(buf)).len() + varint_bytes(v).len() <= isize::MAX,
    ensures
        written(*final(buf)) == written(*old(buf)) + varint_bytes(v),
{
    broadcast use lemma_varint_bytes_len;

    VarInt::from_u64(v).unwrap().encode(buf)
}

/// Reads a variable-length integer as a number.
pub(crate) fn decode_varint(buf: &mut Bytes) -> (r: Result<u64, CodecError>)
    ensures
        r == parse_varint(unread(*old(buf))).outcome,
        r matches Ok(v) ==> v <= VarInt::MAX,
        unread(*final(buf)) == parse_varint(unread(*old(buf))).rest,
{
    let v = VarInt::decode(buf)?;
    Ok(v.into_inner())
}

/// A text that fits in a length-prefixed string.
pub open spec fn text_fits(text: Seq<char>) -> bool {
    encode_utf8(text).len() <= VarInt::MAX
}

/// Texts that fit in a tuple.
pub open spec fn texts_fit(texts: Seq<Seq<char>>) -> bool {
    &&& texts.len() <= VarInt::MAX
    &&& forall|i: int| 0 <= i < texts.len() ==> text_fits(#[trigger] texts[i])
}

/// Appends a length-prefixed string.
pub fn encode_string(buf: &mut BytesMut, s: &str)
    requires
        text_fits(s@),
        written(*old(buf)).len() + string_bytes(s@).len() <= isize::MAX,
    ensures
        written(*final(buf)) == written(*old(buf)) + string_bytes(s@),
{
    let bytes = s.as_bytes();
    encode_varint(buf, bytes.len() as u64);
    buf.extend_from_slice(bytes);
    assert(written(*buf) =~= written(*old(buf)) + string_bytes(s@));
}

/// Reads a length-prefixed string.
pub fn decode_string(buf: &mut Bytes) -> (r: Result<String, CodecError>)
    ensures
        match r {
            Ok(text) => parse_string(unread(*old(buf))).outcome == Ok::<Seq<char>, CodecError>(
                text@,
            ),
            Err(e) => parse_string(unread(*old(buf))).outcome == Err::<Seq<char>, CodecError>(e),
        },
        unread(*final(buf)) == parse_string(unread(*old(buf))).rest,
{
    let len = decode_varint(buf)?;
    if (buf.len() as u64) < len {
        return Err(CodecError::StringTruncated(len));
    }
    let front = buf.split_to(len as usize);
    match string_from_utf8(slice_to_vec(chunk(&front))) {
        Ok(text) => Ok(text),
        Err((valid_up_to, error_len)) => {
            Err(CodecError::InvalidUtf8 { valid_up_to, error_len })
        },
    }
}

/// Appends a tuple of strings.
pub fn encode_tuple(buf: &mut BytesMut, tuple: &Vec<String>)
    requires
        texts_fit(texts(tuple@)),
        written(*old(buf)).len() + tuple_bytes(texts(tuple@)).len() <= isize::MAX,
    ensures
        written(*final(buf)) == written(*old(buf)) + tuple_bytes(texts(tuple@)),
{
    let ghost all = texts(tuple@);
    let ghost start = written(*buf);
    encode_varint(buf, tuple.len() as u64);
    let mut i: usize = 0;
    assert(strings_bytes(all.take(0)) =~= Seq::<u8>::empty());
    assert(all.take(all.len() as int) =~= all);
    while i < tuple.len()
        invariant
            i <= tuple.len(),
            all == texts(tuple@),
            texts_fit(all),
            all.take(all.len() as int) == all,
            start.len() + tuple_bytes(all).len() <= isize::MAX,
            written(*buf) == start + varint_bytes(all.len() as u64) + strings_bytes(
                all.take(i as int),
            ),
        decreases tuple.len() - i,
    {
        proof {
            assert(all.take(i + 1).drop_last() =~= all.take(i as int));
            lemma_strings_bytes_grow(all, i + 1);
        }
        encode_string(buf, tuple[i].as_str());
        i = i + 1;
    }
}

/// A prefix of some strings takes no more bytes than all of them.
pub(crate) proof fn lemma_strings_bytes_grow(texts: Seq<Seq<char>>, n: int)
    requires
        0 <= n <= texts.len(),
    ensures
        strings_bytes(texts.take(n)).len() <= strings_bytes(texts).len(),
    decreases texts.len(),
{
    if n < texts.len() {
        lemma_strings_bytes_grow(texts.drop_last(), n);
        assert(texts.drop_last().take(n) =~= texts.take(n));
    } else {
        assert(texts.take(n) =~= texts);
    }
}

/// Reads a tuple of strings.
pub fn decode_tuple(buf: &mut Bytes) -> (r: Result<TrackNamespace, CodecError>)
    ensures
        match r {
            Ok(v) => parse_tuple(unread(*old(buf))).outcome == Ok::<Seq<Seq<char>>, CodecError>(
                texts(v@),
            ),
            Err(e) => parse_tuple(unread(*old(buf))).outcome == Err::<Seq<Seq<char>>, CodecError>(
                e,
            ),
        },
        unread(*final(buf)) == parse_tuple(unread(*old(buf))).rest,
{
    let num_elements = decode_varint(buf)?;
    let ghost s = unread(*buf);
    let mut elements: Vec<String> = Vec::new();
    let mut i: u64 = 0;
    assert(texts(elements@) =~= Seq::<Seq<char>>::empty());
    while i < num_elements
        invariant
            i <= num_elements,
            parse_strings(s, i as nat).outcome == Ok::<Seq<Seq<char>>, CodecError>(
                texts(elements@),
            ),
            parse_strings(s, i as nat).rest == unread(*buf),
            parse_tuple(unread(*old(buf))) == parse_strings(s, num_elements as nat),
        decreases num_elements - i,
    {
        let ghost before = texts(elements@);
        match decode_string(buf) {
            Ok(text) => {
                elements.push(text);
                assert(texts(elements@) =~= before.push(text@));
            },
            Err(e) => {
                proof {
                    lemma_parse_strings_stuck(s, (i + 1) as nat, num_elements as nat);
                }
                return Err(e);
            },
        }
        i = i + 1;
    }
    Ok(elements)
}

/// Appends the value of a parameter that holds a number.
fn encode_param_number(buf: &mut BytesMut, v: u64)
    requires
        v <= VarInt::MAX,
        written(*old(buf)).len() + varint_bytes(varint_bytes(v).len() as u64).len() + varint_bytes(
            v,
        ).len() <= isize::MAX,
    ensures
        written(*final(buf)) == written(*old(buf)) + varint_bytes(varint_bytes(v).len() as u64)
            + varint_bytes(v),
{
    broadcast use lemma_varint_bytes_len;

    let size = VarInt::from_u64(v).unwrap().size();
    encode_varint(buf, size as u64);
    encode_varint(buf, v);
}

/// Appends a setup parameter.
fn encode_param(buf: &mut BytesMut, p: &SetupParameter)
    requires
        param_fits(p@),
        written(*old(buf)).len() + param_bytes(p@).len() <= isize::MAX,
    ensures
        written(*final(buf)) == written(*old(buf)) + param_bytes(p@),
{
    match p {
        SetupParameter::Role(v) => {
            encode_varint(buf, PARAM_ROLE);
            encode_param_number(buf, *v);
        },
        SetupParameter::Path(text) => {
            encode_varint(buf, PARAM_PATH);
            encode_string(buf, text.as_str());
        },
        SetupParameter::MaxSubscribeId(v) => {
            encode_varint(buf, PARAM_MAX_SUBSCRIBE_ID);
            encode_param_number(buf, *v);
        },
        SetupParameter::Unknown(_) => {},
    }
    assert(written(*buf) =~= written(*old(buf)) + param_bytes(p@));
}

/// Some of the parameters take no more bytes than all of them.
pub(crate) proof fn lemma_params_bytes_grow(params: Seq<SetupParameterView>, n: int)
    requires
        0 <= n <= params.len(),
    ensures
        params_bytes(params.take(n)).len() <= params_bytes(params).len(),
    decreases params.len(),
{
    if n < params.len() {
        lemma_params_bytes_grow(params.drop_last(), n);
        assert(params.drop_last().take(n) =~= params.take(n));
    } else {
        assert(params.take(n) =~= params);
    }
}

/// No more parameters have known keys than there are parameters.
pub(crate) proof fn lemma_known_part_len(params: Seq<SetupParameterView>)
    ensures
        known_part(params).len() <= params.len(),
    decreases params.len(),
{
    if params.len() > 0 {
        lemma_known_part_len(params.drop_last());
    }
}

/// How many parameters have known keys.
pub(crate) fn count_known(params: &Vec<SetupParameter>) -> (count: usize)
    ensures
        count == known_part(param_views(params@)).len(),
{
    let ghost all = param_views(params@);
    let mut count: usize = 0;
    let mut i: usize = 0;
    while i < params.len()
        invariant
            i <= params.len(),
            all == param_views(params@),
            count <= i,
            count == known_part(all.take(i as int)).len(),
        decreases params.len() - i,
    {
        proof {
            assert(all.take(i + 1).drop_last() =~= all.take(i as int));
            assert(all.take(i + 1).last() == params@[i as int]@);
        }
        match &params[i] {
            SetupParameter::Unknown(_) => {},
            _ => {
                count = count + 1;
            },
        }
        i = i + 1;
    }
    assert(all.take(all.len() as int) =~= all);
    count
}

/// Appends the parameters of a setup message.
pub fn encode_setup_params(buf: &mut BytesMut, params: &Vec<SetupParameter>)
    requires
        params_fit(param_views(params@)),
        written(*old(buf)).len() + setup_bytes(param_views(params@)).len() <= isize::MAX,
    ensures
        written(*final(buf)) == written(*old(buf)) + setup_bytes(param_views(params@)),
{
    let ghost all = param_views(params@);
    let ghost start = written(*buf);
    let count = count_known(params);
    proof {
        lemma_known_part_len(all);
    }
    encode_varint(buf, count as u64);
    let mut i: usize = 0;
    assert(params_bytes(all.take(0)) =~= Seq::<u8>::empty());
    assert(all.take(all.len() as int) =~= all);
    while i < params.len()
        invariant
            i <= params.len(),
            all == param_views(params@),
            params_fit(all),
            all.take(all.len() as int) == all,
            start.len() + setup_bytes(all).len() <= isize::MAX,
            written(*buf) == start + varint_bytes(known_part(all).len() as u64) + params_bytes(
                all.take(i as int),
            ),
        decreases params.len() - i,
    {
        proof {
            assert(all.take(i + 1).drop_last() =~= all.take(i as int));
            lemma_params_bytes_grow(all, i + 1);
        }
        encode_param(buf, &params[i]);
        i = i + 1;
    }
}

/// Reads the value of a parameter that holds a number.
fn decode_param_number(buf: &mut Bytes, truncated: CodecError) -> (r: Result<u64, CodecError>)
    ensures
        r == parse_param_number(unread(*old(buf)), truncated).outcome,
        unread(*final(buf)) == parse_param_number(unread(*old(buf)), truncated).rest,
{
    let val_len = decode_varint(buf)?;
    if (buf.len() as u64) < val_len {
        return Err(truncated);
    }
    let mut val_buf = buf.split_to(val_len as usize);
    decode_varint(&mut val_buf)
}

/// Reads a setup parameter.
fn decode_param(buf: &mut Bytes) -> (r: Result<SetupParameter, CodecError>)
    ensures
        match r {
            Ok(p) => parse_param(unread(*old(buf))).outcome == Ok::<SetupParameterView, CodecError>(
                p@,
            ),
            Err(e) => parse_param(unread(*old(buf))).outcome == Err::<
                SetupParameterView,
                CodecError,
            >(e),
        },
        unread(*final(buf)) == parse_param(unread(*old(buf))).rest,
{
    let key = decode_varint(buf)?;
    if key == PARAM_ROLE {
        let v = decode_param_number(buf, CodecError::RoleTruncated)?;
        Ok(SetupParameter::Role(v))
    } else if key == PARAM_PATH {
        let text = decode_string(buf)?;
        Ok(SetupParameter::Path(text))
    } else if key == PARAM_MAX_SUBSCRIBE_ID {
        let v = decode_param_number(buf, CodecError::MaxSubscribeIdTruncated)?;
        Ok(SetupParameter::MaxSubscribeId(v))
    } else {
        let val_len = decode_varint(buf)?;
        if (buf.len() as u64) < val_len {
            return Err(CodecError::UnknownParameterTruncated(key));
        }
        advance(buf, val_len as usize);
        Ok(SetupParameter::Unknown(key))
    }
}

/// Once a parameter cannot be read, asking for more of them changes nothing.
pub(crate) proof fn lemma_parse_params_stuck(s: Seq<u8>, m: nat, n: nat)
    requires
        m <= n,
        parse_params(s, m).outcome is Err,
    ensures
        parse_params(s, n) == parse_params(s, m),
    decreases n,
{
    if m < n {
        lemma_parse_params_stuck(s, m, (n - 1) as nat);
    }
}

/// Reads the parameters of a setup message.
pub fn decode_setup_params(buf: &mut Bytes) -> (r: Result<Vec<SetupParameter>, CodecError>)
    ensures
        match r {
            Ok(v) => parse_setup(unread(*old(buf))).outcome == Ok::<
                Seq<SetupParameterView>,
                CodecError,
            >(param_views(v@)),
            Err(e) => parse_setup(unread(*old(buf))).outcome == Err::<
                Seq<SetupParameterView>,
                CodecError,
            >(e),
        },
        unread(*final(buf)) == parse_setup(unread(*old(buf))).rest,
{
    let num_params = decode_varint(buf)?;
    let ghost s = unread(*buf);
    let mut params: Vec<SetupParameter> = Vec::new();
    let mut i: u64 = 0;
    assert(param_views(params@) =~= Seq::<SetupParameterView>::empty());
    while i < num_params
        invariant
            i <= num_params,
            parse_params(s, i as nat).outcome == Ok::<Seq<SetupParameterView>, CodecError>(
                param_views(params@),
            ),
            parse_params(s, i as nat).rest == unread(*buf),
            parse_setup(unread(*old(buf))) == parse_params(s, num_params as nat),
        decreases num_params - i,
    {
        let ghost before = param_views(params@);
        match decode_param(buf) {
            Ok(p) => {
                params.push(p);
                assert(param_views(params@) =~= before.push(p@));
            },
            Err(e) => {
                proof {
                    lemma_parse_params_stuck(s, (i + 1) as nat, num_params as nat);
                }
                return Err(e);
            },
        }
        i = i + 1;
    }
    Ok(params)
}

/// Reads two variable-length integers.
fn decode_two_varints(buf: &mut Bytes) -> (r: Result<(u64, u64), CodecError>)
    ensures
        r == parse_two_varints(unread(*old(buf))).outcome,
        unread(*final(buf)) == parse_two_varints(unread(*old(buf))).rest,
{
    let a = decode_varint(buf)?;
    let b = decode_varint(buf)?;
    Ok((a, b))
}

/// Reads the name space and the name of a track.
fn decode_track(buf: &mut Bytes) -> (r: Result<(TrackNamespace, String), CodecError>)
    ensures
        match r {
            Ok((namespace, name)) => parse_track(unread(*old(buf))).outcome == Ok::<
                (Seq<Seq<char>>, Seq<char>),
                CodecError,
            >((texts(namespace@), name@)),
            Err(e) => parse_track(unread(*old(buf))).outcome == Err::<
                (Seq<Seq<char>>, Seq<char>),
                CodecError,
            >(e),
        },
        unread(*final(buf)) == parse_track(unread(*old(buf))).rest,
{
    let namespace = decode_tuple(buf)?;
    let name = decode_string(buf)?;
    Ok((namespace, name))
}

/// Reads two bytes.
fn decode_two_octets(buf: &mut Bytes, truncated: CodecError) -> (r: Result<(u8, u8), CodecError>)
    ensures
        r == parse_two_octets(unread(*old(buf)), truncated).outcome,
        unread(*final(buf)) == parse_two_octets(unread(*old(buf)), truncated).rest,
{
    if buf.len() < 2 {
        return Err(truncated);
    }
    let a = get_u8(buf);
    let b = get_u8(buf);
    assert(unread(*buf) =~= unread(*old(buf)).skip(2));
    Ok((a, b))
}

impl Message {
    /// The type that the message is sent under.
    fn type_id(&self) -> (t: u64)
        ensures
            t == message_type(self@),
    {
        match self {
            Message::ClientSetup(_) => MSG_CLIENT_SETUP,
            Message::ServerSetup(_) => MSG_SERVER_SETUP,
            Message::Subscribe(_) => MSG_SUBSCRIBE,
            Message::SubscribeOk(_) => MSG_SUBSCRIBE_OK,
            Message::RequestError(_) => MSG_REQUEST_ERROR,
            Message::Unsubscribe(_) => MSG_UNSUBSCRIBE,
            Message::SubscribeDone(_) => MSG_SUBSCRIBE_DONE,
            Message::GoAway(_) => MSG_GOAWAY,
            Message::Publish(_) => MSG_PUBLISH,
            Message::PublishOk(_) => MSG_PUBLISH_OK,
        }
    }

    /// The payload of the message.
    fn encode_payload(&self) -> (payload: BytesMut)
        requires
            message_fits(self@),
            payload_bytes(self@).len() <= isize::MAX,
        ensures
            written(payload) == payload_bytes(self@),
    {
        let mut payload = BytesMut::new();
        match self {
            Message::ClientSetup(m) => {
                encode_setup_params(&mut payload, &m.params);
            },
            Message::ServerSetup(m) => {
                encode_setup_params(&mut payload, &m.params);
            },
            Message::Subscribe(m) => {
                encode_varint(&mut payload, m.subscribe_id);
                encode_varint(&mut payload, m.track_alias);
                encode_tuple(&mut payload, &m.track_namespace);
                encode_string(&mut payload, m.track_name.as_str());
                put_u8(&mut payload, m.subscriber_priority);
                put_u8(&mut payload, m.group_order);
                encode_varint(&mut payload, m.filter_type);
            },
            Message::SubscribeOk(m) => {
                encode_varint(&mut payload, m.subscribe_id);
                encode_varint(&mut payload, m.expires);
                put_u8(&mut payload, m.group_order);
                put_u8(&mut payload, if m.content_exists { 1 } else { 0 });
            },
            Message::RequestError(m) => {
                encode_varint(&mut payload, m.subscribe_id);
                encode_varint(&mut payload, m.error_code);
                encode_string(&mut payload, m.reason_phrase.as_str());
            },
            Message::Unsubscribe(m) => {
                encode_varint(&mut payload, m.subscribe_id);
            },
            Message::SubscribeDone(m) => {
                encode_varint(&mut payload, m.subscribe_id);
                encode_varint(&mut payload, m.status_code);
                encode_string(&mut payload, m.reason_phrase.as_str());
                put_u8(&mut payload, if m.content_exists { 1 } else { 0 });
            },
            Message::GoAway(m) => {
                encode_string(&mut payload, m.new_session_uri.as_str());
            },
            Message::Publish(m) => {
                encode_tuple(&mut payload, &m.track_namespace);
                encode_string(&mut payload, m.track_name.as_str());
                put_u8(&mut payload, m.subscriber_priority);
                put_u8(&mut payload, m.group_order);
                encode_varint(&mut payload, 0);
            },
            Message::PublishOk(m) => {
                encode_tuple(&mut payload, &m.track_namespace);
                encode_string(&mut payload, m.track_name.as_str());
                encode_varint(&mut payload, 0);
            },
        }
        assert(written(payload) =~= payload_bytes(self@));
        payload
    }

    /// The bytes that the message is sent as. Its payload has at most 65535
    /// bytes if the receiver is to find its end.
    pub fn encode(&self) -> (out: Bytes)
        requires
            message_fits(self@),
            message_bytes(self@).len() <= isize::MAX,
        ensures
            unread(out) == message_bytes(self@),
    {
        broadcast use lemma_be_bytes_len;

        let mut buf = BytesMut::new();
        encode_varint(&mut buf, self.type_id());
        let payload = self.encode_payload();
        let length = payload.len();
        proof {
            assert(#[verifier::truncate] (length as u16) == length % 0x1_0000) by (bit_vector);
            lemma_be_bytes_two(length as nat);
        }
        put_u16(&mut buf, #[verifier::truncate] (length as u16));
        buf.extend_from_slice(contents(&payload));
        assert(written(buf) =~= message_bytes(self@));
        buf.freeze()
    }

    /// Reads a message off the front of a buffer.
    pub fn decode(buf: &mut Bytes) -> (r: Result<Self, CodecError>)
        ensures
            match r {
                Ok(m) => parse_message(unread(*old(buf))).outcome == Ok::<MessageView, CodecError>(
                    m@,
                ),
                Err(e) => parse_message(unread(*old(buf))).outcome == Err::<
                    MessageView,
                    CodecError,
                >(e),
            },
            unread(*final(buf)) == parse_message(unread(*old(buf))).rest,
    {
        let msg_type = decode_varint(buf)?;
        if buf.len() < 2 {
            return Err(CodecError::MessageLengthMissing);
        }
        let length = get_u16(buf) as usize;
        if buf.len() < length {
            return Err(CodecError::MessagePayloadTruncated(length as u64));
        }
        let mut payload = buf.split_to(length);
        Self::decode_payload(msg_type, &mut payload)
    }

    /// Reads the payload of a message of this type.
    fn decode_payload(msg_type: u64, payload: &mut Bytes) -> (r: Result<Self, CodecError>)
        ensures
            match r {
                Ok(m) => parse_payload(msg_type, unread(*old(payload))) == Ok::<
                    MessageView,
                    CodecError,
                >(m@),
                Err(e) => parse_payload(msg_type, unread(*old(payload))) == Err::<
                    MessageView,
                    CodecError,
                >(e),
            },
    {
        match msg_type {
            MSG_CLIENT_SETUP => {
                let params = decode_setup_params(payload)?;
                Ok(Message::ClientSetup(ClientSetup { params }))
            },
            MSG_SERVER_SETUP => {
                let params = decode_setup_params(payload)?;
                Ok(Message::ServerSetup(ServerSetup { params }))
            },
            MSG_SUBSCRIBE => {
                let (subscribe_id, track_alias) = decode_two_varints(payload)?;
                let (track_namespace, track_name) = decode_track(payload)?;
                let (subscriber_priority, group_order) = decode_two_octets(
                    payload,
                    CodecError::SubscribeTruncated,
                )?;
                let filter_type = decode_varint(payload)?;
                Ok(
                    Message::Subscribe(
                        Subscribe {
                            subscribe_id,
                            track_alias,
                            track_namespace,
                            track_name,
                            subscriber_priority,
                            group_order,
                            filter_type,
                        },
                    ),
                )
            },
            MSG_SUBSCRIBE_OK => {
                let (subscribe_id, expires) = decode_two_varints(payload)?;
                let (group_order, flag) = decode_two_octets(
                    payload,
                    CodecError::SubscribeOkTruncated,
                )?;
                Ok(
                    Message::SubscribeOk(
                        SubscribeOk {
                            subscribe_id,
                            expires,
                            group_order,
                            content_exists: flag != 0,
                        },
                    ),
                )
            },
            MSG_REQUEST_ERROR => {
                let (subscribe_id, error_code) = decode_two_varints(payload)?;
                let reason_phrase = decode_string(payload)?;
                Ok(Message::RequestError(RequestError { subscribe_id, error_code, reason_phrase }))
            },
            MSG_UNSUBSCRIBE => {
                let subscribe_id = decode_varint(payload)?;
                Ok(Message::Unsubscribe(Unsubscribe { subscribe_id }))
            },
            MSG_SUBSCRIBE_DONE => {
                let (subscribe_id, status_code) = decode_two_varints(payload)?;
                let reason_phrase = decode_string(payload)?;
                if payload.len() < 1 {
                    return Err(CodecError::SubscribeDoneTruncated);
                }
                let flag = get_u8(payload);
                Ok(
                    Message::SubscribeDone(
                        SubscribeDone {
                            subscribe_id,
                            status_code,
                            reason_phrase,
                            content_exists: flag != 0,
                        },
                    ),
                )
            },
            MSG_GOAWAY => {
                let new_session_uri = decode_string(payload)?;
                Ok(Message::GoAway(GoAway { new_session_uri }))
            },
            MSG_PUBLISH => {
                let (track_namespace, track_name) = decode_track(payload)?;
                let (subscriber_priority, group_order) = decode_two_octets(
                    payload,
                    CodecError::PublishTruncated,
                )?;
                let _num_params = decode_varint(payload)?;
                Ok(
                    Message::Publish(
                        Publish { track_namespace, track_name, subscriber_priority, group_order },
                    ),
                )
            },
            MSG_PUBLISH_OK => {
                let (track_namespace, track_name) = decode_track(payload)?;
                let _num_params = decode_varint(payload)?;
                Ok(Message::PublishOk(PublishOk { track_namespace, track_name }))
            },
            other => Err(CodecError::UnknownMessageType(other)),
        }
    }
}

/// Two bytes show a number up to multiples of 65536.
proof fn lemma_be_bytes_two(n: nat)
    ensures
        be_bytes(n % 0x1_0000, 2) == be_bytes(n, 2),
{
    let q = n / 0x1_0000;
    let r = n % 0x1_0000;
    assert(n / 256 == 256 * q + r / 256);
    assert(n % 256 == r % 256);
    assert((256 * q + r / 256) % 256 == (r / 256) % 256);
    assert(be_bytes(r / 256, 1) == be_bytes(n / 256, 1)) by {
        reveal_with_fuel(be_bytes, 2);
        assert(be_bytes(r / 256, 1) =~= seq![((r / 256) % 256) as u8]);
        assert(be_bytes(n / 256, 1) =~= seq![((n / 256) % 256) as u8]);
    }
}

impl SubgroupHeader {
    /// Appends the header to a buffer.
    pub fn encode(&self, buf: &mut BytesMut)
        requires
            header_fits(*self),
            written(*old(buf)).len() + header_bytes(*self).len() <= isize::MAX,
        ensures
            written(*final(buf)) == written(*old(buf)) + header_bytes(*self),
    {
        encode_varint(buf, self.subscribe_id);
        encode_varint(buf, self.track_alias);
        encode_varint(buf, self.group_id);
        encode_varint(buf, self.subgroup_id);
        put_u8(buf, self.publisher_priority);
        assert(written(*buf) =~= written(*old(buf)) + header_bytes(*self));
    }

    /// Reads a header off the front of a buffer.
    pub fn decode(buf: &mut Bytes) -> (r: Result<Self, CodecError>)
        ensures
            r == parse_header(unread(*old(buf))).outcome,
            unread(*final(buf)) == parse_header(unread(*old(buf))).rest,
    {
        let (subscribe_id, track_alias) = decode_two_varints(buf)?;
        let (group_id, subgroup_id) = decode_two_varints(buf)?;
        if buf.len() < 1 {
            return Err(CodecError::PublisherPriorityMissing);
        }
        let publisher_priority = get_u8(buf);
        Ok(Self { subscribe_id, track_alias, group_id, subgroup_id, publisher_priority })
    }
}

} // verus!
