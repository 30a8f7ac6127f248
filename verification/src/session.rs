//! The control stream: how messages come out of it, and how a session starts.

use bytes::BytesMut;
use vstd::prelude::*;
use vstd::string::StringExecFns;

use crate::buffer::written;
use crate::error::{lemma_three_parts, three_parts, CodecError};
use crate::laws::{
    known_message, message_known, message_prefix_fails, message_read_alike,
    unknown_params_are_left_out,
};
use crate::layout::{two_bytes_layout, varint_layout};
use crate::message::{
    known_part, message_bytes, message_fits, params_bytes, parse_message, payload_bytes,
    setup_bytes, ClientSetup, Message, MessageView, Publish, ServerSetup, SetupParameterView,
    Subscribe,
};
use crate::text::{decimal, push_decimal};
use crate::wire::{lemma_varint_bytes_len, parse_varint, Parsed};

verus! {

/// What was waited for when something else came.
#[derive(Debug, Clone, Copy, PartialEq, Eq)]
pub enum Expected {
    ServerSetup,
    ClientSetup,
    PublishOk,
    SubscribeOk,
    PublishOrSubscribe,
}

/// Why a session cannot go on.
#[derive(Debug)]
pub enum SessionError {
    /// The peer closed the stream in the middle of a message, or before one.
    StreamClosed,
    /// Another message came than the one that was waited for.
    UnexpectedMessage { expected: Expected, got: Message },
    /// A subscription was confirmed under another identifier.
    SubscribeIdMismatch { expected: u64, got: u64 },
}

/// The name of what was waited for.
pub open spec fn expected_text(expected: Expected) -> Seq<char> {
    match expected {
        Expected::ServerSetup => "ServerSetup"@,
        Expected::ClientSetup => "ClientSetup"@,
        Expected::PublishOk => "PublishOk"@,
        Expected::SubscribeOk => "SubscribeOk"@,
        Expected::PublishOrSubscribe => "Publish or Subscribe"@,
    }
}

/// What an error says, given how the message in it is shown.
pub open spec fn session_error_text(e: SessionError, shown: Seq<char>) -> Seq<char> {
    match e {
        SessionError::StreamClosed => "stream closed"@,
        SessionError::UnexpectedMessage { expected, got: _ } => "expected "@ + expected_text(
            expected,
        ) + ", got "@ + shown,
        SessionError::SubscribeIdMismatch { expected, got } =>
            "subscribe_id mismatch: expected "@ + decimal(expected as nat) + ", got "@ + decimal(
            got as nat,
        ),
    }
}

impl Expected {
    fn name(&self) -> (s: &'static str)
        ensures
            s@ == expected_text(*self),
    {
        match self {
            Expected::ServerSetup => "ServerSetup",
            Expected::ClientSetup => "ClientSetup",
            Expected::PublishOk => "PublishOk",
            Expected::SubscribeOk => "SubscribeOk",
            Expected::PublishOrSubscribe => "Publish or Subscribe",
        }
    }
}

impl SessionError {
    /// The error in words, given how the message in it is shown.
    pub fn describe(&self, shown: &str) -> (s: String)
        ensures
            s@ == session_error_text(*self, shown@),
    {
        match self {
            SessionError::StreamClosed => "stream closed".to_owned(),
            SessionError::UnexpectedMessage { expected, got: _ } => {
                let mut s = "expected ".to_owned();
                s.append(expected.name());
                s.append(", got ");
                s.append(shown);
                s
            },
            SessionError::SubscribeIdMismatch { expected, got } => {
                let mut s = "subscribe_id mismatch: expected ".to_owned();
                push_decimal(&mut s, *expected);
                s.append(", got ");
                push_decimal(&mut s, *got);
                s
            },
        }
    }
}

/// What a read of the control stream leads to: a message, or the need to read
/// on, with the bytes that are then buffered. A message that cannot be read may
/// yet be completed, so it is no error.
pub open spec fn recv_step(buffered: Seq<u8>, data: Seq<u8>) -> (Option<MessageView>, Seq<u8>) {
    match parse_message(buffered + data).outcome {
        Ok(m) => (Some(m), parse_message(buffered + data).rest),
        Err(_) => (None, buffered + data),
    }
}

/// No byte of the control stream is lost: either a message is read off the front of
/// all that has come, and the rest of it stays buffered, or all of it stays.
pub proof fn no_byte_is_lost(buffered: Seq<u8>, data: Seq<u8>)
    ensures
        match recv_step(buffered, data) {
            (Some(m), left) => parse_message(buffered + data) == (Parsed {
                outcome: Ok(m),
                rest: left,
            }),
            (None, left) => left == buffered + data && parse_message(left).outcome is Err,
        },
{
}

/// One turn of the loop that waits for a message: takes what a read of the
/// control stream gave, nothing if the stream has ended, and says which message
/// that completes, if any.
pub fn recv_message(buf: &mut BytesMut, data: Option<&[u8]>) -> (r: Result<
    Option<Message>,
    SessionError,
>)
    requires
        data matches Some(d) ==> written(*old(buf)).len() + d@.len() <= isize::MAX,
    ensures
        match data {
            None => r matches Err(SessionError::StreamClosed) && written(*final(buf)) == written(
                *old(buf),
            ),
            Some(d) => {
                let (message, left) = recv_step(written(*old(buf)), d@);
                &&& match r {
                    Ok(Some(m)) => message == Some(m@),
                    Ok(None) => message is None,
                    Err(_) => false,
                }
                &&& written(*final(buf)) == left
            },
        },
{
    let d = match data {
        Some(d) => d,
        None => return Err(SessionError::StreamClosed),
    };
    buf.extend_from_slice(d);
    let mut data = buf.clone().freeze();
    match Message::decode(&mut data) {
        Ok(m) => {
            proof {
                lemma_parse_message_suffix(written(*buf));
            }
            let consumed = buf.len() - data.len();
            let _ = buf.split_to(consumed);
            Ok(Some(m))
        },
        Err(_) => Ok(None),
    }
}

/// What is left after a message is the end of what was there.
proof fn lemma_parse_message_suffix(s: Seq<u8>)
    ensures
        parse_message(s).rest.len() <= s.len(),
        parse_message(s).rest == s.skip(s.len() - parse_message(s).rest.len()),
{
    let t = parse_varint(s);
    reveal(parse_varint);
    assert(t.rest =~= s.skip(s.len() - t.rest.len()));
    assert(parse_message(s).rest =~= s.skip(s.len() - parse_message(s).rest.len()));
}

/// What the loop that waits for a message returns when the reads give these
/// pieces, in order: the message, and what is then buffered.
pub open spec fn recv_loop(buffered: Seq<u8>, pieces: Seq<Seq<u8>>) -> Option<
    (MessageView, Seq<u8>),
>
    decreases pieces.len(),
{
    if pieces.len() == 0 {
        None
    } else {
        match recv_step(buffered, pieces[0]) {
            (Some(m), left) => Some((m, left)),
            (None, left) => recv_loop(left, pieces.drop_first()),
        }
    }
}

/// However the bytes of a message arrive cut into pieces, the loop waits for the
/// last of them and returns the message, without the setup parameters whose keys
/// are unknown. Bytes that come behind it in the last piece stay buffered.
pub proof fn recv_in_pieces(
    m: MessageView,
    buffered: Seq<u8>,
    pieces: Seq<Seq<u8>>,
    extra: Seq<u8>,
)
    requires
        message_fits(m),
        payload_bytes(m).len() <= 0xffff,
        pieces.len() > 0,
        extra.len() < pieces.last().len(),
        buffered + pieces.flatten() == message_bytes(m) + extra,
    ensures
        recv_loop(buffered, pieces) == Some((known_message(m), extra)),
        message_known(m) ==> known_message(m) == m,
    decreases pieces.len(),
{
    let whole = message_bytes(m);
    let all = buffered + pieces[0];
    let others = pieces.drop_first();
    unknown_params_are_left_out(m, extra);
    if pieces.len() == 1 {
        assert(others =~= Seq::empty());
        assert(pieces.flatten() =~= pieces[0]);
    } else {
        assert(others.last() == pieces.last());
        lemma_flatten_last(others);
        assert(all + others.flatten() =~= buffered + pieces.flatten());
        assert(all.len() < whole.len());
        assert(all =~= (all + others.flatten()).take(all.len() as int));
        assert((whole + extra).take(all.len() as int) =~= whole.take(all.len() as int));
        message_prefix_fails(m, all.len() as int);
        recv_in_pieces(m, all, others, extra);
    }
}

/// What the loop returns is what the stream starts with, whoever wrote it and
/// however it was cut, and what it leaves buffered is what comes next.
pub proof fn recv_is_sound(buffered: Seq<u8>, pieces: Seq<Seq<u8>>)
    ensures
        recv_loop(buffered, pieces) matches Some((m, left)) ==> {
            let whole = parse_message(buffered + pieces.flatten());
            &&& whole.outcome == Ok::<MessageView, CodecError>(m)
            &&& left.is_prefix_of(whole.rest)
        },
    decreases pieces.len(),
{
    if pieces.len() > 0 {
        let all = buffered + pieces[0];
        let others = pieces.drop_first();
        assert(buffered + pieces.flatten() =~= all + others.flatten());
        if parse_message(all).outcome is Ok {
            message_read_alike(all, others.flatten());
        } else {
            recv_is_sound(all, others);
        }
    }
}

/// If the stream starts with a message, whoever wrote it and however it was cut,
/// the loop returns it, unless it was there before the first piece came.
pub proof fn recv_is_complete(buffered: Seq<u8>, pieces: Seq<Seq<u8>>)
    requires
        parse_message(buffered).outcome is Err,
        parse_message(buffered + pieces.flatten()).outcome is Ok,
    ensures
        recv_loop(buffered, pieces) matches Some((m, _)) && parse_message(
            buffered + pieces.flatten(),
        ).outcome == Ok::<MessageView, CodecError>(m),
    decreases pieces.len(),
{
    if pieces.len() == 0 {
        assert(pieces =~= Seq::empty());
        assert(buffered + pieces.flatten() =~= buffered);
    } else {
        let all = buffered + pieces[0];
        let others = pieces.drop_first();
        assert(buffered + pieces.flatten() =~= all + others.flatten());
        if parse_message(all).outcome is Ok {
            message_read_alike(all, others.flatten());
        } else {
            recv_is_complete(all, others);
        }
    }
}

/// Pieces are together at least as long as the last of them.
proof fn lemma_flatten_last(pieces: Seq<Seq<u8>>)
    requires
        pieces.len() > 0,
    ensures
        pieces.flatten().len() >= pieces.last().len(),
    decreases pieces.len(),
{
    if pieces.len() == 1 {
        assert(pieces.drop_first() =~= Seq::empty());
    } else {
        assert(pieces.drop_first().last() == pieces.last());
        lemma_flatten_last(pieces.drop_first());
    }
}

/// The message that a client opens a session with.
pub open spec fn client_hello() -> MessageView {
    MessageView::ClientSetup { params: Seq::empty() }
}

/// The message that a server answers it with.
pub open spec fn server_hello() -> MessageView {
    MessageView::ServerSetup { params: Seq::empty() }
}

/// A session is opened with four bytes, and answered with four: the kind of the
/// message, the length of its payload, and that there is no parameter.
pub proof fn hellos_are_four_bytes()
    ensures
        message_bytes(client_hello()) == seq![0x20u8, 0, 1, 0],
        message_bytes(server_hello()) == seq![0x21u8, 0, 1, 0],
{
    varint_layout(0x20);
    varint_layout(0x21);
    varint_layout(0);
    two_bytes_layout(1);
    let none = Seq::<SetupParameterView>::empty();
    assert(known_part(none).len() == 0);
    assert(params_bytes(none).len() == 0);
    assert(setup_bytes(none) =~= seq![0u8]);
    assert(message_bytes(client_hello()) =~= seq![0x20u8, 0, 1, 0]);
    assert(message_bytes(server_hello()) =~= seq![0x21u8, 0, 1, 0]);
}

/// An error names what was waited for and shows what came, whole.
pub proof fn session_errors_say_what_came(
    got: Message,
    shown: Seq<char>,
    expected_id: u64,
    got_id: u64,
)
    ensures
        three_parts(
            session_error_text(
                SessionError::UnexpectedMessage { expected: Expected::ServerSetup, got },
                shown,
            ),
            "expected ServerSetup"@,
            ", got "@,
            shown,
        ),
        three_parts(
            session_error_text(
                SessionError::UnexpectedMessage { expected: Expected::ClientSetup, got },
                shown,
            ),
            "expected ClientSetup"@,
            ", got "@,
            shown,
        ),
        three_parts(
            session_error_text(
                SessionError::UnexpectedMessage { expected: Expected::PublishOk, got },
                shown,
            ),
            "expected PublishOk"@,
            ", got "@,
            shown,
        ),
        three_parts(
            session_error_text(
                SessionError::UnexpectedMessage { expected: Expected::SubscribeOk, got },
                shown,
            ),
            "expected SubscribeOk"@,
            ", got "@,
            shown,
        ),
        three_parts(
            session_error_text(
                SessionError::UnexpectedMessage { expected: Expected::PublishOrSubscribe, got },
                shown,
            ),
            "expected Publish or Subscribe"@,
            ", got "@,
            shown,
        ),
        three_parts(
            session_error_text(
                SessionError::SubscribeIdMismatch { expected: expected_id, got: got_id },
                shown,
            ),
            "subscribe_id mismatch: expected "@,
            decimal(expected_id as nat),
            ", got "@ + decimal(got_id as nat),
        ),
{
    reveal_strlit("expected ");
    reveal_strlit("ServerSetup");
    reveal_strlit("ClientSetup");
    reveal_strlit("PublishOk");
    reveal_strlit("SubscribeOk");
    reveal_strlit("Publish or Subscribe");
    reveal_strlit("expected ServerSetup");
    reveal_strlit("expected ClientSetup");
    reveal_strlit("expected PublishOk");
    reveal_strlit("expected SubscribeOk");
    reveal_strlit("expected Publish or Subscribe");
    assert("expected "@ + "ServerSetup"@ =~= "expected ServerSetup"@);
    assert("expected "@ + "ClientSetup"@ =~= "expected ClientSetup"@);
    assert("expected "@ + "PublishOk"@ =~= "expected PublishOk"@);
    assert("expected "@ + "SubscribeOk"@ =~= "expected SubscribeOk"@);
    assert("expected "@ + "Publish or Subscribe"@ =~= "expected Publish or Subscribe"@);
    lemma_three_parts("expected ServerSetup"@, ", got "@, shown);
    lemma_three_parts("expected ClientSetup"@, ", got "@, shown);
    lemma_three_parts("expected PublishOk"@, ", got "@, shown);
    lemma_three_parts("expected SubscribeOk"@, ", got "@, shown);
    lemma_three_parts("expected Publish or Subscribe"@, ", got "@, shown);
    let before = "subscribe_id mismatch: expected "@;
    let d1 = decimal(expected_id as nat);
    let d2 = decimal(got_id as nat);
    lemma_three_parts(before, d1, ", got "@ + d2);
    assert(before + d1 + ", got "@ + d2 =~= before + d1 + (", got "@ + d2));
}

/// The opening of a session and the answer to it are both understood, in
/// whichever pieces they arrive.
pub proof fn setup_completes(
    request: Seq<Seq<u8>>,
    request_extra: Seq<u8>,
    answer: Seq<Seq<u8>>,
    answer_extra: Seq<u8>,
)
    requires
        request.len() > 0,
        request_extra.len() < request.last().len(),
        request.flatten() == message_bytes(client_hello()) + request_extra,
        answer.len() > 0,
        answer_extra.len() < answer.last().len(),
        answer.flatten() == message_bytes(server_hello()) + answer_extra,
    ensures
        recv_loop(Seq::empty(), request) == Some((client_hello(), request_extra)),
        recv_loop(Seq::empty(), answer) == Some((server_hello(), answer_extra)),
{
    broadcast use lemma_varint_bytes_len;

    let nil = Seq::<u8>::empty();
    assert(nil + request.flatten() =~= request.flatten());
    recv_in_pieces(client_hello(), nil, request, request_extra);
    assert(nil + answer.flatten() =~= answer.flatten());
    recv_in_pieces(server_hello(), nil, answer, answer_extra);
}

/// The message that a client opens a session with: a setup without parameters.
pub fn client_setup_request() -> (m: Message)
    ensures
        m@ == client_hello(),
        m matches Message::ClientSetup(c) && c.params@.len() == 0,
{
    let m = Message::ClientSetup(ClientSetup::default());
    assert(m@->ClientSetup_params =~= Seq::empty());
    m
}

/// What a client makes of the answer: the session starts if it is a server
/// setup, whatever its parameters.
pub fn client_setup(resp: Message) -> (r: Result<(), SessionError>)
    ensures
        r is Ok <==> resp is ServerSetup,
        r matches Err(e) ==> e == (SessionError::UnexpectedMessage {
            expected: Expected::ServerSetup,
            got: resp,
        }),
{
    match resp {
        Message::ServerSetup(_) => Ok(()),
        other => Err(
            SessionError::UnexpectedMessage { expected: Expected::ServerSetup, got: other },
        ),
    }
}

/// What a server answers to the first message of a session: a setup without
/// parameters, if that is a client setup.
pub fn server_setup(msg: Message) -> (r: Result<Message, SessionError>)
    ensures
        r is Ok <==> msg is ClientSetup,
        r matches Ok(m) ==> m@ == server_hello(),
        r matches Ok(m) ==> (m matches Message::ServerSetup(s) && s.params@.len() == 0),
        r matches Err(e) ==> e == (SessionError::UnexpectedMessage {
            expected: Expected::ClientSetup,
            got: msg,
        }),
{
    match msg {
        Message::ClientSetup(_) => {
            let m = Message::ServerSetup(ServerSetup::default());
            assert(m@->ServerSetup_params =~= Seq::empty());
            Ok(m)
        },
        other => Err(
            SessionError::UnexpectedMessage { expected: Expected::ClientSetup, got: other },
        ),
    }
}

/// What a client wants of a session.
pub enum SessionRole {
    Publisher(Publish),
    Subscriber(Subscribe),
}

/// What the first message after the setup makes of the client.
pub fn session_role(msg: Message) -> (r: Result<SessionRole, SessionError>)
    ensures
        match msg {
            Message::Publish(p) => r == Ok::<SessionRole, SessionError>(SessionRole::Publisher(p)),
            Message::Subscribe(s) => r == Ok::<SessionRole, SessionError>(
                SessionRole::Subscriber(s),
            ),
            _ => r == Err::<SessionRole, SessionError>(
                SessionError::UnexpectedMessage {
                    expected: Expected::PublishOrSubscribe,
                    got: msg,
                },
            ),
        },
{
    match msg {
        Message::Publish(p) => Ok(SessionRole::Publisher(p)),
        Message::Subscribe(s) => Ok(SessionRole::Subscriber(s)),
        other => Err(
            SessionError::UnexpectedMessage { expected: Expected::PublishOrSubscribe, got: other },
        ),
    }
}

} // verus!
