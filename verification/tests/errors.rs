use moq::error::{CodecError, MoqError};
use moq::message::{Message, Unsubscribe};
use moq::session::{Expected, SessionError};

#[test]
fn codec_errors_in_words() {
    let cases = [
        (CodecError::VarIntOverflow(u64::MAX), "varint overflow: 18446744073709551615"),
        (CodecError::StringTruncated(10), "not enough data for string (need 10 bytes)"),
        (
            CodecError::InvalidUtf8 { valid_up_to: 12, error_len: Some(1) },
            "invalid utf-8: invalid utf-8 sequence of 1 bytes from index 12",
        ),
        (
            CodecError::InvalidUtf8 { valid_up_to: 0, error_len: None },
            "invalid utf-8: incomplete utf-8 byte sequence from index 0",
        ),
        (CodecError::RoleTruncated, "not enough data for Role parameter"),
        (
            CodecError::MaxSubscribeIdTruncated,
            "not enough data for MaxSubscribeId parameter",
        ),
        (
            CodecError::UnknownParameterTruncated(0xbeef),
            "not enough data for unknown parameter 0xbeef",
        ),
        (CodecError::MessageLengthMissing, "not enough data for message length"),
        (
            CodecError::MessagePayloadTruncated(260),
            "not enough data for message payload (need 260 bytes)",
        ),
        (
            CodecError::SubscribeTruncated,
            "not enough data for Subscribe priority/group_order",
        ),
        (
            CodecError::SubscribeOkTruncated,
            "not enough data for SubscribeOk group_order/content_exists",
        ),
        (
            CodecError::SubscribeDoneTruncated,
            "not enough data for SubscribeDone content_exists",
        ),
        (CodecError::PublishTruncated, "not enough data for Publish priority/group_order"),
        (CodecError::UnknownMessageType(0x3f), "unknown message type: 0x3f"),
    ];
    for (error, text) in cases {
        assert_eq!(error.to_string(), text);
    }
}

#[test]
fn moq_errors_in_words() {
    assert_eq!(MoqError::VersionMismatch.to_string(), "version mismatch");
    assert_eq!(
        MoqError::UnexpectedMessage("GoAway".into()).to_string(),
        "unexpected message: GoAway"
    );
    assert_eq!(MoqError::TrackNotFound("video".into()).to_string(), "track not found: video");
    assert_eq!(MoqError::Protocol("bad".into()).to_string(), "protocol error: bad");
    assert_eq!(MoqError::Connection("lost".into()).to_string(), "connection error: lost");
}

#[test]
fn io_errors_become_moq_errors() {
    let e = MoqError::from(std::io::Error::new(std::io::ErrorKind::Other, "pipe broke"));
    assert!(matches!(e, MoqError::Io(_)));
    assert_eq!(e.to_string(), "io error: pipe broke");
    assert_eq!(e.describe("elsewhere"), "io error: elsewhere");
}

#[test]
fn session_errors_in_words() {
    assert_eq!(SessionError::StreamClosed.describe(""), "stream closed");
    let got = Message::Unsubscribe(Unsubscribe { subscribe_id: 1 });
    let shown = format!("{:?}", got);
    assert_eq!(shown, "Unsubscribe(Unsubscribe { subscribe_id: 1 })");
    let e = SessionError::UnexpectedMessage { expected: Expected::ServerSetup, got };
    assert_eq!(
        e.describe(&shown),
        "expected ServerSetup, got Unsubscribe(Unsubscribe { subscribe_id: 1 })"
    );
    let e = SessionError::SubscribeIdMismatch { expected: 1, got: 20 };
    assert_eq!(e.describe(""), "subscribe_id mismatch: expected 1, got 20");
}

#[test]
fn expected_messages_have_names() {
    let cases = [
        (Expected::ServerSetup, "ServerSetup"),
        (Expected::ClientSetup, "ClientSetup"),
        (Expected::PublishOk, "PublishOk"),
        (Expected::SubscribeOk, "SubscribeOk"),
        (Expected::PublishOrSubscribe, "Publish or Subscribe"),
    ];
    for (expected, name) in cases {
        let got = Message::Unsubscribe(Unsubscribe { subscribe_id: 1 });
        let e = SessionError::UnexpectedMessage { expected, got };
        assert_eq!(e.describe("it"), format!("expected {}, got it", name));
    }
}
