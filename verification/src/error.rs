//! What can go wrong.

use vstd::prelude::*;
use vstd::string::{to_string_from_display_ensures, StringExecFns};

use crate::text::{decimal, hexadecimal, push_decimal, push_hexadecimal};

verus! {

/// Why a value could not be encoded or a byte string not be decoded.
#[derive(Debug, Clone, Copy, PartialEq, Eq)]
pub enum CodecError {
    /// The value does not fit in 62 bits.
    VarIntOverflow(u64),
    /// No byte left where a variable-length integer starts.
    VarIntMissing,
    /// A variable-length integer that needs this many bytes is cut short.
    VarIntTruncated(u64),
    /// A string that needs this many bytes is cut short.
    StringTruncated(u64),
    /// The bytes of a string are not UTF-8: how many of them are, and how many
    /// bytes the offending sequence has, unless the input ends inside it.
    InvalidUtf8 { valid_up_to: usize, error_len: Option<usize> },
    /// The value of a Role parameter is cut short.
    RoleTruncated,
    /// The value of a MaxSubscribeId parameter is cut short.
    MaxSubscribeIdTruncated,
    /// The value of the parameter with this unknown key is cut short.
    UnknownParameterTruncated(u64),
    /// The two bytes of a message's length are not there.
    MessageLengthMissing,
    /// A message's payload that needs this many bytes is cut short.
    MessagePayloadTruncated(u64),
    /// A Subscribe ends before its priority and group order.
    SubscribeTruncated,
    /// A SubscribeOk ends before its group order and content flag.
    SubscribeOkTruncated,
    /// A SubscribeDone ends before its content flag.
    SubscribeDoneTruncated,
    /// A Publish ends before its priority and group order.
    PublishTruncated,
    /// No message has this type.
    UnknownMessageType(u64),
    /// A subgroup header ends before its priority.
    PublisherPriorityMissing,
}

/// What an error says.
pub open spec fn codec_error_text(e: CodecError) -> Seq<char> {
    match e {
        CodecError::VarIntOverflow(v) => "varint overflow: "@ + decimal(v as nat),
        CodecError::VarIntMissing => "not enough data for varint"@,
        CodecError::VarIntTruncated(n) => "not enough data for varint (need "@ + decimal(n as nat)
            + " bytes)"@,
        CodecError::StringTruncated(n) => "not enough data for string (need "@ + decimal(n as nat)
            + " bytes)"@,
        CodecError::InvalidUtf8 { valid_up_to, error_len: Some(n) } =>
            "invalid utf-8: invalid utf-8 sequence of "@ + decimal(n as nat) + " bytes from index "@
            + decimal(valid_up_to as nat),
        CodecError::InvalidUtf8 { valid_up_to, error_len: None } =>
            "invalid utf-8: incomplete utf-8 byte sequence from index "@ + decimal(
            valid_up_to as nat,
        ),
        CodecError::RoleTruncated => "not enough data for Role parameter"@,
        CodecError::MaxSubscribeIdTruncated => "not enough data for MaxSubscribeId parameter"@,
        CodecError::UnknownParameterTruncated(key) => "not enough data for unknown parameter 0x"@
            + hexadecimal(key as nat),
        CodecError::MessageLengthMissing => "not enough data for message length"@,
        CodecError::MessagePayloadTruncated(n) => "not enough data for message payload (need "@
            + decimal(n as nat) + " bytes)"@,
        CodecError::SubscribeTruncated => "not enough data for Subscribe priority/group_order"@,
        CodecError::SubscribeOkTruncated =>
            "not enough data for SubscribeOk group_order/content_exists"@,
        CodecError::SubscribeDoneTruncated => "not enough data for SubscribeDone content_exists"@,
        CodecError::PublishTruncated => "not enough data for Publish priority/group_order"@,
        CodecError::UnknownMessageType(t) => "unknown message type: 0x"@ + hexadecimal(t as nat),
        CodecError::PublisherPriorityMissing => "not enough data for publisher_priority"@,
    }
}

/// A text, a number in base ten, a text.
fn number_between(before: &str, v: u64, after: &str) -> (s: String)
    ensures
        s@ == before@ + decimal(v as nat) + after@,
{
    let mut s = before.to_owned();
    push_decimal(&mut s, v);
    s.append(after);
    s
}

impl CodecError {
    /// The error in words.
    pub fn to_string(&self) -> (s: String)
        ensures
            s@ == codec_error_text(*self),
    {
        match *self {
            CodecError::VarIntOverflow(v) => {
                let mut s = "varint overflow: ".to_owned();
                push_decimal(&mut s, v);
                s
            },
            CodecError::VarIntMissing => "not enough data for varint".to_owned(),
            CodecError::VarIntTruncated(n) => number_between(
                "not enough data for varint (need ",
                n,
                " bytes)",
            ),
            CodecError::StringTruncated(n) => number_between(
                "not enough data for string (need ",
                n,
                " bytes)",
            ),
            CodecError::InvalidUtf8 { valid_up_to, error_len: Some(n) } => {
                let mut s = number_between(
                    "invalid utf-8: invalid utf-8 sequence of ",
                    n as u64,
                    " bytes from index ",
                );
                push_decimal(&mut s, valid_up_to as u64);
                s
            },
            CodecError::InvalidUtf8 { valid_up_to, error_len: None } => {
                let mut s = "invalid utf-8: incomplete utf-8 byte sequence from index ".to_owned();
                push_decimal(&mut s, valid_up_to as u64);
                s
            },
            CodecError::RoleTruncated => "not enough data for Role parameter".to_owned(),
            CodecError::MaxSubscribeIdTruncated =>
                "not enough data for MaxSubscribeId parameter".to_owned(),
            CodecError::UnknownParameterTruncated(key) => {
                let mut s = "not enough data for unknown parameter 0x".to_owned();
                push_hexadecimal(&mut s, key);
                s
            },
            CodecError::MessageLengthMissing => "not enough data for message length".to_owned(),
            CodecError::MessagePayloadTruncated(n) => number_between(
                "not enough data for message payload (need ",
                n,
                " bytes)",
            ),
            CodecError::SubscribeTruncated =>
                "not enough data for Subscribe priority/group_order".to_owned(),
            CodecError::SubscribeOkTruncated =>
                "not enough data for SubscribeOk group_order/content_exists".to_owned(),
            CodecError::SubscribeDoneTruncated =>
                "not enough data for SubscribeDone content_exists".to_owned(),
            CodecError::PublishTruncated =>
                "not enough data for Publish priority/group_order".to_owned(),
            CodecError::UnknownMessageType(t) => {
                let mut s = "unknown message type: 0x".to_owned();
                push_hexadecimal(&mut s, t);
                s
            },
            CodecError::PublisherPriorityMissing =>
                "not enough data for publisher_priority".to_owned(),
        }
    }
}

/// A text that is made of three parts, each whole and in its place.
pub open spec fn three_parts(
    text: Seq<char>,
    before: Seq<char>,
    middle: Seq<char>,
    after: Seq<char>,
) -> bool {
    &&& text.len() == before.len() + middle.len() + after.len()
    &&& text.take(before.len() as int) == before
    &&& text.subrange(before.len() as int, (before.len() + middle.len()) as int) == middle
    &&& text.skip((before.len() + middle.len()) as int) == after
}

pub(crate) proof fn lemma_three_parts(before: Seq<char>, middle: Seq<char>, after: Seq<char>)
    ensures
        three_parts(before + middle + after, before, middle, after),
        three_parts(before + middle, before, middle, Seq::empty()),
{
    let text = before + middle + after;
    assert(text.take(before.len() as int) =~= before);
    assert(text.subrange(before.len() as int, (before.len() + middle.len()) as int) =~= middle);
    assert(text.skip((before.len() + middle.len()) as int) =~= after);
    let short = before + middle;
    assert(short.take(before.len() as int) =~= before);
    assert(short.subrange(before.len() as int, (before.len() + middle.len()) as int) =~= middle);
    assert(short.skip((before.len() + middle.len()) as int) =~= Seq::empty());
}

/// An error that is about a number names it, whole: a value or a length in base ten, a
/// key or a kind in base sixteen.
pub proof fn errors_name_their_numbers(n: u64)
    ensures
        three_parts(
            codec_error_text(CodecError::VarIntOverflow(n)),
            "varint overflow: "@,
            decimal(n as nat),
            Seq::empty(),
        ),
        three_parts(
            codec_error_text(CodecError::VarIntTruncated(n)),
            "not enough data for varint (need "@,
            decimal(n as nat),
            " bytes)"@,
        ),
        three_parts(
            codec_error_text(CodecError::StringTruncated(n)),
            "not enough data for string (need "@,
            decimal(n as nat),
            " bytes)"@,
        ),
        three_parts(
            codec_error_text(CodecError::MessagePayloadTruncated(n)),
            "not enough data for message payload (need "@,
            decimal(n as nat),
            " bytes)"@,
        ),
        three_parts(
            codec_error_text(CodecError::UnknownParameterTruncated(n)),
            "not enough data for unknown parameter 0x"@,
            hexadecimal(n as nat),
            Seq::empty(),
        ),
        three_parts(
            codec_error_text(CodecError::UnknownMessageType(n)),
            "unknown message type: 0x"@,
            hexadecimal(n as nat),
            Seq::empty(),
        ),
{
    let d = decimal(n as nat);
    let h = hexadecimal(n as nat);
    lemma_three_parts("varint overflow: "@, d, Seq::empty());
    lemma_three_parts("not enough data for varint (need "@, d, " bytes)"@);
    lemma_three_parts("not enough data for string (need "@, d, " bytes)"@);
    lemma_three_parts("not enough data for message payload (need "@, d, " bytes)"@);
    lemma_three_parts("not enough data for unknown parameter 0x"@, h, Seq::empty());
    lemma_three_parts("unknown message type: 0x"@, h, Seq::empty());
}

/// An error about bytes that are not UTF-8 says where they end to be, and how many bytes
/// the offending sequence has, if it is complete.
pub proof fn utf8_errors_name_their_place(valid_up_to: usize, n: usize)
    ensures
        three_parts(
            codec_error_text(CodecError::InvalidUtf8 { valid_up_to, error_len: None }),
            "invalid utf-8: incomplete utf-8 byte sequence from index "@,
            decimal(valid_up_to as nat),
            Seq::empty(),
        ),
        three_parts(
            codec_error_text(CodecError::InvalidUtf8 { valid_up_to, error_len: Some(n) }),
            "invalid utf-8: invalid utf-8 sequence of "@,
            decimal(n as nat),
            " bytes from index "@ + decimal(valid_up_to as nat),
        ),
{
    let before = "invalid utf-8: invalid utf-8 sequence of "@;
    let d = decimal(n as nat);
    let between = " bytes from index "@;
    let place = decimal(valid_up_to as nat);
    lemma_three_parts(
        "invalid utf-8: incomplete utf-8 byte sequence from index "@,
        place,
        Seq::empty(),
    );
    lemma_three_parts(before, d, between + place);
    assert(before + d + between + place =~= before + d + (between + place));
}

/// `std::io::Error`, opaque.
#[verifier::external_type_specification]
#[verifier::external_body]
pub struct ExIoError(std::io::Error);

/// What can end a session.
#[derive(Debug)]
pub enum MoqError {
    VersionMismatch,
    UnexpectedMessage(String),
    TrackNotFound(String),
    Io(std::io::Error),
    Protocol(String),
    Connection(String),
}

/// What an error says, given what an input/output error in it says.
pub open spec fn moq_error_text(e: MoqError, io_text: Seq<char>) -> Seq<char> {
    match e {
        MoqError::VersionMismatch => "version mismatch"@,
        MoqError::UnexpectedMessage(msg) => "unexpected message: "@ + msg@,
        MoqError::TrackNotFound(track) => "track not found: "@ + track@,
        MoqError::Io(_) => "io error: "@ + io_text,
        MoqError::Protocol(msg) => "protocol error: "@ + msg@,
        MoqError::Connection(msg) => "connection error: "@ + msg@,
    }
}

impl MoqError {
    /// The error in words, given those of an input/output error in it.
    pub fn describe(&self, io_text: &str) -> (s: String)
        ensures
            s@ == moq_error_text(*self, io_text@),
    {
        match self {
            MoqError::VersionMismatch => "version mismatch".to_owned(),
            MoqError::UnexpectedMessage(msg) => "unexpected message: ".to_owned().concat(
                msg.as_str(),
            ),
            MoqError::TrackNotFound(track) => "track not found: ".to_owned().concat(
                track.as_str(),
            ),
            MoqError::Io(_) => "io error: ".to_owned().concat(io_text),
            MoqError::Protocol(msg) => "protocol error: ".to_owned().concat(msg.as_str()),
            MoqError::Connection(msg) => "connection error: ".to_owned().concat(msg.as_str()),
        }
    }

    /// The error in words, those of an input/output error in it included.
    pub fn to_string(&self) -> (s: String)
        ensures
            match *self {
                MoqError::Io(e) => exists|io_text: String|
                    #![trigger io_text@]
                    {
                        &&& to_string_from_display_ensures(&e, io_text)
                        &&& s@ == moq_error_text(*self, io_text@)
                    },
                _ => s@ == moq_error_text(*self, Seq::empty()),
            },
    {
        match self {
            MoqError::Io(e) => {
                let io_text = e.to_string();
                self.describe(io_text.as_str())
            },
            _ => self.describe(""),
        }
    }
}

/// An error that came with a message says it, whole, behind what kind of error it is.
pub proof fn errors_say_their_message(text: String, io_text: Seq<char>)
    ensures
        three_parts(
            moq_error_text(MoqError::UnexpectedMessage(text), io_text),
            "unexpected message: "@,
            text@,
            Seq::empty(),
        ),
        three_parts(
            moq_error_text(MoqError::TrackNotFound(text), io_text),
            "track not found: "@,
            text@,
            Seq::empty(),
        ),
        three_parts(
            moq_error_text(MoqError::Protocol(text), io_text),
            "protocol error: "@,
            text@,
            Seq::empty(),
        ),
        three_parts(
            moq_error_text(MoqError::Connection(text), io_text),
            "connection error: "@,
            text@,
            Seq::empty(),
        ),
        forall|e: std::io::Error|
            three_parts(
                #[trigger] moq_error_text(MoqError::Io(e), io_text),
                "io error: "@,
                io_text,
                Seq::empty(),
            ),
{
    lemma_three_parts("unexpected message: "@, text@, Seq::empty());
    lemma_three_parts("track not found: "@, text@, Seq::empty());
    lemma_three_parts("protocol error: "@, text@, Seq::empty());
    lemma_three_parts("connection error: "@, text@, Seq::empty());
    lemma_three_parts("io error: "@, io_text, Seq::empty());
}

impl From<std::io::Error> for MoqError {
    fn from(e: std::io::Error) -> (r: Self) {
        MoqError::Io(e)
    }
}

impl vstd::std_specs::convert::FromSpecImpl<std::io::Error> for MoqError {
    open spec fn obeys_from_spec() -> bool {
        true
    }

    open spec fn from_spec(e: std::io::Error) -> Self {
        MoqError::Io(e)
    }
}

} // verus!
