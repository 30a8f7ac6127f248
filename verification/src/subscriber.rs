//! The receiving side of a track.

use vstd::prelude::*;

use crate::error::CodecError;
use crate::message::{
    texts, Message, MessageView, Subscribe, SubgroupHeader, TrackNamespace, Unsubscribe,
    FILTER_NEXT_GROUP, GROUP_ORDER_ASCENDING,
};
use crate::object::{decode_object, object_in_bounds, parse_object, ObjectHead};
use crate::publisher::copy_strings;
use crate::session::{Expected, SessionError};

verus! {

/// Receives the objects of a track that the server has accepted a subscription
/// to.
pub struct Subscriber {
    track_namespace: TrackNamespace,
    track_name: String,
    subscribe_id: u64,
    track_alias: u64,
}

/// What a subscriber is about.
pub struct SubscriberView {
    pub track_namespace: Seq<Seq<char>>,
    pub track_name: Seq<char>,
    pub subscribe_id: u64,
    pub track_alias: u64,
}

impl View for Subscriber {
    type V = SubscriberView;

    closed spec fn view(&self) -> SubscriberView {
        SubscriberView {
            track_namespace: texts(self.track_namespace@),
            track_name: self.track_name@,
            subscribe_id: self.subscribe_id,
            track_alias: self.track_alias,
        }
    }
}

/// The message that asks for a track.
pub open spec fn subscribe_request(s: SubscriberView) -> MessageView {
    MessageView::Subscribe {
        subscribe_id: s.subscribe_id,
        track_alias: s.track_alias,
        track_namespace: s.track_namespace,
        track_name: s.track_name,
        subscriber_priority: 0,
        group_order: GROUP_ORDER_ASCENDING,
        filter_type: FILTER_NEXT_GROUP,
    }
}

/// What is wrong with an answer to a subscription, if anything is.
pub open spec fn subscribe_answer_error(subscribe_id: u64, resp: Message) -> Option<SessionError> {
    match resp {
        Message::SubscribeOk(ok) => if ok.subscribe_id == subscribe_id {
            None
        } else {
            Some(
                SessionError::SubscribeIdMismatch { expected: subscribe_id, got: ok.subscribe_id },
            )
        },
        _ => Some(SessionError::UnexpectedMessage { expected: Expected::SubscribeOk, got: resp }),
    }
}

/// A subscription asks for what was named: its identifier, its alias, its name space
/// and its name are those that the subscriber was given. It asks for the groups in
/// ascending order from the next one on, and with no priority.
pub proof fn subscription_asks_for_what_was_named(s: Subscribe, v: SubscriberView)
    requires
        Message::Subscribe(s)@ == subscribe_request(v),
    ensures
        s.subscribe_id == v.subscribe_id,
        s.track_alias == v.track_alias,
        texts(s.track_namespace@) == v.track_namespace,
        s.track_name@ == v.track_name,
        s.subscriber_priority == 0,
        s.group_order == 1,
        s.filter_type == 1,
{
}

/// A subscription is confirmed by a SubscribeOk with its own identifier, and by
/// nothing else: any other identifier is named beside the one that was waited for,
/// and any other message is handed back.
pub proof fn only_its_own_answer_confirms(subscribe_id: u64, resp: Message)
    ensures
        match resp {
            Message::SubscribeOk(ok) => {
                &&& subscribe_answer_error(subscribe_id, resp) is None <==> ok.subscribe_id
                    == subscribe_id
                &&& subscribe_answer_error(subscribe_id, resp) matches Some(e) ==> (e matches
                    SessionError::SubscribeIdMismatch { expected, got } && expected
                    == subscribe_id && got == ok.subscribe_id)
            },
            _ => subscribe_answer_error(subscribe_id, resp) matches Some(
                SessionError::UnexpectedMessage { expected, got },
            ) && expected is SubscribeOk && got == resp,
        },
{
}

impl Subscriber {
    /// The message that asks the server for a track.
    pub fn request(
        track_namespace: &TrackNamespace,
        track_name: &String,
        subscribe_id: u64,
        track_alias: u64,
    ) -> (m: Message)
        ensures
            m@ == subscribe_request(
                SubscriberView {
                    track_namespace: texts(track_namespace@),
                    track_name: track_name@,
                    subscribe_id,
                    track_alias,
                },
            ),
            m matches Message::Subscribe(s) && {
                &&& s.subscribe_id == subscribe_id
                &&& s.track_alias == track_alias
                &&& texts(s.track_namespace@) == texts(track_namespace@)
                &&& s.track_name@ == track_name@
                &&& s.subscriber_priority == 0
                &&& s.group_order == 1
                &&& s.filter_type == 1
            },
    {
        Message::Subscribe(
            Subscribe {
                subscribe_id,
                track_alias,
                track_namespace: copy_strings(track_namespace),
                track_name: track_name.clone(),
                subscriber_priority: 0,
                group_order: GROUP_ORDER_ASCENDING,
                filter_type: FILTER_NEXT_GROUP,
            },
        )
    }

    /// A subscriber to the track, if the server's answer confirms this very
    /// subscription.
    pub fn new(
        track_namespace: TrackNamespace,
        track_name: String,
        subscribe_id: u64,
        track_alias: u64,
        resp: Message,
    ) -> (r: Result<Self, SessionError>)
        ensures
            match r {
                Ok(s) => {
                    &&& subscribe_answer_error(subscribe_id, resp) is None
                    &&& s@ == (SubscriberView {
                        track_namespace: texts(track_namespace@),
                        track_name: track_name@,
                        subscribe_id,
                        track_alias,
                    })
                },
                Err(e) => subscribe_answer_error(subscribe_id, resp) == Some(e),
            },
            r is Ok <==> (resp matches Message::SubscribeOk(ok) && ok.subscribe_id
                == subscribe_id),
    {
        match resp {
            Message::SubscribeOk(ok) => {
                if ok.subscribe_id != subscribe_id {
                    return Err(
                        SessionError::SubscribeIdMismatch {
                            expected: subscribe_id,
                            got: ok.subscribe_id,
                        },
                    );
                }
                Ok(Self { track_namespace, track_name, subscribe_id, track_alias })
            },
            other => Err(
                SessionError::UnexpectedMessage { expected: Expected::SubscribeOk, got: other },
            ),
        }
    }

    /// The object that all the bytes of a stream make up: its subgroup header,
    /// its identifier and its payload.
    pub fn recv_object(&self, stream: Vec<u8>) -> (r: Result<
        (SubgroupHeader, u64, Vec<u8>),
        CodecError,
    >)
        requires
            object_in_bounds(stream@),
        ensures
            match r {
                Ok((header, object_id, payload)) => parse_object(stream@) == Ok::<
                    (ObjectHead, Seq<u8>),
                    CodecError,
                >(
                    (
                        ObjectHead { header, object_id, payload_length: payload@.len() as u64 },
                        payload@,
                    ),
                ),
                Err(e) => parse_object(stream@) == Err::<(ObjectHead, Seq<u8>), CodecError>(e),
            },
    {
        decode_object(stream)
    }

    /// The message that ends the subscription.
    pub fn unsubscribe(&self) -> (m: Message)
        ensures
            m@ == (MessageView::Unsubscribe { subscribe_id: self@.subscribe_id }),
    {
        Message::Unsubscribe(Unsubscribe { subscribe_id: self.subscribe_id })
    }
}

} // verus!
