//! The publishing side of a track.

use bytes::BytesMut;
use vstd::prelude::*;

use crate::buffer::written;
use crate::error::CodecError;
use crate::message::{
    texts, Message, MessageView, Publish, SubgroupHeader, TrackNamespace, GROUP_ORDER_ASCENDING,
};
use crate::object::{
    object_head_bytes, object_in_bounds, object_roundtrip, parse_object, ObjectHead,
};
use crate::session::{Expected, SessionError};
use crate::varint::VarInt;

verus! {

/// Sends the objects of a track that the server has accepted.
pub struct Publisher {
    track_namespace: TrackNamespace,
    track_name: String,
    track_alias: u64,
    group_id: u64,
    object_id: u64,
}

/// What a publisher is about, and the identifiers of the object that it sends
/// next.
pub struct PublisherView {
    pub track_namespace: Seq<Seq<char>>,
    pub track_name: Seq<char>,
    pub track_alias: u64,
    pub group_id: u64,
    pub object_id: u64,
}

impl View for Publisher {
    type V = PublisherView;

    closed spec fn view(&self) -> PublisherView {
        PublisherView {
            track_namespace: texts(self.track_namespace@),
            track_name: self.track_name@,
            track_alias: self.track_alias,
            group_id: self.group_id,
            object_id: self.object_id,
        }
    }
}

/// The message that announces a track.
pub open spec fn publish_request(namespace: Seq<Seq<char>>, name: Seq<char>) -> MessageView {
    MessageView::Publish {
        track_namespace: namespace,
        track_name: name,
        subscriber_priority: 0,
        group_order: GROUP_ORDER_ASCENDING,
    }
}

/// The head of the stream that the next object is sent in.
pub open spec fn next_object_head(p: PublisherView, payload_length: nat) -> ObjectHead {
    ObjectHead {
        header: SubgroupHeader {
            subscribe_id: 0,
            track_alias: p.track_alias,
            group_id: p.group_id,
            subgroup_id: 0,
            publisher_priority: 0,
        },
        object_id: p.object_id,
        payload_length: payload_length as u64,
    }
}

/// What a publisher sends is received whole: the object that is read from the head of
/// the stream, the payload and whatever comes behind it has exactly this payload, and
/// the alias, the group and the identifier that the publisher gives it.
pub proof fn sent_object_is_received(p: PublisherView, payload: Seq<u8>, extra: Seq<u8>)
    requires
        p.track_alias <= 4611686018427387903,
        p.group_id <= 4611686018427387903,
        p.object_id <= 4611686018427387903,
        payload.len() <= 4611686018427387903,
    ensures
        ({
            let stream = object_head_bytes(next_object_head(p, payload.len())) + payload + extra;
            &&& object_in_bounds(stream)
            &&& parse_object(stream) == Ok::<(ObjectHead, Seq<u8>), CodecError>(
                (
                    ObjectHead {
                        header: SubgroupHeader {
                            subscribe_id: 0,
                            track_alias: p.track_alias,
                            group_id: p.group_id,
                            subgroup_id: 0,
                            publisher_priority: 0,
                        },
                        object_id: p.object_id,
                        payload_length: payload.len() as u64,
                    },
                    payload,
                ),
            )
        }),
{
    object_roundtrip(next_object_head(p, payload.len()), payload, extra);
}

/// The announcement of a track names it, and asks for its groups in ascending order
/// and with no priority.
pub proof fn announcement_names_the_track(
    p: Publish,
    namespace: Seq<Seq<char>>,
    name: Seq<char>,
)
    requires
        Message::Publish(p)@ == publish_request(namespace, name),
    ensures
        texts(p.track_namespace@) == namespace,
        p.track_name@ == name,
        p.subscriber_priority == 0,
        p.group_order == 1,
{
}

/// A publisher that has sent an object: the next one follows in the group.
pub open spec fn after_object(p: PublisherView) -> PublisherView {
    PublisherView { object_id: (p.object_id + 1) as u64, ..p }
}

/// A publisher that has gone on to a new group, whose objects are counted anew.
pub open spec fn after_group(p: PublisherView) -> PublisherView {
    PublisherView { group_id: (p.group_id + 1) as u64, object_id: 0, ..p }
}

/// What a publisher does from one object to the next.
pub enum PublisherStep {
    ObjectSent,
    NextGroup,
}

/// A publisher after some steps.
pub open spec fn after_steps(p: PublisherView, steps: Seq<PublisherStep>) -> PublisherView
    decreases steps.len(),
{
    if steps.len() == 0 {
        p
    } else {
        let before = after_steps(p, steps.drop_last());
        match steps.last() {
            PublisherStep::ObjectSent => after_object(before),
            PublisherStep::NextGroup => after_group(before),
        }
    }
}

/// The identifiers of the objects of a publisher only grow, first by the group,
/// then by the object inside it, so that no two objects share them. The track
/// stays the same.
pub proof fn identifiers_grow(p: PublisherView, steps: Seq<PublisherStep>)
    requires
        steps.len() > 0,
        p.group_id + steps.len() <= u64::MAX,
        p.object_id + steps.len() <= u64::MAX,
    ensures
        ({
            let q = after_steps(p, steps);
            &&& q.group_id > p.group_id || (q.group_id == p.group_id && q.object_id > p.object_id)
            &&& q.track_alias == p.track_alias
            &&& q.track_namespace == p.track_namespace
            &&& q.track_name == p.track_name
        }),
{
    lemma_after_steps(p, steps);
}

/// How many of some steps go on to a new group.
pub open spec fn groups_begun(steps: Seq<PublisherStep>) -> nat
    decreases steps.len(),
{
    if steps.len() == 0 {
        0
    } else {
        groups_begun(steps.drop_last()) + match steps.last() {
            PublisherStep::ObjectSent => 0nat,
            PublisherStep::NextGroup => 1nat,
        }
    }
}

/// How many of some steps send an object of the last group that they go on to.
pub open spec fn objects_in_group(steps: Seq<PublisherStep>) -> nat
    decreases steps.len(),
{
    if steps.len() == 0 {
        0
    } else {
        match steps.last() {
            PublisherStep::ObjectSent => objects_in_group(steps.drop_last()) + 1,
            PublisherStep::NextGroup => 0,
        }
    }
}

/// A new publisher numbers its groups, and the objects in each of them, from zero
/// and without a gap.
pub proof fn numbering_has_no_gap(p: PublisherView, steps: Seq<PublisherStep>)
    requires
        p.group_id == 0,
        p.object_id == 0,
        steps.len() <= u64::MAX,
    ensures
        after_steps(p, steps).group_id == groups_begun(steps),
        after_steps(p, steps).object_id == objects_in_group(steps),
        groups_begun(steps) <= steps.len(),
        objects_in_group(steps) <= steps.len(),
    decreases steps.len(),
{
    if steps.len() > 0 {
        numbering_has_no_gap(p, steps.drop_last());
    }
}

proof fn lemma_after_steps(p: PublisherView, steps: Seq<PublisherStep>)
    requires
        p.group_id + steps.len() <= u64::MAX,
        p.object_id + steps.len() <= u64::MAX,
    ensures
        ({
            let q = after_steps(p, steps);
            &&& p.group_id <= q.group_id <= p.group_id + steps.len()
            &&& q.object_id <= p.object_id + steps.len()
            &&& q.group_id == p.group_id ==> q.object_id == p.object_id + steps.len()
            &&& q.track_alias == p.track_alias
            &&& q.track_namespace == p.track_namespace
            &&& q.track_name == p.track_name
        }),
    decreases steps.len(),
{
    if steps.len() > 0 {
        lemma_after_steps(p, steps.drop_last());
    }
}

/// A copy of some strings.
pub(crate) fn copy_strings(strings: &Vec<String>) -> (copy: Vec<String>)
    ensures
        texts(copy@) == texts(strings@),
{
    let copy = strings.clone();
    assert(texts(copy@) =~= texts(strings@)) by {
        assert forall|i: int| 0 <= i < strings@.len() implies copy@[i]@ == strings@[i]@ by {
            assert(cloned::<String>(strings@[i], copy@[i]));
        }
    }
    copy
}

impl Publisher {
    /// The message that announces a track to the server.
    pub fn request(track_namespace: &TrackNamespace, track_name: &String) -> (m: Message)
        ensures
            m@ == publish_request(texts(track_namespace@), track_name@),
            m matches Message::Publish(p) && {
                &&& texts(p.track_namespace@) == texts(track_namespace@)
                &&& p.track_name@ == track_name@
                &&& p.subscriber_priority == 0
                &&& p.group_order == 1
            },
    {
        Message::Publish(
            Publish {
                track_namespace: copy_strings(track_namespace),
                track_name: track_name.clone(),
                subscriber_priority: 0,
                group_order: GROUP_ORDER_ASCENDING,
            },
        )
    }

    /// A publisher of the track, if the server's answer is a PublishOk. It starts
    /// with the first object of the first group.
    pub fn new(
        track_namespace: TrackNamespace,
        track_name: String,
        track_alias: u64,
        resp: Message,
    ) -> (r: Result<Self, SessionError>)
        ensures
            r is Ok <==> resp is PublishOk,
            r matches Ok(p) ==> p@ == (PublisherView {
                track_namespace: texts(track_namespace@),
                track_name: track_name@,
                track_alias,
                group_id: 0,
                object_id: 0,
            }),
            r matches Err(e) ==> e == (SessionError::UnexpectedMessage {
                expected: Expected::PublishOk,
                got: resp,
            }),
    {
        match resp {
            Message::PublishOk(_) => Ok(
                Self { track_namespace, track_name, track_alias, group_id: 0, object_id: 0 },
            ),
            other => Err(
                SessionError::UnexpectedMessage { expected: Expected::PublishOk, got: other },
            ),
        }
    }

    /// The bytes that the stream of the next object starts with. The payload
    /// follows them, and `object_sent` the end of the stream.
    pub fn send_object(&self, payload: &[u8]) -> (head: BytesMut)
        requires
            self@.track_alias <= VarInt::MAX,
            self@.group_id <= VarInt::MAX,
            self@.object_id <= VarInt::MAX,
            payload@.len() <= VarInt::MAX,
        ensures
            written(head) == object_head_bytes(next_object_head(self@, payload@.len())),
            parse_object(written(head) + payload@) == Ok::<(ObjectHead, Seq<u8>), CodecError>(
                (
                    ObjectHead {
                        header: SubgroupHeader {
                            subscribe_id: 0,
                            track_alias: self@.track_alias,
                            group_id: self@.group_id,
                            subgroup_id: 0,
                            publisher_priority: 0,
                        },
                        object_id: self@.object_id,
                        payload_length: payload@.len() as u64,
                    },
                    payload@,
                ),
            ),
    {
        let head = ObjectHead {
            header: SubgroupHeader {
                subscribe_id: 0,
                track_alias: self.track_alias,
                group_id: self.group_id,
                subgroup_id: 0,
                publisher_priority: 0,
            },
            object_id: self.object_id,
            payload_length: payload.len() as u64,
        };
        proof {
            sent_object_is_received(self@, payload@, Seq::empty());
            let b = object_head_bytes(head);
            assert(b + payload@ + Seq::<u8>::empty() =~= b + payload@);
        }
        head.encode()
    }

    /// Goes on to the next object of the group.
    pub fn object_sent(&mut self)
        requires
            old(self)@.object_id < u64::MAX,
        ensures
            final(self)@ == after_object(old(self)@),
            final(self)@.object_id == old(self)@.object_id + 1,
            final(self)@.group_id == old(self)@.group_id,
            final(self)@.track_alias == old(self)@.track_alias,
            final(self)@.track_namespace == old(self)@.track_namespace,
            final(self)@.track_name == old(self)@.track_name,
    {
        self.object_id = self.object_id + 1;
    }

    /// Goes on to the first object of the next group.
    pub fn next_group(&mut self)
        requires
            old(self)@.group_id < u64::MAX,
        ensures
            final(self)@ == after_group(old(self)@),
            final(self)@.object_id == 0,
            final(self)@.group_id == old(self)@.group_id + 1,
            final(self)@.track_alias == old(self)@.track_alias,
            final(self)@.track_namespace == old(self)@.track_namespace,
            final(self)@.track_name == old(self)@.track_name,
    {
        self.group_id = self.group_id + 1;
        self.object_id = 0;
    }

    /// The identifier of the group of the next object.
    pub fn group_id(&self) -> (v: u64)
        ensures
            v == self@.group_id,
    {
        self.group_id
    }

    /// The identifier of the next object.
    pub fn object_id(&self) -> (v: u64)
        ensures
            v == self@.object_id,
    {
        self.object_id
    }

    /// The alias of the track.
    pub fn track_alias(&self) -> (v: u64)
        ensures
            v == self@.track_alias,
    {
        self.track_alias
    }
}

} // verus!
