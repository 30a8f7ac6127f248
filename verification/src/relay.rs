//! The server between publishers and subscribers: which track an object belongs
//! to, which channel it is passed on through, and what subscribers get.

use bytes::BytesMut;
use vstd::prelude::*;
use vstd::string::StringExecFns;

use crate::buffer::written;
use crate::error::CodecError;
use crate::laws::message_roundtrip;
use crate::message::{
    message_bytes, message_fits, parse_message, payload_bytes, text_fits, texts, texts_fit,
    Message, MessageView, Publish, PublishOk, SubgroupHeader, Subscribe, SubscribeOk,
    TrackNamespace, GROUP_ORDER_ASCENDING,
};
use crate::object::{
    decode_object, object_head_bytes, object_head_fits, object_in_bounds, object_roundtrip,
    parse_object, ObjectHead,
};
use crate::publisher::{copy_strings, next_object_head, publish_request, PublisherView};
use crate::subscriber::{subscribe_answer_error, subscribe_request, SubscriberView};
use crate::text::joined;
use crate::text_laws::{joined_ends, joined_is_split, split};
use crate::varint::VarInt;
use crate::wire::{lemma_varint_bytes_len, Parsed};

verus! {

/// An object on its way from a publisher's server to the subscribers'.
#[derive(Debug, Clone)]
pub struct RelayObject {
    pub group_id: u64,
    pub object_id: u64,
    pub subgroup_id: u64,
    pub publisher_priority: u8,
    pub payload: Vec<u8>,
}

/// A relayed object, with its payload as a sequence.
pub struct RelayObjectView {
    pub group_id: u64,
    pub object_id: u64,
    pub subgroup_id: u64,
    pub publisher_priority: u8,
    pub payload: Seq<u8>,
}

impl View for RelayObject {
    type V = RelayObjectView;

    open spec fn view(&self) -> RelayObjectView {
        RelayObjectView {
            group_id: self.group_id,
            object_id: self.object_id,
            subgroup_id: self.subgroup_id,
            publisher_priority: self.publisher_priority,
            payload: self.payload@,
        }
    }
}

/// The channel that the objects of a track are passed on through:
/// `moq:track:{namespace}:{track_name}`, with slashes inside the name space.
pub open spec fn channel_name(namespace: Seq<Seq<char>>, name: Seq<char>) -> Seq<char> {
    "moq:track:"@ + joined(namespace, "/"@) + ":"@ + name
}

/// The channel that the objects of a track are passed on through.
pub fn track_channel_name(namespace: &[String], track_name: &str) -> (s: String)
    ensures
        s@ == channel_name(texts(namespace@), track_name@),
{
    let ghost parts = texts(namespace@);
    let mut s = "moq:track:".to_owned();
    let mut i: usize = 0;
    assert(joined(parts.take(0), "/"@) =~= Seq::empty());
    while i < namespace.len()
        invariant
            i <= namespace.len(),
            parts == texts(namespace@),
            s@ == "moq:track:"@ + joined(parts.take(i as int), "/"@),
        decreases namespace.len() - i,
    {
        proof {
            assert(parts.take(i + 1).drop_last() =~= parts.take(i as int));
            assert(parts.take(i + 1).last() == namespace@[i as int]@);
        }
        if i > 0 {
            s.append("/");
        }
        s.append(namespace[i].as_str());
        assert(s@ =~= "moq:track:"@ + joined(parts.take(i + 1), "/"@));
        i = i + 1;
    }
    assert(parts.take(namespace@.len() as int) =~= parts);
    s.append(":");
    s.append(track_name);
    s
}

/// What a track is known by: its name space and its name.
pub type TrackKey = (TrackNamespace, String);

/// The tracks that a publisher has announced, in the order of announcement,
/// which is how its objects refer to them.
pub struct PublisherTracks {
    tracks: Vec<TrackKey>,
}

impl View for PublisherTracks {
    type V = Seq<(Seq<Seq<char>>, Seq<char>)>;

    closed spec fn view(&self) -> Seq<(Seq<Seq<char>>, Seq<char>)> {
        Seq::new(self.tracks@.len(), |i: int| (texts(self.tracks@[i].0@), self.tracks@[i].1@))
    }
}

/// What becomes of an object that a publisher sent.
pub enum Relay {
    /// It is passed on through the channel.
    Publish { channel: String, object: RelayObject },
    /// Its track is not known, and it is dropped.
    UnknownAlias(u64),
}

/// What becomes of an object that a publisher of these tracks sent: it goes, but
/// for its subscription and its alias, unchanged to the channel of the track
/// that the alias counts to.
pub open spec fn relay_outcome(
    tracks: Seq<(Seq<Seq<char>>, Seq<char>)>,
    head: ObjectHead,
    payload: Seq<u8>,
) -> Option<(Seq<char>, RelayObjectView)> {
    if head.header.track_alias < tracks.len() {
        let (namespace, name) = tracks[head.header.track_alias as int];
        Some(
            (
                channel_name(namespace, name),
                RelayObjectView {
                    group_id: head.header.group_id,
                    object_id: head.object_id,
                    subgroup_id: head.header.subgroup_id,
                    publisher_priority: head.header.publisher_priority,
                    payload,
                },
            ),
        )
    } else {
        None
    }
}

impl PublisherTracks {
    /// The tracks of a publisher that has announced this one.
    pub fn new(p: &Publish) -> (r: Self)
        ensures
            r@ == seq![(texts(p.track_namespace@), p.track_name@)],
    {
        let mut r = PublisherTracks { tracks: Vec::new() };
        r.add(p);
        assert(r@ =~= seq![(texts(p.track_namespace@), p.track_name@)]);
        r
    }

    /// Counts in another track that the publisher has announced.
    pub fn add(&mut self, p: &Publish)
        ensures
            final(self)@ == old(self)@.push((texts(p.track_namespace@), p.track_name@)),
    {
        self.tracks.push((copy_strings(&p.track_namespace), p.track_name.clone()));
        assert(self@ =~= old(self)@.push((texts(p.track_namespace@), p.track_name@)));
    }

    /// What becomes of an object that the publisher sent in a stream of these
    /// bytes.
    pub fn relay(&self, stream: Vec<u8>) -> (r: Result<Relay, CodecError>)
        requires
            object_in_bounds(stream@),
        ensures
            match parse_object(stream@) {
                Err(e) => r == Err::<Relay, CodecError>(e),
                Ok((head, payload)) => match r {
                    Ok(Relay::Publish { channel, object }) => relay_outcome(self@, head, payload)
                        == Some((channel@, object@)),
                    Ok(Relay::UnknownAlias(alias)) => {
                        &&& relay_outcome(self@, head, payload) is None
                        &&& alias == head.header.track_alias
                    },
                    Err(_) => false,
                },
            },
    {
        let (header, object_id, payload) = decode_object(stream)?;
        if header.track_alias >= self.tracks.len() as u64 {
            return Ok(Relay::UnknownAlias(header.track_alias));
        }
        let key = &self.tracks[header.track_alias as usize];
        let channel = track_channel_name(key.0.as_slice(), key.1.as_str());
        Ok(
            Relay::Publish {
                channel,
                object: RelayObject {
                    group_id: header.group_id,
                    object_id,
                    subgroup_id: header.subgroup_id,
                    publisher_priority: header.publisher_priority,
                    payload,
                },
            },
        )
    }
}

/// The answer to the announcement of a track.
pub open spec fn publish_answer(namespace: Seq<Seq<char>>, name: Seq<char>) -> MessageView {
    MessageView::PublishOk { track_namespace: namespace, track_name: name }
}

/// The answer to the announcement of a track: it is accepted.
pub fn publish_reply(p: &Publish) -> (m: Message)
    ensures
        m is PublishOk,
        m@ == publish_answer(texts(p.track_namespace@), p.track_name@),
        m matches Message::PublishOk(ok) && texts(ok.track_namespace@) == texts(p.track_namespace@)
            && ok.track_name@ == p.track_name@,
{
    Message::PublishOk(
        PublishOk {
            track_namespace: copy_strings(&p.track_namespace),
            track_name: p.track_name.clone(),
        },
    )
}

/// The answer to a subscription.
pub open spec fn subscribe_answer(subscribe_id: u64) -> SubscribeOk {
    SubscribeOk {
        subscribe_id,
        expires: 0,
        group_order: GROUP_ORDER_ASCENDING,
        content_exists: false,
    }
}

/// The answer to a subscription: it is accepted, under its own identifier.
pub fn subscribe_reply(s: &Subscribe) -> (m: Message)
    ensures
        m == Message::SubscribeOk(subscribe_answer(s.subscribe_id)),
        m matches Message::SubscribeOk(ok) && {
            &&& ok.subscribe_id == s.subscribe_id
            &&& ok.expires == 0
            &&& ok.group_order == 1
            &&& !ok.content_exists
        },
{
    Message::SubscribeOk(
        SubscribeOk {
            subscribe_id: s.subscribe_id,
            expires: 0,
            group_order: GROUP_ORDER_ASCENDING,
            content_exists: false,
        },
    )
}

/// What to do about a message on the control stream of a publisher.
pub enum PublisherControl {
    /// Send the reply, then count the track in.
    Announced { reply: Message, publish: Publish },
    /// Nothing.
    Ignore,
    /// Stop listening.
    Stop,
}

/// What to do about a message on the control stream of a publisher, or about the
/// stream's failure.
pub fn publisher_control(received: Option<Message>) -> (action: PublisherControl)
    ensures
        match received {
            Some(Message::Publish(p)) => action matches PublisherControl::Announced {
                reply,
                publish,
            } && publish == p && reply@ == publish_answer(texts(p.track_namespace@), p.track_name@),
            Some(_) => action is Ignore,
            None => action is Stop,
        },
{
    match received {
        Some(Message::Publish(p)) => PublisherControl::Announced {
            reply: publish_reply(&p),
            publish: p,
        },
        Some(_) => PublisherControl::Ignore,
        None => PublisherControl::Stop,
    }
}

/// What to do about a message on the control stream of a subscriber.
pub enum SubscriberControl {
    /// Send the reply, then forward the objects of the channel under these
    /// identifiers.
    Forward { reply: Message, subscribe_id: u64, track_alias: u64, channel: String },
    /// Nothing.
    Ignore,
    /// Stop listening.
    Stop,
}

/// What a subscription leads to: an answer, and objects of the track's channel.
pub fn subscription(s: &Subscribe) -> (action: SubscriberControl)
    ensures
        action matches SubscriberControl::Forward { reply, subscribe_id, track_alias, channel } && {
            &&& reply == Message::SubscribeOk(subscribe_answer(s.subscribe_id))
            &&& subscribe_id == s.subscribe_id
            &&& track_alias == s.track_alias
            &&& channel@ == channel_name(texts(s.track_namespace@), s.track_name@)
        },
{
    SubscriberControl::Forward {
        reply: subscribe_reply(s),
        subscribe_id: s.subscribe_id,
        track_alias: s.track_alias,
        channel: track_channel_name(s.track_namespace.as_slice(), s.track_name.as_str()),
    }
}

/// What to do about a message on the control stream of a subscriber, or about the
/// stream's failure.
pub fn subscriber_control(received: Option<Message>) -> (action: SubscriberControl)
    ensures
        match received {
            Some(Message::Subscribe(s)) => action matches SubscriberControl::Forward {
                reply,
                subscribe_id,
                track_alias,
                channel,
            } && {
                &&& reply == Message::SubscribeOk(subscribe_answer(s.subscribe_id))
                &&& subscribe_id == s.subscribe_id
                &&& track_alias == s.track_alias
                &&& channel@ == channel_name(texts(s.track_namespace@), s.track_name@)
            },
            Some(_) => action is Ignore,
            None => action is Stop,
        },
{
    match received {
        Some(Message::Subscribe(s)) => subscription(&s),
        Some(_) => SubscriberControl::Ignore,
        None => SubscriberControl::Stop,
    }
}

/// The head of the stream that a relayed object reaches a subscriber in.
pub open spec fn forward_head(
    subscribe_id: u64,
    track_alias: u64,
    object: RelayObjectView,
) -> ObjectHead {
    ObjectHead {
        header: SubgroupHeader {
            subscribe_id,
            track_alias,
            group_id: object.group_id,
            subgroup_id: object.subgroup_id,
            publisher_priority: object.publisher_priority,
        },
        object_id: object.object_id,
        payload_length: object.payload.len() as u64,
    }
}

/// A relayed object that can be sent to a subscriber.
pub open spec fn forward_fits(
    subscribe_id: u64,
    track_alias: u64,
    object: RelayObjectView,
) -> bool {
    &&& subscribe_id <= VarInt::MAX
    &&& track_alias <= VarInt::MAX
    &&& object.group_id <= VarInt::MAX
    &&& object.subgroup_id <= VarInt::MAX
    &&& object.object_id <= VarInt::MAX
    &&& object.payload.len() <= VarInt::MAX
}

/// Whether a relayed object can be sent to a subscriber.
pub fn can_forward(subscribe_id: u64, track_alias: u64, object: &RelayObject) -> (b: bool)
    ensures
        b == forward_fits(subscribe_id, track_alias, object@),
        b <==> subscribe_id <= 4611686018427387903 && track_alias <= 4611686018427387903
            && object.group_id <= 4611686018427387903 && object.subgroup_id <= 4611686018427387903
            && object.object_id <= 4611686018427387903 && object.payload@.len()
            <= 4611686018427387903,
{
    subscribe_id <= VarInt::MAX && track_alias <= VarInt::MAX && object.group_id <= VarInt::MAX
        && object.subgroup_id <= VarInt::MAX && object.object_id <= VarInt::MAX
        && object.payload.len() as u64 <= VarInt::MAX
}

/// What happens while objects are forwarded to a subscriber.
pub enum ForwardEvent {
    /// A message of the channel came without readable content.
    Unreadable,
    /// A message of the channel holds no object.
    Undecodable,
    /// A message of the channel holds this object.
    Object(RelayObject),
    /// A stream to the subscriber could not be opened or written.
    StreamFailed,
}

/// What to do then.
pub enum ForwardAction {
    /// Wait for the next message of the channel.
    Skip,
    /// Open a stream, write the head and the payload, and end it.
    Send { head: BytesMut, payload: Vec<u8> },
    /// Forward no more.
    Stop,
}

/// What to do about an event while objects are forwarded to a subscriber.
pub fn forward_step(subscribe_id: u64, track_alias: u64, event: ForwardEvent) -> (action:
    ForwardAction)
    requires
        event matches ForwardEvent::Object(object) ==> forward_fits(
            subscribe_id,
            track_alias,
            object@,
        ),
    ensures
        match event {
            ForwardEvent::Unreadable => action is Skip,
            ForwardEvent::Undecodable => action is Skip,
            ForwardEvent::Object(object) => action matches ForwardAction::Send { head, payload }
                && written(head) == object_head_bytes(
                forward_head(subscribe_id, track_alias, object@),
            ) && payload == object.payload && parse_object(written(head) + payload@) == Ok::<
                (ObjectHead, Seq<u8>),
                CodecError,
            >(
                (
                    ObjectHead {
                        header: SubgroupHeader {
                            subscribe_id,
                            track_alias,
                            group_id: object.group_id,
                            subgroup_id: object.subgroup_id,
                            publisher_priority: object.publisher_priority,
                        },
                        object_id: object.object_id,
                        payload_length: object.payload@.len() as u64,
                    },
                    object.payload@,
                ),
            ),
            ForwardEvent::StreamFailed => action is Stop,
        },
{
    match event {
        ForwardEvent::Unreadable => ForwardAction::Skip,
        ForwardEvent::Undecodable => ForwardAction::Skip,
        ForwardEvent::Object(object) => {
            let head = ObjectHead {
                header: SubgroupHeader {
                    subscribe_id,
                    track_alias,
                    group_id: object.group_id,
                    subgroup_id: object.subgroup_id,
                    publisher_priority: object.publisher_priority,
                },
                object_id: object.object_id,
                payload_length: object.payload.len() as u64,
            };
            proof {
                forwarded_object_is_received(subscribe_id, track_alias, object, Seq::empty());
                let b = object_head_bytes(head);
                assert(b + object.payload@ + Seq::<u8>::empty() =~= b + object.payload@);
            }
            ForwardAction::Send { head: head.encode(), payload: object.payload }
        },
        ForwardEvent::StreamFailed => ForwardAction::Stop,
    }
}

/// What is forwarded is received whole: the object that is read from the stream has
/// the payload, the group, the subgroup, the identifier and the priority that were
/// relayed, and the identifier and the alias of the subscription.
pub proof fn forwarded_object_is_received(
    subscribe_id: u64,
    track_alias: u64,
    object: RelayObject,
    extra: Seq<u8>,
)
    requires
        subscribe_id <= 4611686018427387903,
        track_alias <= 4611686018427387903,
        object.group_id <= 4611686018427387903,
        object.subgroup_id <= 4611686018427387903,
        object.object_id <= 4611686018427387903,
        object.payload@.len() <= 4611686018427387903,
    ensures
        forward_fits(subscribe_id, track_alias, object@),
        ({
            let head = forward_head(subscribe_id, track_alias, object@);
            let stream = object_head_bytes(head) + object.payload@ + extra;
            &&& object_in_bounds(stream)
            &&& parse_object(stream) == Ok::<(ObjectHead, Seq<u8>), CodecError>(
                (
                    ObjectHead {
                        header: SubgroupHeader {
                            subscribe_id,
                            track_alias,
                            group_id: object.group_id,
                            subgroup_id: object.subgroup_id,
                            publisher_priority: object.publisher_priority,
                        },
                        object_id: object.object_id,
                        payload_length: object.payload@.len() as u64,
                    },
                    object.payload@,
                ),
            )
        }),
{
    object_roundtrip(
        forward_head(subscribe_id, track_alias, object@),
        object.payload@,
        extra,
    );
}

/// An object is relayed if its alias counts to a track that was announced, and then to
/// the channel of this track and with all that the publisher gave it. Any other is
/// dropped.
pub proof fn objects_are_relayed_unchanged(
    tracks: Seq<(Seq<Seq<char>>, Seq<char>)>,
    head: ObjectHead,
    payload: Seq<u8>,
    object: RelayObject,
    channel: Seq<char>,
)
    ensures
        relay_outcome(tracks, head, payload) is None <==> head.header.track_alias >= tracks.len(),
        relay_outcome(tracks, head, payload) == Some((channel, object@)) ==> {
            let (namespace, name) = tracks[head.header.track_alias as int];
            &&& channel == channel_name(namespace, name)
            &&& object.group_id == head.header.group_id
            &&& object.subgroup_id == head.header.subgroup_id
            &&& object.publisher_priority == head.header.publisher_priority
            &&& object.object_id == head.object_id
            &&& object.payload@ == payload
        },
{
}

/// The answers to a subscription and to an announcement: the one carries the
/// identifier of the subscription and never expires, the other names the track.
pub proof fn answers_fit_their_requests(
    subscribe_id: u64,
    ok: PublishOk,
    namespace: Seq<Seq<char>>,
    name: Seq<char>,
)
    ensures
        ({
            let answer = subscribe_answer(subscribe_id);
            &&& answer.subscribe_id == subscribe_id
            &&& answer.expires == 0
            &&& answer.group_order == 1
            &&& !answer.content_exists
        }),
        Message::PublishOk(ok)@ == publish_answer(namespace, name) ==> texts(ok.track_namespace@)
            == namespace && ok.track_name@ == name,
{
}

/// A channel is named `moq:track:`, the parts of the name space with slashes between
/// them, a colon, and the name of the track, whole.
pub proof fn channel_layout(namespace: Seq<Seq<char>>, name: Seq<char>)
    ensures
        ({
            let s = channel_name(namespace, name);
            let middle = s.subrange(10, s.len() - name.len() - 1);
            &&& s.len() >= 11 + name.len()
            &&& s.take(10) == "moq:track:"@
            &&& s[s.len() - name.len() - 1] == ':'
            &&& s.skip(s.len() - name.len()) == name
            &&& namespace.len() == 0 ==> middle.len() == 0
            &&& namespace.len() > 0 ==> middle.len() == namespace.flatten().len()
                + namespace.len() - 1
            &&& namespace.len() > 0 && all_lack(namespace, '/') ==> split(middle, '/') == namespace
        }),
{
    reveal_strlit("moq:track:");
    reveal_strlit("/");
    reveal_strlit(":");
    assert("/"@ =~= seq!['/']);
    let s = channel_name(namespace, name);
    let list = joined(namespace, "/"@);
    assert(s.take(10) =~= "moq:track:"@);
    assert(s.skip(s.len() - name.len()) =~= name);
    assert(s.subrange(10, s.len() - name.len() - 1) =~= list);
    if namespace.len() > 0 {
        joined_ends(namespace, "/"@);
        if all_lack(namespace, '/') {
            joined_is_split(namespace, '/');
        }
    }
}

/// From the publisher to the subscriber: an object of a track that was announced
/// arrives at whoever subscribed to this track, in the stream of the subscription, with
/// the group, the identifier and the payload that the publisher sent.
pub proof fn published_object_arrives(
    tracks: Seq<(Seq<Seq<char>>, Seq<char>)>,
    p: PublisherView,
    payload: Seq<u8>,
    s: Subscribe,
    v: SubscriberView,
    object: RelayObject,
    channel: Seq<char>,
)
    requires
        p.track_alias < tracks.len() && p.track_alias <= 4611686018427387903,
        p.group_id <= 4611686018427387903,
        p.object_id <= 4611686018427387903,
        payload.len() <= 4611686018427387903,
        tracks[p.track_alias as int] == (v.track_namespace, v.track_name),
        Message::Subscribe(s)@ == subscribe_request(v),
        v.subscribe_id <= 4611686018427387903,
        v.track_alias <= 4611686018427387903,
        relay_outcome(tracks, next_object_head(p, payload.len()), payload) == Some(
            (channel, object@),
        ),
    ensures
        channel == channel_name(texts(s.track_namespace@), s.track_name@),
        ({
            let head = forward_head(s.subscribe_id, s.track_alias, object@);
            &&& parse_object(object_head_bytes(head) + object.payload@) matches Ok((got, body)) && {
                &&& body == payload
                &&& got.header.subscribe_id == v.subscribe_id
                &&& got.header.track_alias == v.track_alias
                &&& got.header.group_id == p.group_id
                &&& got.object_id == p.object_id
            }
        }),
{
    let nil = Seq::<u8>::empty();
    let head = forward_head(s.subscribe_id, s.track_alias, object@);
    forwarded_object_is_received(s.subscribe_id, s.track_alias, object, nil);
    assert(object_head_bytes(head) + object.payload@ + nil =~= object_head_bytes(head)
        + object.payload@);
}

/// An object reaches a subscriber with the payload, the group, the subgroup, the
/// identifier and the priority that its publisher sent it with, and with the
/// subscription and the alias that are the subscriber's own. What the publisher
/// sent behind the payload is left out.
pub proof fn object_reaches_subscriber(
    tracks: Seq<(Seq<Seq<char>>, Seq<char>)>,
    head: ObjectHead,
    payload: Seq<u8>,
    extra: Seq<u8>,
    subscribe_id: u64,
    track_alias: u64,
)
    requires
        object_head_fits(head),
        head.payload_length == payload.len(),
        head.header.track_alias < tracks.len(),
        subscribe_id <= VarInt::MAX,
        track_alias <= VarInt::MAX,
    ensures
        parse_object(object_head_bytes(head) + payload + extra) == Ok::<
            (ObjectHead, Seq<u8>),
            CodecError,
        >((head, payload)),
        relay_outcome(tracks, head, payload) matches Some((channel, object)) && {
            let sent = forward_head(subscribe_id, track_alias, object);
            &&& channel == channel_name(
                tracks[head.header.track_alias as int].0,
                tracks[head.header.track_alias as int].1,
            )
            &&& forward_fits(subscribe_id, track_alias, object)
            &&& sent == (ObjectHead {
                header: SubgroupHeader { subscribe_id, track_alias, ..head.header },
                ..head
            })
            &&& parse_object(object_head_bytes(sent) + object.payload) == Ok::<
                (ObjectHead, Seq<u8>),
                CodecError,
            >((sent, payload))
        },
{
    object_roundtrip(head, payload, extra);
    let sent = ObjectHead {
        header: SubgroupHeader { subscribe_id, track_alias, ..head.header },
        ..head
    };
    object_roundtrip(sent, payload, Seq::empty());
    assert(object_head_bytes(sent) + payload + Seq::<u8>::empty() =~= object_head_bytes(sent)
        + payload);
}

/// A text without this character.
pub open spec fn lacks(text: Seq<char>, c: char) -> bool {
    forall|i: int| 0 <= i < text.len() ==> text[i] != c
}

/// Texts without this character.
pub open spec fn all_lack(parts: Seq<Seq<char>>, c: char) -> bool {
    forall|i: int| 0 <= i < parts.len() ==> lacks(#[trigger] parts[i], c)
}

/// A text is cut in only one way at a character that it holds nowhere before.
pub(crate) proof fn lemma_cut_first(a: Seq<char>, x: Seq<char>, b: Seq<char>, y: Seq<char>, c: char)
    requires
        a + seq![c] + x == b + seq![c] + y,
        lacks(a, c),
        lacks(b, c),
    ensures
        a == b,
        x == y,
{
    let s = a + seq![c] + x;
    assert(s[a.len() as int] == c);
    assert(s[b.len() as int] == c);
    if a.len() < b.len() {
        assert(s[a.len() as int] == b[a.len() as int]);
    } else if b.len() < a.len() {
        assert(s[b.len() as int] == a[b.len() as int]);
    }
    assert(a =~= s.take(a.len() as int));
    assert(b =~= s.take(a.len() as int));
    assert(x =~= s.skip(a.len() as int + 1));
    assert(y =~= s.skip(a.len() as int + 1));
}

/// A text is cut in only one way at a character that it holds nowhere after.
pub(crate) proof fn lemma_cut_last(a: Seq<char>, x: Seq<char>, b: Seq<char>, y: Seq<char>, c: char)
    requires
        a + seq![c] + x == b + seq![c] + y,
        lacks(x, c),
        lacks(y, c),
    ensures
        a == b,
        x == y,
{
    let s = a + seq![c] + x;
    assert(s[a.len() as int] == c);
    assert(s[b.len() as int] == c);
    assert(s.len() == a.len() + 1 + x.len());
    assert(s.len() == b.len() + 1 + y.len());
    if a.len() < b.len() {
        assert(s[b.len() as int] == x[b.len() as int - (a + seq![c]).len()]);
    } else if b.len() < a.len() {
        assert(s[a.len() as int] == y[a.len() as int - (b + seq![c]).len()]);
    }
    assert(a =~= s.take(a.len() as int));
    assert(b =~= s.take(a.len() as int));
    assert(x =~= s.skip(a.len() as int + 1));
    assert(y =~= s.skip(a.len() as int + 1));
}

/// What is joined lacks what its parts and the separator lack.
pub(crate) proof fn lemma_joined_lacks(parts: Seq<Seq<char>>, separator: Seq<char>, c: char)
    requires
        all_lack(parts, c),
        lacks(separator, c),
    ensures
        lacks(joined(parts, separator), c),
    decreases parts.len(),
{
    if parts.len() == 1 {
        assert(lacks(parts[0], c));
    } else if parts.len() > 1 {
        assert forall|i: int| 0 <= i < parts.drop_last().len() implies lacks(
            #[trigger] parts.drop_last()[i],
            c,
        ) by {
            assert(lacks(parts[i], c));
        }
        lemma_joined_lacks(parts.drop_last(), separator, c);
        assert(lacks(parts[parts.len() - 1], c));
    }
}

/// Parts that lack the separator can be told from what is joined.
pub(crate) proof fn lemma_joined_injective(a: Seq<Seq<char>>, b: Seq<Seq<char>>, c: char)
    requires
        all_lack(a, c),
        all_lack(b, c),
        a.len() == 0 <==> b.len() == 0,
        joined(a, seq![c]) == joined(b, seq![c]),
    ensures
        a == b,
    decreases a.len(),
{
    if a.len() == 0 {
        assert(a =~= b);
    } else {
        let whole = joined(a, seq![c]);
        assert(lacks(a[a.len() - 1], c));
        assert(lacks(b[b.len() - 1], c));
        if a.len() == 1 && b.len() > 1 {
            assert(whole[joined(b.drop_last(), seq![c]).len() as int] == c);
        } else if a.len() > 1 && b.len() == 1 {
            assert(whole[joined(a.drop_last(), seq![c]).len() as int] == c);
        } else if a.len() > 1 {
            let a1 = a.drop_last();
            let b1 = b.drop_last();
            lemma_cut_last(joined(a1, seq![c]), a.last(), joined(b1, seq![c]), b.last(), c);
            assert forall|i: int| 0 <= i < a1.len() implies lacks(#[trigger] a1[i], c) by {
                assert(lacks(a[i], c));
            }
            assert forall|i: int| 0 <= i < b1.len() implies lacks(#[trigger] b1[i], c) by {
                assert(lacks(b[i], c));
            }
            lemma_joined_injective(a1, b1, c);
            assert(a =~= a1.push(a.last()));
            assert(b =~= b1.push(b.last()));
        } else {
            assert(a =~= b);
        }
    }
}

/// Different tracks have different channels, as long as no part of their name
/// spaces has a slash in it, a colon is either in none of their name spaces or in
/// none of their names, and an empty name space is not held against one that has
/// a part.
pub proof fn tracks_have_own_channels(
    namespace1: Seq<Seq<char>>,
    name1: Seq<char>,
    namespace2: Seq<Seq<char>>,
    name2: Seq<char>,
)
    requires
        all_lack(namespace1, '/'),
        all_lack(namespace2, '/'),
        (all_lack(namespace1, ':') && all_lack(namespace2, ':')) || (lacks(name1, ':') && lacks(
            name2,
            ':',
        )),
        namespace1.len() == 0 <==> namespace2.len() == 0,
        channel_name(namespace1, name1) == channel_name(namespace2, name2),
    ensures
        namespace1 == namespace2,
        name1 == name2,
{
    reveal_strlit("/");
    reveal_strlit(":");
    assert("/"@ =~= seq!['/']);
    assert(":"@ =~= seq![':']);
    let start = "moq:track:"@;
    let j1 = joined(namespace1, "/"@);
    let j2 = joined(namespace2, "/"@);
    let s1 = j1 + seq![':'] + name1;
    let s2 = j2 + seq![':'] + name2;
    assert(channel_name(namespace1, name1) =~= start + s1);
    assert(channel_name(namespace2, name2) =~= start + s2);
    assert(s1 =~= (start + s1).skip(start.len() as int));
    assert(s2 =~= (start + s2).skip(start.len() as int));
    if all_lack(namespace1, ':') && all_lack(namespace2, ':') {
        lemma_joined_lacks(namespace1, "/"@, ':');
        lemma_joined_lacks(namespace2, "/"@, ':');
        lemma_cut_first(j1, name1, j2, name2, ':');
    } else {
        lemma_cut_last(j1, name1, j2, name2, ':');
    }
    lemma_joined_injective(namespace1, namespace2, '/');
}

/// The tracks of a publisher get their aliases in the order of announcement: the
/// first that counts to none of the earlier ones is that of the next.
pub proof fn aliases_are_counted(
    tracks: Seq<(Seq<Seq<char>>, Seq<char>)>,
    namespace: Seq<Seq<char>>,
    name: Seq<char>,
    head: ObjectHead,
    payload: Seq<u8>,
)
    requires
        head.header.track_alias == tracks.len(),
    ensures
        relay_outcome(tracks, head, payload) is None,
        relay_outcome(tracks.push((namespace, name)), head, payload) matches Some(
            (channel, object),
        ) && channel == channel_name(namespace, name) && object.payload == payload,
{
}

/// An alias keeps its meaning when further tracks are announced.
pub proof fn aliases_are_stable(
    tracks: Seq<(Seq<Seq<char>>, Seq<char>)>,
    more: Seq<(Seq<Seq<char>>, Seq<char>)>,
    head: ObjectHead,
    payload: Seq<u8>,
)
    requires
        head.header.track_alias < tracks.len(),
    ensures
        relay_outcome(tracks + more, head, payload) == relay_outcome(tracks, head, payload),
{
}

/// The announcement of a track and the answer to it are both understood: what is
/// read is what was sent, whatever follows on the stream.
pub proof fn announcement_is_confirmed(namespace: Seq<Seq<char>>, name: Seq<char>, rest: Seq<u8>)
    requires
        texts_fit(namespace),
        text_fits(name),
        payload_bytes(publish_request(namespace, name)).len() <= 0xffff,
    ensures
        parse_message(message_bytes(publish_request(namespace, name)) + rest) == (Parsed {
            outcome: Ok::<MessageView, CodecError>(publish_request(namespace, name)),
            rest,
        }),
        parse_message(message_bytes(publish_answer(namespace, name)) + rest) == (Parsed {
            outcome: Ok::<MessageView, CodecError>(publish_answer(namespace, name)),
            rest,
        }),
{
    message_roundtrip(publish_request(namespace, name), rest);
    message_roundtrip(publish_answer(namespace, name), rest);
}

/// A subscription and the answer to it are both understood, and the answer is the
/// one that the subscriber waits for.
pub proof fn subscription_is_confirmed(s: SubscriberView, rest: Seq<u8>)
    requires
        message_fits(subscribe_request(s)),
        payload_bytes(subscribe_request(s)).len() <= 0xffff,
    ensures
        parse_message(message_bytes(subscribe_request(s)) + rest) == (Parsed {
            outcome: Ok::<MessageView, CodecError>(subscribe_request(s)),
            rest,
        }),
        ({
            let answer = Message::SubscribeOk(subscribe_answer(s.subscribe_id));
            &&& parse_message(message_bytes(answer@) + rest) == (Parsed {
                outcome: Ok::<MessageView, CodecError>(answer@),
                rest,
            })
            &&& subscribe_answer_error(s.subscribe_id, answer) is None
        }),
{
    broadcast use lemma_varint_bytes_len;

    message_roundtrip(subscribe_request(s), rest);
    message_roundtrip(Message::SubscribeOk(subscribe_answer(s.subscribe_id))@, rest);
}

} // verus!
