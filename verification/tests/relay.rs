use moq::error::CodecError;
use moq::message::{GoAway, Message, Publish, Subscribe, GROUP_ORDER_ASCENDING};
use moq::object::decode_object;
use moq::relay::{
    can_forward, forward_step, publish_reply, publisher_control, subscribe_reply,
    subscriber_control, subscription, track_channel_name, ForwardAction, ForwardEvent,
    PublisherControl, PublisherTracks, Relay, RelayObject, SubscriberControl,
};

fn publish(name: &str) -> Publish {
    Publish {
        track_namespace: vec!["live".into()],
        track_name: name.into(),
        subscriber_priority: 0,
        group_order: GROUP_ORDER_ASCENDING,
    }
}

fn subscribe(name: &str) -> Subscribe {
    Subscribe {
        subscribe_id: 11,
        track_alias: 12,
        track_namespace: vec!["live".into()],
        track_name: name.into(),
        subscriber_priority: 0,
        group_order: GROUP_ORDER_ASCENDING,
        filter_type: 1,
    }
}

fn object() -> RelayObject {
    RelayObject {
        group_id: 3,
        object_id: 6,
        subgroup_id: 4,
        publisher_priority: 5,
        payload: b"ok".to_vec(),
    }
}

#[test]
fn channel_names() {
    assert_eq!(track_channel_name(&["live".to_string()], "video"), "moq:track:live:video");
    assert_eq!(track_channel_name(&["live".to_string()], "audio"), "moq:track:live:audio");
    assert_eq!(
        track_channel_name(&["conference".to_string(), "room1".to_string()], "video"),
        "moq:track:conference/room1:video"
    );
    assert_eq!(track_channel_name(&[], "video"), "moq:track::video");
    assert_eq!(
        track_channel_name(&["".to_string(), "".to_string(), "".to_string()], ""),
        "moq:track://:"
    );
}

#[test]
fn different_tracks_have_different_channels() {
    let a = track_channel_name(&["a".to_string(), "b".to_string()], "c:d");
    let b = track_channel_name(&["a".to_string()], "b:c:d");
    let c = track_channel_name(&["a".to_string(), "bc".to_string()], ":d");
    assert_ne!(a, b);
    assert_ne!(a, c);
    assert_ne!(b, c);
}

#[test]
fn slashes_and_colons_can_make_channels_meet() {
    assert_eq!(
        track_channel_name(&["a/b".to_string()], "c"),
        track_channel_name(&["a".to_string(), "b".to_string()], "c")
    );
    assert_eq!(
        track_channel_name(&["a:b".to_string()], "c"),
        track_channel_name(&["a".to_string()], "b:c")
    );
    assert_eq!(track_channel_name(&[], "c"), track_channel_name(&["".to_string()], "c"));
}

#[test]
fn objects_go_to_the_channel_of_their_alias() {
    let mut tracks = PublisherTracks::new(&publish("video"));
    let to_video = vec![1, 0, 3, 4, 5, 6, 2, b'o', b'k'];
    let to_audio = vec![1, 1, 3, 4, 5, 6, 2, b'o', b'k'];
    match tracks.relay(to_video.clone()) {
        Ok(Relay::Publish { channel, object }) => {
            assert_eq!(channel, "moq:track:live:video");
            assert_eq!(object.group_id, 3);
            assert_eq!(object.subgroup_id, 4);
            assert_eq!(object.publisher_priority, 5);
            assert_eq!(object.object_id, 6);
            assert_eq!(object.payload, b"ok".to_vec());
        }
        _ => panic!("not relayed"),
    }
    assert!(matches!(tracks.relay(to_audio.clone()), Ok(Relay::UnknownAlias(1))));
    tracks.add(&publish("audio"));
    match tracks.relay(to_video) {
        Ok(Relay::Publish { channel, object: _ }) => assert_eq!(channel, "moq:track:live:video"),
        _ => panic!("not relayed"),
    }
    match tracks.relay(to_audio) {
        Ok(Relay::Publish { channel, object: _ }) => assert_eq!(channel, "moq:track:live:audio"),
        _ => panic!("not relayed"),
    }
}

#[test]
fn an_unreadable_object_is_not_relayed() {
    let tracks = PublisherTracks::new(&publish("video"));
    assert!(matches!(tracks.relay(vec![1, 0, 3]), Err(CodecError::VarIntMissing)));
}

#[test]
fn the_largest_alias_is_unknown() {
    let tracks = PublisherTracks::new(&publish("video"));
    let stream = vec![1, 0xff, 0xff, 0xff, 0xff, 0xff, 0xff, 0xff, 0xff, 3, 4, 5, 6, 0];
    assert!(matches!(tracks.relay(stream), Ok(Relay::UnknownAlias(0x3fff_ffff_ffff_ffff))));
}

#[test]
fn announcements_are_accepted() {
    match publish_reply(&publish("video")) {
        Message::PublishOk(ok) => {
            assert_eq!(ok.track_namespace, vec!["live".to_string()]);
            assert_eq!(ok.track_name, "video");
        }
        _ => panic!("wrong message type"),
    }
}

#[test]
fn subscriptions_are_accepted_under_their_identifier() {
    match subscribe_reply(&subscribe("video")) {
        Message::SubscribeOk(ok) => {
            assert_eq!(ok.subscribe_id, 11);
            assert_eq!(ok.expires, 0);
            assert_eq!(ok.group_order, GROUP_ORDER_ASCENDING);
            assert!(!ok.content_exists);
        }
        _ => panic!("wrong message type"),
    }
}

#[test]
fn publisher_control_stream() {
    match publisher_control(Some(Message::Publish(publish("audio")))) {
        PublisherControl::Announced { reply: Message::PublishOk(ok), publish } => {
            assert_eq!(ok.track_name, "audio");
            assert_eq!(publish.track_name, "audio");
        }
        _ => panic!("wrong action"),
    }
    let goaway = Message::GoAway(GoAway { new_session_uri: "".into() });
    assert!(matches!(publisher_control(Some(goaway)), PublisherControl::Ignore));
    let other = Message::Subscribe(subscribe("video"));
    assert!(matches!(publisher_control(Some(other)), PublisherControl::Ignore));
    assert!(matches!(publisher_control(None), PublisherControl::Stop));
}

#[test]
fn subscriber_control_stream() {
    match subscriber_control(Some(Message::Subscribe(subscribe("audio")))) {
        SubscriberControl::Forward { reply, subscribe_id, track_alias, channel } => {
            assert!(matches!(reply, Message::SubscribeOk(_)));
            assert_eq!(subscribe_id, 11);
            assert_eq!(track_alias, 12);
            assert_eq!(channel, "moq:track:live:audio");
        }
        _ => panic!("wrong action"),
    }
    let goaway = Message::GoAway(GoAway { new_session_uri: "".into() });
    assert!(matches!(subscriber_control(Some(goaway)), SubscriberControl::Ignore));
    assert!(matches!(subscriber_control(None), SubscriberControl::Stop));
    match subscription(&subscribe("video")) {
        SubscriberControl::Forward { channel, .. } => {
            assert_eq!(channel, "moq:track:live:video");
        }
        _ => panic!("wrong action"),
    }
}

#[test]
fn objects_are_forwarded_under_the_subscribers_identifiers() {
    assert!(can_forward(11, 300, &object()));
    match forward_step(11, 300, ForwardEvent::Object(object())) {
        ForwardAction::Send { head, payload } => {
            assert_eq!(head.to_vec(), vec![11, 0x41, 0x2c, 3, 4, 5, 6, 2]);
            assert_eq!(payload, b"ok".to_vec());
        }
        _ => panic!("wrong action"),
    }
}

#[test]
fn wide_numbers_cannot_be_forwarded() {
    assert!(can_forward((1 << 62) - 1, 0, &object()));
    assert!(!can_forward(1 << 62, 0, &object()));
    assert!(!can_forward(0, 1 << 62, &object()));
    assert!(!can_forward(0, 0, &RelayObject { group_id: 1 << 62, ..object() }));
    assert!(!can_forward(0, 0, &RelayObject { subgroup_id: 1 << 62, ..object() }));
    assert!(!can_forward(0, 0, &RelayObject { object_id: u64::MAX, ..object() }));
}

#[test]
fn forwarding_skips_and_stops() {
    assert!(matches!(forward_step(1, 2, ForwardEvent::Unreadable), ForwardAction::Skip));
    assert!(matches!(forward_step(1, 2, ForwardEvent::Undecodable), ForwardAction::Skip));
    assert!(matches!(forward_step(1, 2, ForwardEvent::StreamFailed), ForwardAction::Stop));
}

#[test]
fn an_object_reaches_the_subscriber_unchanged() {
    let tracks = PublisherTracks::new(&publish("video"));
    let sent = vec![0, 0, 0x41, 0x2c, 0, 9, 1, 3, b'a', b'b', b'c'];
    let object = match tracks.relay(sent) {
        Ok(Relay::Publish { channel: _, object }) => object,
        _ => panic!("not relayed"),
    };
    let mut stream = match forward_step(11, 12, ForwardEvent::Object(object)) {
        ForwardAction::Send { head, payload } => {
            let mut stream = head.to_vec();
            stream.extend_from_slice(&payload);
            stream
        }
        _ => panic!("not forwarded"),
    };
    stream.push(0);
    let (header, object_id, payload) = decode_object(stream).unwrap();
    assert_eq!((header.subscribe_id, header.track_alias), (11, 12));
    assert_eq!((header.group_id, header.subgroup_id), (300, 0));
    assert_eq!(header.publisher_priority, 9);
    assert_eq!(object_id, 1);
    assert_eq!(payload, b"abc".to_vec());
}

#[test]
fn what_was_read_can_be_answered_and_forwarded() {
    let tracks = PublisherTracks::new(&publish("video"));
    let wide = vec![0xff; 8];
    let mut stream = vec![0, 0];
    stream.extend_from_slice(&wide);
    stream.extend_from_slice(&wide);
    stream.push(255);
    stream.extend_from_slice(&wide);
    stream.push(0);
    match tracks.relay(stream) {
        Ok(Relay::Publish { channel: _, object }) => {
            assert_eq!(object.group_id, 0x3fff_ffff_ffff_ffff);
            assert!(can_forward(0x3fff_ffff_ffff_ffff, 0, &object));
        }
        _ => panic!("not relayed"),
    }
    let widest = Subscribe { subscribe_id: 0x3fff_ffff_ffff_ffff, ..subscribe("video") };
    assert!(subscribe_reply(&widest).can_encode());
    assert!(publish_reply(&publish("video")).can_encode());
}
