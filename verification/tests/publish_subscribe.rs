use bytes::Bytes;
use moq::error::CodecError;
use moq::message::{
    Message, PublishOk, SubgroupHeader, SubscribeOk, FILTER_NEXT_GROUP, GROUP_ORDER_ASCENDING,
};
use moq::object::{decode_object, payload_complete, ObjectHead};
use moq::publisher::Publisher;
use moq::session::{Expected, SessionError};
use moq::subscriber::Subscriber;

fn publisher(track_alias: u64) -> Publisher {
    let ok = Message::PublishOk(PublishOk {
        track_namespace: vec!["live".into()],
        track_name: "video".into(),
    });
    match Publisher::new(vec!["live".into()], "video".into(), track_alias, ok) {
        Ok(p) => p,
        Err(e) => panic!("{:?}", e),
    }
}

fn subscribe_ok(subscribe_id: u64) -> Message {
    Message::SubscribeOk(SubscribeOk {
        subscribe_id,
        expires: 0,
        group_order: GROUP_ORDER_ASCENDING,
        content_exists: false,
    })
}

fn subscriber() -> Subscriber {
    match Subscriber::new(vec!["live".into()], "video".into(), 4, 5, subscribe_ok(4)) {
        Ok(s) => s,
        Err(e) => panic!("{:?}", e),
    }
}

#[test]
fn publisher_announces_its_track() {
    match Publisher::request(&vec!["live".to_string()], &"video".to_string()) {
        Message::Publish(p) => {
            assert_eq!(p.track_namespace, vec!["live".to_string()]);
            assert_eq!(p.track_name, "video");
            assert_eq!(p.subscriber_priority, 0);
            assert_eq!(p.group_order, GROUP_ORDER_ASCENDING);
        }
        _ => panic!("wrong message type"),
    }
}

#[test]
fn publisher_needs_a_publish_ok() {
    match Publisher::new(vec!["live".into()], "video".into(), 0, subscribe_ok(1)) {
        Err(SessionError::UnexpectedMessage { expected, got }) => {
            assert_eq!(expected, Expected::PublishOk);
            assert!(matches!(got, Message::SubscribeOk(_)));
        }
        _ => panic!("accepted"),
    }
}

#[test]
fn any_publish_ok_will_do() {
    let ok = Message::PublishOk(PublishOk { track_namespace: vec![], track_name: "x".into() });
    assert!(Publisher::new(vec!["live".into()], "video".into(), 0, ok).is_ok());
}

#[test]
fn objects_are_counted_inside_their_group() {
    let mut p = publisher(300);
    assert_eq!(p.track_alias(), 300);
    assert_eq!((p.group_id(), p.object_id()), (0, 0));
    assert_eq!(p.send_object(b"abc").to_vec(), vec![0, 0x41, 0x2c, 0, 0, 0, 0, 3]);
    assert_eq!((p.group_id(), p.object_id()), (0, 0));
    p.object_sent();
    assert_eq!((p.group_id(), p.object_id()), (0, 1));
    assert_eq!(p.send_object(b"").to_vec(), vec![0, 0x41, 0x2c, 0, 0, 0, 1, 0]);
    p.object_sent();
    p.next_group();
    assert_eq!((p.group_id(), p.object_id()), (1, 0));
    assert_eq!(p.send_object(&[0; 64]).to_vec(), vec![0, 0x41, 0x2c, 1, 0, 0, 0, 0x40, 64]);
    p.next_group();
    assert_eq!((p.group_id(), p.object_id()), (2, 0));
}

#[test]
fn identifiers_only_grow() {
    let mut p = publisher(0);
    let mut last = (p.group_id(), p.object_id());
    for i in 0..100 {
        if i % 7 == 0 {
            p.next_group();
        } else {
            p.object_sent();
        }
        assert!((p.group_id(), p.object_id()) > last);
        last = (p.group_id(), p.object_id());
    }
}

#[test]
fn numbers_have_no_gaps() {
    let mut p = publisher(0);
    for group in 0..4 {
        for object in 0..5 {
            assert_eq!((p.group_id(), p.object_id()), (group, object));
            p.object_sent();
        }
        p.next_group();
    }
    p.next_group();
    assert_eq!((p.group_id(), p.object_id()), (5, 0));
}

#[test]
fn subscriber_asks_for_its_track() {
    match Subscriber::request(&vec!["live".to_string()], &"video".to_string(), 4, 5) {
        Message::Subscribe(s) => {
            assert_eq!(s.subscribe_id, 4);
            assert_eq!(s.track_alias, 5);
            assert_eq!(s.track_namespace, vec!["live".to_string()]);
            assert_eq!(s.track_name, "video");
            assert_eq!(s.subscriber_priority, 0);
            assert_eq!(s.group_order, GROUP_ORDER_ASCENDING);
            assert_eq!(s.filter_type, FILTER_NEXT_GROUP);
        }
        _ => panic!("wrong message type"),
    }
}

#[test]
fn subscriber_needs_its_own_confirmation() {
    match Subscriber::new(vec!["live".into()], "video".into(), 4, 5, subscribe_ok(3)) {
        Err(SessionError::SubscribeIdMismatch { expected, got }) => {
            assert_eq!((expected, got), (4, 3));
        }
        _ => panic!("accepted"),
    }
    let request = Publisher::request(&vec![], &"".to_string());
    match Subscriber::new(vec!["live".into()], "video".into(), 4, 5, request) {
        Err(SessionError::UnexpectedMessage { expected, got }) => {
            assert_eq!(expected, Expected::SubscribeOk);
            assert!(matches!(got, Message::Publish(_)));
        }
        _ => panic!("accepted"),
    }
}

#[test]
fn subscriber_receives_what_a_publisher_sends() {
    let mut p = publisher(2);
    p.next_group();
    p.object_sent();
    let mut stream = p.send_object(b"hello").to_vec();
    stream.extend_from_slice(b"hello");
    assert!(payload_complete(&stream));
    let (header, object_id, payload) = subscriber().recv_object(stream).unwrap();
    assert_eq!(header.subscribe_id, 0);
    assert_eq!(header.track_alias, 2);
    assert_eq!(header.group_id, 1);
    assert_eq!(header.subgroup_id, 0);
    assert_eq!(header.publisher_priority, 0);
    assert_eq!(object_id, 1);
    assert_eq!(payload, b"hello".to_vec());
}

#[test]
fn subscriber_ends_its_subscription() {
    match subscriber().unsubscribe() {
        Message::Unsubscribe(u) => assert_eq!(u.subscribe_id, 4),
        _ => panic!("wrong message type"),
    }
}

#[test]
fn object_heads_are_read_back() {
    let head = ObjectHead {
        header: SubgroupHeader {
            subscribe_id: 1,
            track_alias: 2,
            group_id: 3,
            subgroup_id: 4,
            publisher_priority: 5,
        },
        object_id: 6,
        payload_length: 70,
    };
    let encoded = head.encode();
    assert_eq!(encoded.to_vec(), vec![1, 2, 3, 4, 5, 6, 0x40, 70]);
    let mut buf: Bytes = encoded.freeze();
    let back = ObjectHead::decode(&mut buf).unwrap();
    assert_eq!(back.header.publisher_priority, 5);
    assert_eq!(back.object_id, 6);
    assert_eq!(back.payload_length, 70);
    assert!(buf.is_empty());
}

#[test]
fn bytes_behind_the_payload_are_ignored() {
    let stream = vec![1, 2, 3, 4, 5, 6, 2, b'o', b'k', b'!', b'!'];
    assert!(payload_complete(&stream));
    let (header, object_id, payload) = decode_object(stream).unwrap();
    assert_eq!((header.subscribe_id, header.track_alias), (1, 2));
    assert_eq!((header.group_id, header.subgroup_id), (3, 4));
    assert_eq!(object_id, 6);
    assert_eq!(payload, b"ok".to_vec());
}

#[test]
fn a_missing_payload_is_noticed() {
    assert!(!payload_complete(&vec![1, 2, 3, 4, 5, 6, 3, b'o', b'k']));
    assert!(payload_complete(&vec![1, 2, 3, 4, 5, 6, 0]));
}

#[test]
fn an_unreadable_head_is_an_error() {
    assert!(payload_complete(&vec![1, 2, 3]));
    assert!(matches!(decode_object(vec![1, 2, 3]), Err(CodecError::VarIntMissing)));
    assert!(matches!(
        decode_object(vec![1, 2, 3, 4]),
        Err(CodecError::PublisherPriorityMissing)
    ));
    assert!(matches!(
        decode_object(vec![1, 2, 3, 4, 5, 0x40]),
        Err(CodecError::VarIntTruncated(2))
    ));
    assert!(matches!(
        subscriber().recv_object(vec![]),
        Err(CodecError::VarIntMissing)
    ));
}
