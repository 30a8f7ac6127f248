use bytes::{Bytes, BytesMut};
use moq::error::CodecError;
use moq::message::{
    decode_setup_params, decode_string, decode_tuple, encode_setup_params, encode_string,
    encode_tuple, ClientSetup, GoAway, Message, Publish, PublishOk, RequestError, ServerSetup,
    SetupParameter, SubgroupHeader, Subscribe, SubscribeDone, SubscribeOk, Unsubscribe,
    FILTER_NEXT_GROUP, GROUP_ORDER_ASCENDING,
};

fn decode_error(bytes: Vec<u8>) -> CodecError {
    match Message::decode(&mut Bytes::from(bytes)) {
        Ok(m) => panic!("read {:?}", m),
        Err(e) => e,
    }
}

fn one_of_each() -> Vec<Message> {
    vec![
        Message::ClientSetup(ClientSetup {
            params: vec![
                SetupParameter::Role(3),
                SetupParameter::Path("/moq".into()),
                SetupParameter::MaxSubscribeId(1000),
            ],
        }),
        Message::ServerSetup(ServerSetup { params: vec![SetupParameter::MaxSubscribeId(70)] }),
        Message::Subscribe(Subscribe {
            subscribe_id: 1,
            track_alias: 300,
            track_namespace: vec!["conference".into(), "room1".into()],
            track_name: "audio".into(),
            subscriber_priority: 7,
            group_order: GROUP_ORDER_ASCENDING,
            filter_type: FILTER_NEXT_GROUP,
        }),
        Message::SubscribeOk(SubscribeOk {
            subscribe_id: 1,
            expires: 60,
            group_order: GROUP_ORDER_ASCENDING,
            content_exists: true,
        }),
        Message::RequestError(RequestError {
            subscribe_id: 1,
            error_code: 404,
            reason_phrase: "見つからない".into(),
        }),
        Message::Unsubscribe(Unsubscribe { subscribe_id: 16384 }),
        Message::SubscribeDone(SubscribeDone {
            subscribe_id: 3,
            status_code: 2,
            reason_phrase: "".into(),
            content_exists: false,
        }),
        Message::GoAway(GoAway { new_session_uri: "https://example.com".into() }),
        Message::Publish(Publish {
            track_namespace: vec![],
            track_name: "".into(),
            subscriber_priority: 0,
            group_order: GROUP_ORDER_ASCENDING,
        }),
        Message::PublishOk(PublishOk {
            track_namespace: vec!["live".into()],
            track_name: "video".into(),
        }),
    ]
}

#[test]
fn roundtrip_client_setup() {
    let msg = Message::ClientSetup(ClientSetup::default());
    let encoded = msg.encode();
    let decoded = Message::decode(&mut encoded.clone()).unwrap();
    match decoded {
        Message::ClientSetup(cs) => {
            assert!(cs.params.is_empty());
        }
        _ => panic!("wrong message type"),
    }
}

#[test]
fn roundtrip_client_setup_with_params() {
    let msg = Message::ClientSetup(ClientSetup {
        params: vec![
            SetupParameter::Role(0x03),
            SetupParameter::Path("/moq".into()),
        ],
    });
    let encoded = msg.encode();
    let decoded = Message::decode(&mut encoded.clone()).unwrap();
    match decoded {
        Message::ClientSetup(cs) => {
            assert_eq!(cs.params.len(), 2);
            match &cs.params[0] {
                SetupParameter::Role(v) => assert_eq!(*v, 0x03),
                _ => panic!("expected Role"),
            }
            match &cs.params[1] {
                SetupParameter::Path(s) => assert_eq!(s, "/moq"),
                _ => panic!("expected Path"),
            }
        }
        _ => panic!("wrong message type"),
    }
}

#[test]
fn roundtrip_subscribe() {
    let msg = Message::Subscribe(Subscribe {
        subscribe_id: 1,
        track_alias: 2,
        track_namespace: vec!["ns".into()],
        track_name: "track".into(),
        subscriber_priority: 0,
        group_order: GROUP_ORDER_ASCENDING,
        filter_type: FILTER_NEXT_GROUP,
    });
    let encoded = msg.encode();
    let decoded = Message::decode(&mut encoded.clone()).unwrap();
    match decoded {
        Message::Subscribe(s) => {
            assert_eq!(s.subscribe_id, 1);
            assert_eq!(s.track_alias, 2);
            assert_eq!(s.track_namespace, vec!["ns".to_string()]);
            assert_eq!(s.track_name, "track");
            assert_eq!(s.subscriber_priority, 0);
            assert_eq!(s.group_order, GROUP_ORDER_ASCENDING);
            assert_eq!(s.filter_type, FILTER_NEXT_GROUP);
        }
        _ => panic!("wrong message type"),
    }
}

#[test]
fn roundtrip_subscribe_ok() {
    let msg = Message::SubscribeOk(SubscribeOk {
        subscribe_id: 5,
        expires: 0,
        group_order: GROUP_ORDER_ASCENDING,
        content_exists: false,
    });
    let encoded = msg.encode();
    let decoded = Message::decode(&mut encoded.clone()).unwrap();
    match decoded {
        Message::SubscribeOk(ok) => {
            assert_eq!(ok.subscribe_id, 5);
            assert_eq!(ok.expires, 0);
            assert_eq!(ok.group_order, GROUP_ORDER_ASCENDING);
            assert!(!ok.content_exists);
        }
        _ => panic!("wrong message type"),
    }
}

#[test]
fn roundtrip_publish() {
    let msg = Message::Publish(Publish {
        track_namespace: vec!["live".into()],
        track_name: "video".into(),
        subscriber_priority: 0,
        group_order: GROUP_ORDER_ASCENDING,
    });
    let encoded = msg.encode();
    let decoded = Message::decode(&mut encoded.clone()).unwrap();
    match decoded {
        Message::Publish(p) => {
            assert_eq!(p.track_namespace, vec!["live".to_string()]);
            assert_eq!(p.track_name, "video");
            assert_eq!(p.subscriber_priority, 0);
            assert_eq!(p.group_order, GROUP_ORDER_ASCENDING);
        }
        _ => panic!("wrong message type"),
    }
}

#[test]
fn roundtrip_publish_ok() {
    let msg = Message::PublishOk(PublishOk {
        track_namespace: vec!["live".into()],
        track_name: "video".into(),
    });
    let encoded = msg.encode();
    let decoded = Message::decode(&mut encoded.clone()).unwrap();
    match decoded {
        Message::PublishOk(ok) => {
            assert_eq!(ok.track_namespace, vec!["live".to_string()]);
            assert_eq!(ok.track_name, "video");
        }
        _ => panic!("wrong message type"),
    }
}

#[test]
fn roundtrip_subgroup_header() {
    let hdr = SubgroupHeader {
        subscribe_id: 1,
        track_alias: 2,
        group_id: 3,
        subgroup_id: 0,
        publisher_priority: 128,
    };
    let mut buf = BytesMut::new();
    hdr.encode(&mut buf);
    let decoded = SubgroupHeader::decode(&mut buf.freeze()).unwrap();
    assert_eq!(decoded.subscribe_id, 1);
    assert_eq!(decoded.track_alias, 2);
    assert_eq!(decoded.group_id, 3);
    assert_eq!(decoded.subgroup_id, 0);
    assert_eq!(decoded.publisher_priority, 128);
}

#[test]
fn roundtrip_goaway() {
    let msg = Message::GoAway(GoAway {
        new_session_uri: "https://new.example.com".into(),
    });
    let encoded = msg.encode();
    let decoded = Message::decode(&mut encoded.clone()).unwrap();
    match decoded {
        Message::GoAway(g) => assert_eq!(g.new_session_uri, "https://new.example.com"),
        _ => panic!("wrong message type"),
    }
}

#[test]
fn roundtrip_unsubscribe() {
    let msg = Message::Unsubscribe(Unsubscribe { subscribe_id: 42 });
    let encoded = msg.encode();
    let decoded = Message::decode(&mut encoded.clone()).unwrap();
    match decoded {
        Message::Unsubscribe(u) => assert_eq!(u.subscribe_id, 42),
        _ => panic!("wrong message type"),
    }
}

#[test]
fn roundtrip_request_error() {
    let msg = Message::RequestError(RequestError {
        subscribe_id: 1,
        error_code: 0x01,
        reason_phrase: "not found".into(),
    });
    let encoded = msg.encode();
    let decoded = Message::decode(&mut encoded.clone()).unwrap();
    match decoded {
        Message::RequestError(e) => {
            assert_eq!(e.subscribe_id, 1);
            assert_eq!(e.error_code, 0x01);
            assert_eq!(e.reason_phrase, "not found");
        }
        _ => panic!("wrong message type"),
    }
}

#[test]
fn roundtrip_subscribe_done() {
    let msg = Message::SubscribeDone(SubscribeDone {
        subscribe_id: 3,
        status_code: 0,
        reason_phrase: "done".into(),
        content_exists: true,
    });
    let encoded = msg.encode();
    let decoded = Message::decode(&mut encoded.clone()).unwrap();
    match decoded {
        Message::SubscribeDone(d) => {
            assert_eq!(d.subscribe_id, 3);
            assert_eq!(d.status_code, 0);
            assert_eq!(d.reason_phrase, "done");
            assert!(d.content_exists);
        }
        _ => panic!("wrong message type"),
    }
}

#[test]
fn every_message_is_read_back_and_the_rest_is_left() {
    for m in one_of_each() {
        assert!(m.can_encode());
        let mut bytes = m.encode().to_vec();
        bytes.extend_from_slice(&[0xde, 0xad]);
        let mut buf = Bytes::from(bytes);
        let back = Message::decode(&mut buf).unwrap();
        assert_eq!(format!("{:?}", back), format!("{:?}", m));
        assert_eq!(buf.to_vec(), vec![0xde, 0xad]);
    }
}

#[test]
fn different_messages_have_different_bytes() {
    let all = one_of_each();
    for i in 0..all.len() {
        for j in 0..i {
            assert_ne!(all[i].encode(), all[j].encode());
        }
    }
}

#[test]
fn no_message_is_read_from_a_part_of_it() {
    for m in one_of_each() {
        let bytes = m.encode().to_vec();
        for n in 0..bytes.len() {
            assert!(Message::decode(&mut Bytes::from(bytes[..n].to_vec())).is_err());
        }
    }
}

#[test]
fn setup_without_parameters_takes_four_bytes() {
    let client = Message::ClientSetup(ClientSetup::default());
    assert_eq!(client.encode().to_vec(), vec![0x20, 0, 1, 0]);
    let server = Message::ServerSetup(ServerSetup::default());
    assert_eq!(server.encode().to_vec(), vec![0x21, 0, 1, 0]);
}

#[test]
fn setup_parameters_are_keys_lengths_and_values() {
    let m = Message::ClientSetup(ClientSetup {
        params: vec![
            SetupParameter::Role(3),
            SetupParameter::Path("/m".into()),
            SetupParameter::MaxSubscribeId(300),
        ],
    });
    assert_eq!(
        m.encode().to_vec(),
        vec![0x20, 0, 12, 3, 0, 1, 3, 1, 2, b'/', b'm', 2, 2, 0x41, 0x2c]
    );
}

#[test]
fn publish_has_a_tuple_a_name_two_bytes_and_no_parameters() {
    let m = Message::Publish(Publish {
        track_namespace: vec!["live".into()],
        track_name: "video".into(),
        subscriber_priority: 9,
        group_order: 1,
    });
    let mut expected = vec![0x1d, 0, 15, 0x01, 0x04, 0x6C, 0x69, 0x76, 0x65, 5];
    expected.extend_from_slice(b"video");
    expected.extend_from_slice(&[9, 1, 0]);
    assert_eq!(m.encode().to_vec(), expected);
}

#[test]
fn subscribe_bytes() {
    let m = Message::Subscribe(Subscribe {
        subscribe_id: 1,
        track_alias: 2,
        track_namespace: vec!["n".into()],
        track_name: "t".into(),
        subscriber_priority: 3,
        group_order: 4,
        filter_type: 5,
    });
    assert_eq!(
        m.encode().to_vec(),
        vec![0x03, 0, 10, 1, 2, 1, 1, b'n', 1, b't', 3, 4, 5]
    );
}

#[test]
fn the_other_messages_bytes() {
    let ok = Message::SubscribeOk(SubscribeOk {
        subscribe_id: 5,
        expires: 64,
        group_order: 1,
        content_exists: true,
    });
    assert_eq!(ok.encode().to_vec(), vec![0x04, 0, 5, 5, 0x40, 64, 1, 1]);
    let error = Message::RequestError(RequestError {
        subscribe_id: 1,
        error_code: 2,
        reason_phrase: "no".into(),
    });
    assert_eq!(error.encode().to_vec(), vec![0x05, 0, 5, 1, 2, 2, b'n', b'o']);
    let unsubscribe = Message::Unsubscribe(Unsubscribe { subscribe_id: 42 });
    assert_eq!(unsubscribe.encode().to_vec(), vec![0x0a, 0, 1, 42]);
    let done = Message::SubscribeDone(SubscribeDone {
        subscribe_id: 3,
        status_code: 0,
        reason_phrase: "x".into(),
        content_exists: true,
    });
    assert_eq!(done.encode().to_vec(), vec![0x0b, 0, 5, 3, 0, 1, b'x', 1]);
    let goaway = Message::GoAway(GoAway { new_session_uri: "u".into() });
    assert_eq!(goaway.encode().to_vec(), vec![0x10, 0, 2, 1, b'u']);
    let published = Message::PublishOk(PublishOk {
        track_namespace: vec!["a".into(), "b".into()],
        track_name: "c".into(),
    });
    assert_eq!(
        published.encode().to_vec(),
        vec![0x1e, 0, 8, 2, 1, b'a', 1, b'b', 1, b'c', 0]
    );
}

fn setup_params(bytes: Vec<u8>) -> Vec<SetupParameter> {
    match Message::decode(&mut Bytes::from(bytes)).unwrap() {
        Message::ClientSetup(cs) => cs.params,
        Message::ServerSetup(ss) => ss.params,
        _ => panic!("wrong message type"),
    }
}

#[test]
fn nothing_is_written_of_an_unknown_parameter() {
    let first = Message::ClientSetup(ClientSetup {
        params: vec![SetupParameter::Unknown(9), SetupParameter::Role(1)],
    });
    assert_eq!(first.encode().to_vec(), vec![0x20, 0, 4, 1, 0, 1, 1]);
    let params = setup_params(first.encode().to_vec());
    assert_eq!(params.len(), 1);
    assert!(matches!(params[0], SetupParameter::Role(1)));

    let last = Message::ClientSetup(ClientSetup {
        params: vec![SetupParameter::Role(3), SetupParameter::Unknown(9)],
    });
    assert_eq!(last.encode().to_vec(), vec![0x20, 0, 4, 1, 0, 1, 3]);
    let params = setup_params(last.encode().to_vec());
    assert_eq!(params.len(), 1);
    assert!(matches!(params[0], SetupParameter::Role(3)));

    let only = Message::ServerSetup(ServerSetup { params: vec![SetupParameter::Unknown(9)] });
    assert_eq!(only.encode().to_vec(), vec![0x21, 0, 1, 0]);
    assert!(setup_params(only.encode().to_vec()).is_empty());
}

#[test]
fn setup_parameters_are_counted_without_the_unknown_ones() {
    let mut buf = BytesMut::new();
    encode_setup_params(&mut buf, &vec![SetupParameter::Role(3), SetupParameter::Unknown(9)]);
    assert_eq!(buf.to_vec(), vec![1, 0, 1, 3]);
    let params = decode_setup_params(&mut buf.freeze()).unwrap();
    assert_eq!(params.len(), 1);
    assert!(matches!(params[0], SetupParameter::Role(3)));
}

#[test]
fn strings_and_tuples_are_read_back_and_the_rest_is_left() {
    let mut buf = BytesMut::new();
    encode_string(&mut buf, &"h\u{e9}".to_string());
    encode_tuple(&mut buf, &vec!["a".to_string(), "".to_string()]);
    assert_eq!(buf.to_vec(), vec![3, b'h', 0xc3, 0xa9, 2, 1, b'a', 0]);
    buf.extend_from_slice(&[0x77]);
    let mut data = buf.freeze();
    assert_eq!(decode_string(&mut data).unwrap(), "h\u{e9}");
    assert_eq!(decode_tuple(&mut data).unwrap(), vec!["a".to_string(), "".to_string()]);
    assert_eq!(data.to_vec(), vec![0x77]);
}

#[test]
fn no_string_or_tuple_is_read_from_a_part_of_it() {
    let mut buf = BytesMut::new();
    encode_tuple(&mut buf, &vec!["one".to_string(), "two".to_string()]);
    let bytes = buf.to_vec();
    for n in 0..bytes.len() {
        assert!(decode_tuple(&mut Bytes::from(bytes[..n].to_vec())).is_err());
    }
    let mut buf = BytesMut::new();
    encode_string(&mut buf, &"three".to_string());
    let bytes = buf.to_vec();
    for n in 0..bytes.len() {
        assert!(decode_string(&mut Bytes::from(bytes[..n].to_vec())).is_err());
    }
}

#[test]
fn no_subgroup_header_is_read_from_a_part_of_it() {
    let header = SubgroupHeader {
        subscribe_id: 1,
        track_alias: 300,
        group_id: 70_000,
        subgroup_id: 0,
        publisher_priority: 5,
    };
    let mut buf = BytesMut::new();
    header.encode(&mut buf);
    let bytes = buf.to_vec();
    for n in 0..bytes.len() {
        assert!(SubgroupHeader::decode(&mut Bytes::from(bytes[..n].to_vec())).is_err());
    }
}

#[test]
fn an_unknown_parameter_is_skipped() {
    let mut buf = Bytes::from(vec![0x20, 0, 8, 2, 9, 2, 0xaa, 0xbb, 0, 1, 1]);
    match Message::decode(&mut buf).unwrap() {
        Message::ClientSetup(cs) => {
            assert_eq!(cs.params.len(), 2);
            assert!(matches!(cs.params[0], SetupParameter::Unknown(9)));
            assert!(matches!(cs.params[1], SetupParameter::Role(1)));
        }
        _ => panic!("wrong message type"),
    }
}

#[test]
fn a_number_parameter_is_as_long_as_it_says() {
    let mut buf = Bytes::from(vec![0x21, 0, 6, 1, 2, 3, 7, 0xee, 0xee]);
    match Message::decode(&mut buf).unwrap() {
        Message::ServerSetup(ss) => {
            assert_eq!(ss.params.len(), 1);
            assert!(matches!(ss.params[0], SetupParameter::MaxSubscribeId(7)));
        }
        _ => panic!("wrong message type"),
    }
}

#[test]
fn bytes_behind_the_fields_are_ignored() {
    let mut buf = Bytes::from(vec![0x0a, 0, 3, 42, 1, 2, 0x77]);
    match Message::decode(&mut buf).unwrap() {
        Message::Unsubscribe(u) => assert_eq!(u.subscribe_id, 42),
        _ => panic!("wrong message type"),
    }
    assert_eq!(buf.to_vec(), vec![0x77]);
}

#[test]
fn any_other_flag_byte_than_zero_is_true() {
    let mut buf = Bytes::from(vec![0x04, 0, 4, 5, 0, 1, 2]);
    match Message::decode(&mut buf).unwrap() {
        Message::SubscribeOk(ok) => assert_eq!(ok.content_exists, 2 != 0),
        _ => panic!("wrong message type"),
    }
}

#[test]
fn a_payload_of_65535_bytes_is_read_back() {
    let uri = "u".repeat(65_535 - 4);
    let m = Message::GoAway(GoAway { new_session_uri: uri.clone() });
    let encoded = m.encode();
    assert_eq!(encoded.len(), 1 + 2 + 65_535);
    match Message::decode(&mut encoded.clone()).unwrap() {
        Message::GoAway(g) => assert_eq!(g.new_session_uri, uri),
        _ => panic!("wrong message type"),
    }
}

#[test]
fn a_longer_payload_loses_the_top_of_its_length() {
    let m = Message::GoAway(GoAway { new_session_uri: "u".repeat(65_536) });
    let encoded = m.encode();
    assert_eq!(encoded.len(), 1 + 2 + 4 + 65_536);
    assert_eq!(encoded[1..3].to_vec(), vec![0, 4]);
    assert_eq!(decode_error(encoded.to_vec()), CodecError::StringTruncated(65_536));
}

#[test]
fn wide_numbers_cannot_be_encoded() {
    let fits = Message::Unsubscribe(Unsubscribe { subscribe_id: (1 << 62) - 1 });
    assert!(fits.can_encode());
    let wide = Message::Unsubscribe(Unsubscribe { subscribe_id: 1 << 62 });
    assert!(!wide.can_encode());
    let role = Message::ClientSetup(ClientSetup { params: vec![SetupParameter::Role(1 << 62)] });
    assert!(!role.can_encode());
    let unknown = Message::ClientSetup(ClientSetup {
        params: vec![SetupParameter::Unknown(1 << 62)],
    });
    assert!(unknown.can_encode());
}

#[test]
fn each_truncation_has_its_error() {
    let cases = [
        (vec![], CodecError::VarIntMissing),
        (vec![0x40], CodecError::VarIntTruncated(2)),
        (vec![0x0a], CodecError::MessageLengthMissing),
        (vec![0x0a, 0], CodecError::MessageLengthMissing),
        (vec![0x0a, 1, 4, 0], CodecError::MessagePayloadTruncated(260)),
        (vec![0x0a, 0, 0], CodecError::VarIntMissing),
        (vec![0x10, 0, 2, 2, b'u'], CodecError::StringTruncated(2)),
        (vec![0x20, 0, 3, 1, 0, 4], CodecError::RoleTruncated),
        (vec![0x20, 0, 3, 1, 2, 4], CodecError::MaxSubscribeIdTruncated),
        (vec![0x20, 0, 3, 1, 0x1f, 4], CodecError::UnknownParameterTruncated(0x1f)),
        (vec![0x03, 0, 4, 1, 2, 0, 0], CodecError::SubscribeTruncated),
        (vec![0x03, 0, 5, 1, 2, 0, 0, 1], CodecError::SubscribeTruncated),
        (vec![0x03, 0, 6, 1, 2, 0, 0, 1, 1], CodecError::VarIntMissing),
        (vec![0x04, 0, 3, 1, 2, 1], CodecError::SubscribeOkTruncated),
        (vec![0x0b, 0, 3, 1, 2, 0], CodecError::SubscribeDoneTruncated),
        (vec![0x1d, 0, 3, 0, 0, 1], CodecError::PublishTruncated),
        (vec![0x1d, 0, 4, 0, 0, 1, 1], CodecError::VarIntMissing),
        (vec![0x1e, 0, 2, 0, 0], CodecError::VarIntMissing),
        (vec![0x3f, 0, 0], CodecError::UnknownMessageType(0x3f)),
    ];
    for (bytes, error) in cases {
        assert_eq!(decode_error(bytes), error);
    }
}

#[test]
fn a_number_parameter_needs_a_number_inside_its_length() {
    assert_eq!(decode_error(vec![0x20, 0, 3, 1, 0, 0]), CodecError::VarIntMissing);
    assert_eq!(decode_error(vec![0x20, 0, 4, 1, 0, 1, 0x40]), CodecError::VarIntTruncated(2));
}

#[test]
fn a_huge_count_of_parameters_fails_at_the_first_missing_one() {
    let bytes = vec![0x20, 0, 8, 0xff, 0xff, 0xff, 0xff, 0xff, 0xff, 0xff, 0xff];
    assert_eq!(decode_error(bytes), CodecError::VarIntMissing);
}

#[test]
fn an_unreadable_payload_is_consumed() {
    let mut buf = Bytes::from(vec![0x3f, 0, 2, 1, 2, 9]);
    assert!(Message::decode(&mut buf).is_err());
    assert_eq!(buf.to_vec(), vec![9]);
}

#[test]
fn an_incomplete_payload_is_left() {
    let mut buf = Bytes::from(vec![0x0a, 0, 5, 1, 2]);
    assert!(Message::decode(&mut buf).is_err());
    assert_eq!(buf.to_vec(), vec![1, 2]);
}

#[test]
fn strings_have_to_be_utf8() {
    let cases: Vec<Vec<u8>> = vec![
        vec![0xff],
        vec![b'a', b'b', 0xc3],
        vec![b'a', 0xe3, 0x81, b'z'],
        vec![0xed, 0xa0, 0x80],
        vec![0xf0, 0x9f, 0x98],
        "見".as_bytes()[..2].to_vec(),
        vec![0xc0, 0x80],
    ];
    for text in cases {
        let std_error = String::from_utf8(text.clone()).unwrap_err().utf8_error();
        let mut bytes = vec![0x10, 0, text.len() as u8 + 1, text.len() as u8];
        bytes.extend_from_slice(&text);
        let e = decode_error(bytes);
        assert_eq!(
            e,
            CodecError::InvalidUtf8 {
                valid_up_to: std_error.valid_up_to(),
                error_len: std_error.error_len(),
            }
        );
        assert_eq!(e.to_string(), format!("invalid utf-8: {}", std_error));
    }
}

#[test]
fn subgroup_header_bytes_and_errors() {
    let hdr = SubgroupHeader {
        subscribe_id: 1,
        track_alias: 300,
        group_id: 3,
        subgroup_id: 4,
        publisher_priority: 128,
    };
    let mut buf = BytesMut::new();
    hdr.encode(&mut buf);
    assert_eq!(buf.to_vec(), vec![1, 0x41, 0x2c, 3, 4, 128]);
    match SubgroupHeader::decode(&mut Bytes::from(vec![1, 2, 3, 4])) {
        Err(e) => {
            assert_eq!(e, CodecError::PublisherPriorityMissing);
            assert_eq!(e.to_string(), "not enough data for publisher_priority");
        }
        Ok(_) => panic!("accepted"),
    }
    match SubgroupHeader::decode(&mut Bytes::from(vec![1, 2, 3])) {
        Err(e) => assert_eq!(e, CodecError::VarIntMissing),
        Ok(_) => panic!("accepted"),
    }
}

#[test]
fn what_was_read_can_be_written_in_no_more_bytes() {
    let read: Vec<Vec<u8>> = vec![
        vec![0x40, 0x0a, 0, 4, 0x80, 0, 0, 42],
        vec![0x20, 0, 9, 0x40, 1, 0, 0x40, 3, 0x40, 7, 0xee, 0xee],
        vec![0x1d, 0, 8, 1, 0x40, 1, b'n', 0, 1, 2, 0x3f],
        vec![0x03, 0, 9, 0x40, 1, 2, 0, 0, 3, 4, 0x40, 5],
        vec![0x04, 0, 5, 1, 2, 3, 9, 9],
    ];
    for bytes in read {
        let mut buf = Bytes::from(bytes.clone());
        let m = Message::decode(&mut buf).unwrap();
        assert!(buf.is_empty());
        assert!(m.can_encode());
        let again = m.encode();
        assert!(again.len() <= bytes.len());
        let back = Message::decode(&mut again.clone()).unwrap();
        assert_eq!(format!("{:?}", back), format!("{:?}", m));
    }
}
