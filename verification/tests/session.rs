use bytes::{Bytes, BytesMut};
use moq::message::{
    ClientSetup, GoAway, Message, Publish, ServerSetup, SetupParameter, Subscribe, Unsubscribe,
};
use moq::session::{
    client_setup, client_setup_request, recv_message, server_setup, session_role, Expected,
    SessionError, SessionRole,
};

fn goaway() -> Message {
    Message::GoAway(GoAway { new_session_uri: "https://example.com".into() })
}

#[test]
fn a_message_in_one_read() {
    let mut buf = BytesMut::new();
    let encoded = goaway().encode();
    let m = recv_message(&mut buf, Some(&encoded)).unwrap().unwrap();
    assert_eq!(format!("{:?}", m), format!("{:?}", goaway()));
    assert!(buf.is_empty());
}

#[test]
fn a_message_in_any_two_pieces() {
    let encoded = goaway().encode().to_vec();
    for n in 0..encoded.len() {
        let mut buf = BytesMut::new();
        assert!(recv_message(&mut buf, Some(&encoded[..n])).unwrap().is_none());
        assert_eq!(buf.to_vec(), encoded[..n].to_vec());
        let m = recv_message(&mut buf, Some(&encoded[n..])).unwrap().unwrap();
        assert_eq!(format!("{:?}", m), format!("{:?}", goaway()));
        assert!(buf.is_empty());
    }
}

#[test]
fn a_message_byte_by_byte() {
    let encoded = goaway().encode().to_vec();
    let mut buf = BytesMut::new();
    for i in 0..encoded.len() - 1 {
        assert!(recv_message(&mut buf, Some(&encoded[i..i + 1])).unwrap().is_none());
    }
    let last = &encoded[encoded.len() - 1..];
    assert!(recv_message(&mut buf, Some(last)).unwrap().is_some());
    assert!(buf.is_empty());
}

#[test]
fn what_comes_behind_a_message_stays_buffered() {
    let mut bytes = Message::Unsubscribe(Unsubscribe { subscribe_id: 7 }).encode().to_vec();
    let second = goaway().encode().to_vec();
    bytes.extend_from_slice(&second);
    let mut buf = BytesMut::new();
    match recv_message(&mut buf, Some(&bytes)).unwrap() {
        Some(Message::Unsubscribe(u)) => assert_eq!(u.subscribe_id, 7),
        other => panic!("got {:?}", other),
    }
    assert_eq!(buf.to_vec(), second);
}

#[test]
fn a_foreign_message_is_read_in_any_pieces() {
    // The type takes two bytes where one would do, and a parameter is unknown.
    let foreign = vec![0x40, 0x20, 0, 8, 2, 9, 2, 0xaa, 0xbb, 0, 1, 1];
    for n in 0..foreign.len() {
        let mut buf = BytesMut::new();
        assert!(recv_message(&mut buf, Some(&foreign[..n])).unwrap().is_none());
        match recv_message(&mut buf, Some(&foreign[n..])).unwrap().unwrap() {
            Message::ClientSetup(cs) => assert_eq!(cs.params.len(), 2),
            other => panic!("read {:?}", other),
        }
        assert!(buf.is_empty());
    }
}

#[test]
fn the_end_of_the_stream_is_an_error() {
    let mut buf = BytesMut::new();
    assert!(recv_message(&mut buf, Some(&[0x10, 0])).unwrap().is_none());
    assert!(matches!(recv_message(&mut buf, None), Err(SessionError::StreamClosed)));
    assert_eq!(buf.to_vec(), vec![0x10, 0]);
}

#[test]
fn an_unknown_message_is_waited_on() {
    let mut buf = BytesMut::new();
    assert!(recv_message(&mut buf, Some(&[0x3f, 0, 0])).unwrap().is_none());
    assert_eq!(buf.to_vec(), vec![0x3f, 0, 0]);
}

#[test]
fn setup_handshake() {
    let request = client_setup_request();
    assert_eq!(request.encode().to_vec(), vec![0x20, 0, 1, 0]);
    let received = Message::decode(&mut Bytes::from(request.encode())).unwrap();
    let answer = server_setup(received).unwrap();
    assert_eq!(answer.encode().to_vec(), vec![0x21, 0, 1, 0]);
    let received = Message::decode(&mut Bytes::from(answer.encode())).unwrap();
    assert!(client_setup(received).is_ok());
}

#[test]
fn setup_parameters_of_the_peer_do_not_matter() {
    let request = Message::ClientSetup(ClientSetup { params: vec![SetupParameter::Role(3)] });
    match server_setup(request) {
        Ok(Message::ServerSetup(ss)) => assert!(ss.params.is_empty()),
        other => panic!("got {:?}", other),
    }
    let answer = Message::ServerSetup(ServerSetup { params: vec![SetupParameter::Unknown(9)] });
    assert!(client_setup(answer).is_ok());
}

#[test]
fn client_setup_rejects_other_answers() {
    match client_setup(client_setup_request()) {
        Err(SessionError::UnexpectedMessage { expected, got }) => {
            assert_eq!(expected, Expected::ServerSetup);
            assert!(matches!(got, Message::ClientSetup(_)));
        }
        other => panic!("got {:?}", other),
    }
}

#[test]
fn server_setup_rejects_other_messages() {
    match server_setup(goaway()) {
        Err(SessionError::UnexpectedMessage { expected, got }) => {
            assert_eq!(expected, Expected::ClientSetup);
            assert!(matches!(got, Message::GoAway(_)));
        }
        other => panic!("got {:?}", other),
    }
}

#[test]
fn the_first_message_decides_the_role() {
    let publish = Message::Publish(Publish {
        track_namespace: vec!["live".into()],
        track_name: "video".into(),
        subscriber_priority: 0,
        group_order: 1,
    });
    match session_role(publish) {
        Ok(SessionRole::Publisher(p)) => assert_eq!(p.track_name, "video"),
        _ => panic!("wrong role"),
    }
    let subscribe = Message::Subscribe(Subscribe {
        subscribe_id: 4,
        track_alias: 0,
        track_namespace: vec!["live".into()],
        track_name: "audio".into(),
        subscriber_priority: 0,
        group_order: 1,
        filter_type: 1,
    });
    match session_role(subscribe) {
        Ok(SessionRole::Subscriber(s)) => assert_eq!(s.subscribe_id, 4),
        _ => panic!("wrong role"),
    }
    match session_role(goaway()) {
        Err(SessionError::UnexpectedMessage { expected, got }) => {
            assert_eq!(expected, Expected::PublishOrSubscribe);
            assert!(matches!(got, Message::GoAway(_)));
        }
        _ => panic!("wrong role"),
    }
}
