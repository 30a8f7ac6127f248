use moq::http::{config_json, http_response, is_white_space, request_path, respond};
use moq::settings::{
    client_mode, fingerprint, line_payload, object_line, parse_port, port_or, show_object,
    subject_alt_names, Mode,
};

#[test]
fn config_is_json() {
    assert_eq!(
        config_json(&[0, 7, 255], "172.20.0.1", 4433),
        "{\"certHash\":[0,7,255],\"hostIp\":\"172.20.0.1\",\"port\":4433}"
    );
    assert_eq!(config_json(&[], "", 0), "{\"certHash\":[],\"hostIp\":\"\",\"port\":0}");
}

#[test]
fn white_space_is_what_std_says() {
    for n in 0..=0x10ffffu32 {
        if let Some(c) = char::from_u32(n) {
            assert_eq!(is_white_space(c), c.is_whitespace());
        }
    }
}

#[test]
fn paths_are_the_second_word_of_the_first_line() {
    let requests = [
        "GET /config HTTP/1.1\r\nHost: localhost\r\n\r\n",
        "GET /config",
        "  GET\t/other  HTTP/1.1",
        "GET\r\n/config",
        "\nGET /config",
        "\r\n",
        "GET",
        "",
        "GET \u{3000}/\u{e9}\u{a0}x",
    ];
    for request in requests {
        let path = request
            .lines()
            .next()
            .and_then(|line| line.split_whitespace().nth(1))
            .unwrap_or("/");
        assert_eq!(request_path(request), path);
    }
}

#[test]
fn config_is_served() {
    assert_eq!(
        respond("GET /config HTTP/1.1\r\n\r\n", "{\u{e9}}"),
        "HTTP/1.1 200 OK\r\nContent-Type: application/json\r\nAccess-Control-Allow-Origin: *\r\n\
         Content-Length: 4\r\nConnection: close\r\n\r\n{\u{e9}}"
    );
}

#[test]
fn nothing_else_is_served() {
    let missing = "HTTP/1.1 404 Not Found\r\nContent-Type: text/plain\r\nContent-Length: 13\r\n\
                   Connection: close\r\n\r\n404 Not Found";
    assert_eq!(respond("GET / HTTP/1.1\r\n\r\n", "{}"), missing);
    assert_eq!(respond("GET /config/ HTTP/1.1\r\n\r\n", "{}"), missing);
    assert_eq!(respond("", "{}"), missing);
}

#[test]
fn requests_need_not_be_utf8() {
    let response = http_response(b"GET /config HTTP/1.1\r\nX: \xff\r\n\r\n", "{}");
    assert_eq!(response, respond("GET /config HTTP/1.1", "{}"));
    let response = http_response(b"GET /config\xff HTTP/1.1\r\n\r\n", "{}");
    assert_eq!(response, respond("GET / HTTP/1.1", "{}"));
}

#[test]
fn certificate_names() {
    assert_eq!(
        subject_alt_names(&"127.0.0.1".to_string()),
        vec!["localhost".to_string(), "127.0.0.1".to_string(), "::1".to_string()]
    );
    assert_eq!(
        subject_alt_names(&"172.20.0.1".to_string()),
        vec![
            "localhost".to_string(),
            "127.0.0.1".to_string(),
            "::1".to_string(),
            "172.20.0.1".to_string()
        ]
    );
}

#[test]
fn fingerprints_are_hex_bytes_with_colons() {
    assert_eq!(fingerprint(&[0, 0x0a, 0xff, 0x10]), "00:0a:ff:10");
    assert_eq!(fingerprint(&[0xab]), "ab");
    assert_eq!(fingerprint(&[]), "");
}

#[test]
fn ports_are_what_std_parses() {
    let texts = [
        "0", "80", "4433", "65535", "65536", "99999999999999999999", "+80", "-0", "-1", "+", "",
        " 80", "80 ", "0080", "8080x", "８０", "000000000000000000001",
    ];
    for text in texts {
        assert_eq!(parse_port(text), text.parse::<u16>().ok());
    }
}

#[test]
fn ports_have_defaults() {
    assert_eq!(port_or(Some("4434"), 4433), 4434);
    assert_eq!(port_or(Some("none"), 4433), 4433);
    assert_eq!(port_or(None, 8080), 8080);
}

#[test]
fn client_modes() {
    let cases = [
        ("publish", Mode::Publish),
        ("subscribe", Mode::Subscribe),
        ("video-publish", Mode::VideoPublish),
        ("video-subscribe", Mode::VideoSubscribe),
        ("help", Mode::Help),
        ("Publish", Mode::Help),
        ("", Mode::Help),
    ];
    for (argument, mode) in cases {
        assert_eq!(client_mode(Some(&argument.to_string())), mode);
    }
    assert_eq!(client_mode(None), Mode::Help);
}

#[test]
fn empty_lines_are_not_sent() {
    assert_eq!(line_payload(""), None);
    assert_eq!(line_payload(" "), Some(b" ".to_vec()));
    assert_eq!(line_payload("h\u{e9}"), Some("h\u{e9}".as_bytes().to_vec()));
}

#[test]
fn objects_are_shown_with_their_identifiers() {
    assert_eq!(show_object(1, 23, "hello"), "[group=1 id=23] hello");
    assert_eq!(object_line(0, 0, b"hello"), "[group=0 id=0] hello");
    assert_eq!(object_line(0, 7, b"a\xffb"), "[group=0 id=7] a\u{fffd}b");
}
