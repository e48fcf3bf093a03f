use devices::message::Message;

fn pairs(items: &[(&str, &str)]) -> Vec<(String, String)> {
    items.iter().map(|(k, v)| (k.to_string(), v.to_string())).collect()
}

#[test]
fn test_request_get() {
    let message = Message::request_get("/");
    let actual = message.to_string();

    let expected = ["GET / HTTP/1.1", "Content-Type: text/json; charset=utf-8"].join("\r\n");

    assert_eq!(actual, format!("{}\r\n\r\n", expected))
}

#[test]
fn test_request_post() {
    let message = Message::request_post("/");
    let actual = message.to_string();

    let expected = ["POST / HTTP/1.1", "Content-Type: text/json; charset=utf-8"].join("\r\n");

    assert_eq!(actual, format!("{}\r\n\r\n", expected))
}

#[test]
fn test_request_get_with_headers() {
    let message = Message::request_get("/");

    let headers = pairs(&[("foo", "bar")]);

    let message = message.with_headers(headers);
    let actual = message.to_string();

    let expected = ["GET / HTTP/1.1", "Content-Type: text/json; charset=utf-8", "foo: bar"].join("\r\n");

    assert_eq!(actual, format!("{}\r\n\r\n", expected))
}

#[test]
fn test_request_get_header() {
    let message = Message::request_get("/");

    let headers = pairs(&[("foo", "bar")]);

    let message = message.with_headers(headers);

    let exists = message.header("foo");
    assert_eq!(exists, Some(String::from("bar")).as_ref());

    let does_not_exist = message.header("baz");
    assert_eq!(does_not_exist, None);
}

#[test]
fn test_request_get_with_body() {
    let message = Message::request_get("/");

    let body = "Hello, World!";

    let message = message.with_body(body);
    let actual = message.to_string();

    let expected = [
        "GET / HTTP/1.1",
        "Content-Length: 13",
        "Content-Type: text/json; charset=utf-8",
        "",
        "Hello, World!",
    ]
    .join("\r\n");

    assert_eq!(actual, format!("{}\r\n\r\n", expected))
}

#[test]
fn test_request_get_with_headers_with_body() {
    let message = Message::request_get("/");

    let headers = pairs(&[("foo", "bar")]);
    let body = "Hello, World!";

    let message = message.with_headers(headers).with_body(body);
    let actual = message.to_string();

    let expected = [
        "GET / HTTP/1.1",
        "Content-Length: 13",
        "Content-Type: text/json; charset=utf-8",
        "foo: bar",
        "",
        "Hello, World!",
    ]
    .join("\r\n");

    assert_eq!(actual, format!("{}\r\n\r\n", expected))
}

#[test]
fn test_respond_ok() {
    let message = Message::respond_ok();
    let actual = message.to_string();

    let expected = ["HTTP/1.1 200 OK", "Content-Type: text/json; charset=utf-8"].join("\r\n");

    assert_eq!(actual, format!("{}\r\n\r\n", expected))
}

#[test]
fn test_respond_bad_request() {
    let message = Message::respond_bad_request();
    let actual = message.to_string();

    let expected = ["HTTP/1.1 400 Bad Request", "Content-Type: text/json; charset=utf-8"].join("\r\n");

    assert_eq!(actual, format!("{}\r\n\r\n", expected))
}

#[test]
fn test_respond_not_found() {
    let message = Message::respond_not_found();
    let actual = message.to_string();

    let expected = ["HTTP/1.1 404 Not Found", "Content-Type: text/json; charset=utf-8"].join("\r\n");

    assert_eq!(actual, format!("{}\r\n\r\n", expected))
}

#[test]
fn test_respond_not_implemented() {
    let message = Message::respond_not_implemented();
    let actual = message.to_string();

    let expected = ["HTTP/1.1 501 Not Implemented", "Content-Type: text/json; charset=utf-8"].join("\r\n");

    assert_eq!(actual, format!("{}\r\n\r\n", expected))
}

#[test]
fn test_write() {
    let message = Message::respond_ok();

    let mut tcp_stream = Vec::new();
    message.write(&mut tcp_stream);
    let actual = String::from_utf8(tcp_stream).unwrap();

    let expected = ["HTTP/1.1 200 OK", "Content-Type: text/json; charset=utf-8"].join("\r\n");

    assert_eq!(actual, format!("{}\r\n\r\n", expected))
}

#[test]
fn test_read() {
    let expected = Message::respond_ok();

    let serialized = ["HTTP/1.1 200 OK", "Content-Type: text/json; charset=utf-8"].join("\r\n");

    let actual = Message::read_from_buffer(serialized.as_bytes()).unwrap();

    assert_eq!(actual, expected)
}

#[test]
fn test_read_with_misformatted_header() {
    let expected = Message::respond_ok();

    let serialized = [
        "HTTP/1.1 200 OK",
        "Content-Type: text/json; charset=utf-8",
        "kablooie", // this line is misformatted, it should be skipped
    ]
    .join("\r\n");

    let actual = Message::read_from_buffer(serialized.as_bytes()).unwrap();

    assert_eq!(actual, expected)
}

#[test]
fn test_read_with_body() {
    let message = Message::request_get("/");
    let body = "Hello, World!";
    let expected = message.with_body(body);

    let serialized = [
        "GET / HTTP/1.1",
        "Content-Length: 13",
        "Content-Type: text/json; charset=utf-8",
        "",
        "Hello, World!",
    ]
    .join("\r\n");

    let actual = Message::read_from_buffer(serialized.as_bytes()).unwrap();

    assert_eq!(actual, expected)
}

#[test]
fn test_write_appends_to_what_the_stream_holds() {
    let mut stream = vec![1u8, 2, 3];
    Message::respond_ok().write(&mut stream);
    assert_eq!(&stream[..3], &[1, 2, 3]);
    assert_eq!(&stream[3..], Message::respond_ok().to_string().as_bytes());
}

#[test]
fn test_later_header_replaces_earlier() {
    let message = Message::request_get("/").with_headers(pairs(&[("k", "1"), ("a", "x"), ("k", "2")]));
    assert_eq!(message.header("k"), Some(&String::from("2")));
    assert_eq!(message.header("a"), Some(&String::from("x")));
    let expected = "GET / HTTP/1.1\r\nContent-Type: text/json; charset=utf-8\r\na: x\r\nk: 2\r\n\r\n";
    assert_eq!(message.to_string(), expected);
}

#[test]
fn test_headers_are_written_in_the_order_of_their_keys() {
    let message = Message::respond_ok().with_headers(pairs(&[("b", "2"), ("Z", "0"), ("a", "1"), ("ab", "3")]));
    let expected = "HTTP/1.1 200 OK\r\nContent-Type: text/json; charset=utf-8\r\nZ: 0\r\na: 1\r\nab: 3\r\nb: 2\r\n\r\n";
    assert_eq!(message.to_string(), expected);
}

#[test]
fn test_content_length_counts_bytes() {
    let message = Message::respond_ok().with_body("°C");
    assert_eq!(message.header("Content-Length"), Some(&String::from("3")));
}

#[test]
fn test_start_line_is_written_without_white_space_around_it() {
    let message = Message::request_get("/ ");
    let mut spaced = Message::request_get("/");
    spaced.start_line = String::from("  GET / HTTP/1.1 \t");
    assert_eq!(spaced.to_string(), "GET / HTTP/1.1\r\nContent-Type: text/json; charset=utf-8\r\n\r\n");
    assert_eq!(message.to_string(), "GET /  HTTP/1.1\r\nContent-Type: text/json; charset=utf-8\r\n\r\n");
}

#[test]
fn test_read_what_was_written() {
    let message = Message::request_post("/command")
        .with_headers(pairs(&[("id", "s1"), ("model", "thermo5000")]))
        .with_body("{\"name\":\"HeatBy\",\"value\":\"5\"}");
    let mut stream = Vec::new();
    message.write(&mut stream);
    let actual = Message::read_from_buffer(&stream).unwrap();
    assert_eq!(actual, message);
}

#[test]
fn test_read_resets_the_kind_of_content() {
    let bytes = b"HTTP/1.1 200 OK\r\nContent-Type: text/html; charset=utf-8\r\n\r\n";
    let actual = Message::read_from_buffer(bytes).unwrap();
    assert_eq!(actual.header("Content-Type"), Some(&String::from("text/json; charset=utf-8")));
}

#[test]
fn test_read_fails_on_first_line_that_is_not_text() {
    let bytes = [0xffu8, 0xfe, b'\r', b'\n'];
    assert_eq!(Message::read_from_buffer(&bytes), Err(String::from("cannot read message")));
}

#[test]
fn test_read_fails_on_bad_length() {
    let bytes = b"GET / HTTP/1.1\r\nContent-Length: many\r\n\r\nbody";
    assert_eq!(Message::read_from_buffer(bytes), Err(String::from("cannot read message")));
}

#[test]
fn test_read_fails_on_short_body() {
    let bytes = b"GET / HTTP/1.1\r\nContent-Length: 10\r\n\r\nbody";
    assert_eq!(Message::read_from_buffer(bytes), Err(String::from("cannot read message")));
}

#[test]
fn test_read_of_nothing() {
    let actual = Message::read_from_buffer(b"").unwrap();
    assert_eq!(actual.start_line, "");
    assert_eq!(actual.body, None);
}

#[test]
fn test_read_takes_header_value_behind_first_colon_and_space() {
    let bytes = b"GET / HTTP/1.1\r\n  key : a: b \r\n\r\n";
    let actual = Message::read_from_buffer(bytes).unwrap();
    assert_eq!(actual.header("key"), Some(&String::from("a: b")));
}

#[test]
fn test_read_accepts_length_with_plus() {
    let bytes = b"GET / HTTP/1.1\r\nContent-Length: +2\r\n\r\nhello";
    let actual = Message::read_from_buffer(bytes).unwrap();
    assert_eq!(actual.body, Some(String::from("he")));
}

#[test]
fn test_every_message_says_its_kind_of_content() {
    let json = String::from("text/json; charset=utf-8");
    for message in [
        Message::request_get("/"),
        Message::request_post("/command").with_body("x"),
        Message::respond_ok(),
        Message::respond_bad_request().with_headers(pairs(&[("a", "b")])),
        Message::respond_not_found(),
        Message::respond_not_implemented(),
        Message::read_from_buffer(b"").unwrap(),
        Message::read_from_buffer(b"GET / HTTP/1.1\r\nfoo: bar\r\n\r\n").unwrap(),
    ] {
        assert_eq!(message.header("Content-Type"), Some(&json));
    }
    let page = Message::respond_ok().with_headers(pairs(&[("Content-Type", "text/html; charset=utf-8")]));
    assert_eq!(page.header("Content-Type"), Some(&String::from("text/html; charset=utf-8")));
    assert_eq!(page.headers().len(), 1);
}

#[test]
fn test_parts_of_a_message() {
    let message = Message::request_post("/command").with_headers(pairs(&[("id", "s1")])).with_body("°C");
    assert_eq!(message.line(), "POST /command HTTP/1.1");
    assert_eq!(message.line(), message.start_line);
    assert_eq!(message.content(), &Some(String::from("°C")));
    assert_eq!(message.content(), &message.body);
    let headers = message.headers();
    assert_eq!(headers.len(), 3);
    assert_eq!((headers.key(0).as_str(), headers.value(0).as_str()), ("Content-Length", "3"));
    assert_eq!((headers.key(1).as_str(), headers.value(1).as_str()), ("Content-Type", "text/json; charset=utf-8"));
    assert_eq!((headers.key(2).as_str(), headers.value(2).as_str()), ("id", "s1"));
    assert_eq!(Message::respond_ok().content(), &None);
}
