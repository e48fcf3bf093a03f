use std::collections::HashMap;
use std::io::{BufRead, Read};

use devices::digits::{only_digits, push_decimal, push_integer, read_integer, read_natural, read_unsigned};
use devices::headers::precedes;
use devices::message::Message;
use devices::number::Number;
use devices::object::{field_of, inner_of};
use devices::timestamp::Timestamp;
use devices::text::{
    chars_of, find, find_pair, remove, replace, same, space, split_first, strip_end, strip_prefix_run,
    strip_start, strip_suffix_run, trim, Strip,
};

const TEXTS: &[&str] = &[
    "",
    " ",
    "a",
    "  a b  ",
    "\t\r\n x \u{a0}\u{2003}y\u{3000}",
    "\u{85}\u{1680}edge\u{2028}\u{2029}\u{202f}\u{205f}",
    "{{{\"value\":\"1\"}}}",
    "}{",
    "\"\"\"quoted\"\"\"",
    "GET /datum/GET /datum/s1 HTTP/1.1 HTTP/1.1",
    "GET /datum/",
    " HTTP/1.1",
    "key: value: more",
    ": ",
    ":",
    "a:b: c",
    "aaa",
    "aaaa",
    "abab",
    "192.168.2.16:6565192.168.2.16:6565",
    "x192.168.2.16:656",
    "°C,⏼,",
    ",",
    ",,",
    "a,b,c,d",
    "id=id=x",
    "12",
    "+12",
    "-12",
    "--12",
    "+",
    "-",
    "007",
    "-0",
    "2147483647",
    "2147483648",
    "-2147483648",
    "-2147483649",
    "18446744073709551615",
    "18446744073709551616",
    "340282366920938463463374607431768211455",
    "340282366920938463463374607431768211456",
    "99999999999999999999999999999999999999999999",
    "1٢3",
    "12 ",
    "1.5",
    ".5",
    "5.",
    ".",
    "+.5",
    "-5.25",
    "0.000",
    "-0.0",
    "1.2.3",
    "1e5",
    "1E5",
    "1.5e-3",
    "2e+2",
    "12.5e1",
    "1e",
    "e5",
    "1e40",
    "1e-50",
    "1e+-5",
    "1e5e5",
    "-.5E1",
    "inf",
    "nan",
    "0x10",
];

fn text(v: &[char]) -> String {
    v.iter().collect()
}

#[test]
fn test_white_space_is_what_the_standard_says() {
    for code in 0..=0x10ffffu32 {
        if let Some(c) = char::from_u32(code) {
            assert_eq!(space(c), c.is_whitespace(), "{:x}", code);
        }
    }
}

#[test]
fn test_texts_are_trimmed_and_stripped_as_the_standard_does() {
    for s in TEXTS {
        let v = chars_of(s);
        assert_eq!(text(&v), *s);
        assert_eq!(text(&trim(&v)), s.trim());
        assert_eq!(text(&strip_start(&v, Strip::Space)), s.trim_start());
        assert_eq!(text(&strip_end(&v, Strip::Space)), s.trim_end());
        for c in ['{', '}', '"', '[', ']', 'a', ','] {
            assert_eq!(text(&strip_start(&v, Strip::Only(c))), s.trim_start_matches(c));
            assert_eq!(text(&strip_end(&v, Strip::Only(c))), s.trim_end_matches(c));
            assert_eq!(text(&remove(&v, Strip::Only(c))), s.replace(c, ""));
            assert_eq!(find(&v, c), s.chars().position(|x| x == c).unwrap_or(v.len()));
            let mut pieces = s.split(c);
            let (head, tail) = split_first(&v, c);
            assert_eq!(text(&head), pieces.next().unwrap());
            assert_eq!(tail.map(|t| text(&t)), if s.contains(c) { Some(s.splitn(2, c).nth(1).unwrap().to_string()) } else { None });
        }
        let mut kept = s.to_string();
        kept.retain(|c| !c.is_whitespace());
        assert_eq!(text(&remove(&v, Strip::Space)), kept);
        for p in ["GET /datum/", " HTTP/1.1", "a", "aa", "ab", "id=", "\"value\":\"", "{", ""] {
            let pattern = chars_of(p);
            if !p.is_empty() {
                assert_eq!(text(&strip_prefix_run(&v, &pattern)), s.trim_start_matches(p), "{:?} {:?}", s, p);
                assert_eq!(text(&strip_suffix_run(&v, &pattern)), s.trim_end_matches(p), "{:?} {:?}", s, p);
            }
            for with in ["", "localhost:6565", "a", "aa"] {
                if !p.is_empty() {
                    assert_eq!(text(&replace(&v, &pattern, &chars_of(with))), s.replace(p, with));
                } else {
                    assert_eq!(text(&replace(&v, &pattern, &chars_of(with))), *s);
                }
            }
        }
        let pair = find_pair(&v, ':', ' ');
        match s.split_once(": ") {
            Some((before, _)) => assert_eq!(pair, before.chars().count()),
            None => assert_eq!(pair, v.len()),
        }
        assert_eq!(text(&inner_of(&v)), kept.trim_start_matches('{').trim_end_matches('}'));
        assert_eq!(field_of(&v, "\"value\":\""), s.trim_start_matches("\"value\":\"").trim_end_matches('"'));
        for other in TEXTS {
            assert_eq!(same(s, other), s == other);
            assert_eq!(precedes(s, other), s < other, "{:?} {:?}", s, other);
        }
    }
}

#[test]
fn test_whole_numbers_are_read_and_written_as_the_standard_does() {
    for s in TEXTS {
        let v = chars_of(s);
        assert_eq!(read_integer(&v, i32::MIN as i64, i32::MAX as i64), s.parse::<i32>().ok().map(|n| n as i64), "{:?}", s);
        assert_eq!(read_integer(&v, i64::MIN, i64::MAX), s.parse::<i64>().ok(), "{:?}", s);
        assert_eq!(read_unsigned(&v, u64::MAX as u128), s.parse::<u64>().ok().map(|n| n as u128), "{:?}", s);
        assert_eq!(read_unsigned(&v, u128::MAX), s.parse::<u128>().ok(), "{:?}", s);
        if !s.starts_with('+') {
            assert_eq!(read_natural(&v, u128::MAX), s.parse::<u128>().ok(), "{:?}", s);
        } else {
            assert_eq!(read_natural(&v, u128::MAX), None);
        }
    }
    for n in [0u128, 1, 9, 10, 11, 99, 100, 12345, u64::MAX as u128, u128::MAX] {
        let mut out = vec!['x'];
        push_decimal(n, &mut out);
        assert_eq!(text(&out), format!("x{}", n));
    }
    for n in [0i64, 1, -1, 9, -10, i32::MAX as i64, i32::MIN as i64, i64::MAX, i64::MIN] {
        let mut out = Vec::new();
        push_integer(n, &mut out);
        assert_eq!(text(&out), n.to_string());
    }
}

#[test]
fn test_numbers_are_the_finite_decimals_among_the_floats() {
    for s in TEXTS {
        assert_eq!(only_digits(&chars_of(s)), s.chars().all(|c| c.is_ascii_digit()), "{:?}", s);
        let float = s.parse::<f32>().ok();
        let plain = !s.is_empty() && s.chars().all(|c| c.is_ascii_digit() || "+-.eE".contains(c));
        match Number::parse(s) {
            Some(n) => {
                assert!(plain, "{:?}", s);
                // every number is a float too, if only an infinite one at the far end
                let float = float.unwrap();
                assert!(float.is_finite() || n.whole_part() > u128::MAX - (1 << 103), "{:?}", s);
                let back = n.to_string().parse::<f32>().unwrap();
                assert_eq!(back, float, "{:?}", s);
            }
            None => assert!(!plain || float.map(|f| !f.is_finite() || f >= 3.4028235e38).unwrap_or(true), "{:?}", s),
        }
    }
    for float in [0.0f32, 1.0, -1.0, 42.1, 19.3, -0.022500813, 1.0e-45, 3.4028235e38, -3.4028235e38, 1.17549435e-38, 123456.79] {
        let shown = float.to_string();
        let n = Number::parse(&shown).unwrap();
        assert_eq!(n.to_string().parse::<f32>().unwrap(), float);
        let with_point = if shown.contains('.') { shown } else { format!("{}.0", shown) };
        assert_eq!(n.to_string(), with_point, "{}", float);
    }
}

/// How a message is read from a buffered reader, line by line.
fn read_by_lines(mut stream: impl BufRead) -> Option<(String, HashMap<String, String>, Option<String>)> {
    let mut message = String::new();
    stream.read_line(&mut message).ok()?;
    let mut headers: HashMap<String, String> = HashMap::new();
    loop {
        let mut line = String::new();
        match stream.read_line(&mut line) {
            Ok(size) if size > 2 => {
                match line.split_once(": ") {
                    Some((key, value)) => headers.insert(key.trim().into(), value.trim().into()),
                    None => continue,
                };
            }
            _ => break,
        };
    }
    let mut body: Option<String> = None;
    if let Some(length) = headers.get("Content-Length") {
        let length = length.parse::<usize>().ok()?;
        let mut buffer = vec![0; length];
        stream.read_exact(&mut buffer).ok()?;
        body = Some(String::from_utf8(buffer).ok()?);
    }
    headers.insert("Content-Type".into(), "text/json; charset=utf-8".into());
    Some((String::from(message.trim()), headers, body))
}

#[test]
fn test_messages_are_read_as_from_a_buffered_reader() {
    let streams: &[&[u8]] = &[
        b"",
        b"\r\n",
        b"\n",
        b"GET / HTTP/1.1",
        b"GET / HTTP/1.1\r\n",
        b"  GET / HTTP/1.1  \r\n\r\n",
        b"GET / HTTP/1.1\r\nContent-Type: text/html\r\nfoo: bar\r\n\r\n",
        b"GET / HTTP/1.1\nfoo: bar\nfoo: baz\n\nfoo: late\n",
        b"GET / HTTP/1.1\r\nkablooie\r\nfoo:bar\r\n  spaced key  :   spaced value  \r\n\r\n",
        b"GET / HTTP/1.1\r\na: b: c\r\n: empty key\r\nempty value: \r\n\r\n",
        b"GET / HTTP/1.1\r\nContent-Length: 13\r\n\r\nHello, World!\r\n\r\n",
        b"GET / HTTP/1.1\r\nContent-Length: 13\r\n\r\nHello, World!",
        b"GET / HTTP/1.1\r\nContent-Length: 5\r\n\r\nHello, World!",
        b"GET / HTTP/1.1\r\nContent-Length: 0\r\n\r\nHello, World!",
        b"GET / HTTP/1.1\r\nContent-Length: 14\r\n\r\nHello, World!",
        b"GET / HTTP/1.1\r\nContent-Length: +5\r\n\r\nHello",
        b"GET / HTTP/1.1\r\nContent-Length: -5\r\n\r\nHello",
        b"GET / HTTP/1.1\r\nContent-Length: five\r\n\r\nHello",
        b"GET / HTTP/1.1\r\nContent-Length: 99999999999999999999999999\r\n\r\nHello",
        b"GET / HTTP/1.1\r\nContent-Length: 1\r\nContent-Length: 2\r\n\r\nHello",
        b"GET / HTTP/1.1\r\nContent-Length: 3\r\n\r\n\xc2\xb0C",
        b"GET / HTTP/1.1\r\nContent-Length: 2\r\n\r\n\xc2\xb0C",
        b"GET / HTTP/1.1\r\nContent-Length: 1\r\n\r\n\xc2\xb0C",
        b"GET / HTTP/1.1\r\nunit: \xc2\xb0C\r\n\r\n",
        b"GET / HTTP/1.1\r\nbad: \xff\xfe\r\nContent-Length: 2\r\n\r\nab",
        b"GET / HTTP/1.1\r\nab\r\nContent-Length: 2\r\n\r\nab",
        b"GET / HTTP/1.1\r\na:\nContent-Length: 2\r\n\r\nab",
        b"\xff\xfe\r\nfoo: bar\r\n\r\n",
        b"GET /\xe2\x8f\xbc HTTP/1.1\r\n\r\n",
        b"GET / HTTP/1.1\r\nfoo: bar",
        b"GET / HTTP/1.1\r\nfoo: bar\r",
        b"GET / HTTP/1.1\r\n\r\r\n\r\nContent-Length: 1\r\n\r\nx",
        b"GET / HTTP/1.1\r\n\xc2\xa0key\xe2\x80\x83: \xe3\x80\x80value\xc2\x85\r\n\r\n",
    ];
    for stream in streams {
        let expected = read_by_lines(*stream);
        let actual = Message::read_from_buffer(stream);
        match expected {
            None => assert_eq!(actual, Err(String::from("cannot read message")), "{:?}", String::from_utf8_lossy(stream)),
            Some((start_line, headers, body)) => {
                let actual = actual.unwrap();
                assert_eq!(actual.start_line, start_line);
                assert_eq!(actual.body, body);
                assert_eq!(actual.headers().len(), headers.len(), "{:?}", String::from_utf8_lossy(stream));
                for (key, value) in headers.iter() {
                    assert_eq!(actual.header(key), Some(value), "{:?}", String::from_utf8_lossy(stream));
                }
                let mut sorted: Vec<(&String, &String)> = headers.iter().collect();
                sorted.sort();
                let lines: Vec<String> = sorted.into_iter().map(|(k, v)| format!("{}: {}", k, v)).collect();
                let body = body.map(|b| format!("\r\n{}\r\n", b)).unwrap_or_default();
                assert_eq!(actual.to_string(), format!("{}\r\n{}\r\n{}\r\n", start_line.trim(), lines.join("\r\n"), body));
            }
        }
    }
}

#[test]
fn test_the_calendar_has_the_moments_that_chrono_has() {
    let first = -8_334_601_228_800i64;
    let last = 8_210_266_876_799i64;
    for secs in [i64::MIN, first - 1, first, first + 1, -86401, -61, -60, -1, 0, 58, 59, 60, 119, 86399, 86400, 1704305001, last - 1, last, last + 1, i64::MAX] {
        for nanos in [0u32, 1, 999_999_999, 1_000_000_000, 1_999_999_999, 2_000_000_000, u32::MAX] {
            let stated = first <= secs
                && secs <= last
                && (nanos < 1_000_000_000 || (nanos < 2_000_000_000 && secs.rem_euclid(60) == 59));
            assert_eq!(Timestamp::new(secs, nanos).is_some(), stated, "{} {}", secs, nanos);
            assert_eq!(chrono::DateTime::from_timestamp(secs, nanos).is_some(), stated, "{} {}", secs, nanos);
        }
    }
    assert_eq!(chrono::DateTime::from_timestamp(first, 0).unwrap(), chrono::DateTime::<chrono::Utc>::MIN_UTC);
    assert_eq!(chrono::DateTime::from_timestamp(last, 999_999_999).unwrap(), chrono::DateTime::<chrono::Utc>::MAX_UTC);
}
