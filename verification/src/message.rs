//! The messages that devices send to one another: a start line, headers,
//! and a body where there is one, written and read in the manner of
//! HTTP/1.1.

use vstd::prelude::*;
use vstd::string::*;
use vstd::utf8::{decode_utf8, encode_utf8, valid_utf8};

use crate::digits::{decimal, push_decimal, read_unsigned, unsigned};
use crate::headers::{
    inserted, inserted_all, lemma_inserted_value, value_of, Entry, Headers,
};
use crate::text::{
    chars_of, extend, find_pair, first_index, first_pair, lemma_first_index_is, slice_of,
    string_of, trim, trimmed,
};

verus! {

/// A message as contracts speak of it: its three parts, by their characters.
pub ghost struct Parts {
    pub start_line: Seq<char>,
    pub headers: Seq<Entry>,
    pub body: Option<Seq<char>>,
}

impl Parts {
    /// These parts with `body` as the body, and with its length in bytes
    /// as the `Content-Length`.
    pub open spec fn with_body(self, body: Seq<char>) -> Parts {
        Parts {
            headers: inserted(self.headers, content_length(), decimal(encode_utf8(body).len())),
            body: Some(body),
            ..self
        }
    }

    /// These parts with each of `more` set among the headers.
    pub open spec fn with_headers(self, more: Seq<Entry>) -> Parts {
        Parts { headers: inserted_all(self.headers, more), ..self }
    }
}

/// The parts of a message that was just made with the start line `line`.
pub open spec fn fresh(line: Seq<char>) -> Parts {
    Parts { start_line: line, headers: seq![(content_type(), json())], body: None }
}

/// The parts of a request of `method` for `url`.
pub open spec fn request(method: Seq<char>, url: Seq<char>) -> Parts {
    fresh(method + " "@ + url + " HTTP/1.1"@)
}

/// The parts of a response with the status `code`.
pub open spec fn response(code: u16) -> Parts {
    fresh(status_line(code))
}

/// Carriage return and line feed, which end every line of a message.
pub open spec fn line_break() -> Seq<char> {
    seq!['\r', '\n']
}

/// A header as the line in which it is written.
pub open spec fn header_line(e: Entry) -> Seq<char> {
    e.0 + seq![':', ' '] + e.1 + line_break()
}

/// The lines of the headers, one after the other.
pub open spec fn header_lines(s: Seq<Entry>) -> Seq<char>
    decreases s.len(),
{
    if s.len() == 0 {
        Seq::empty()
    } else {
        header_lines(s.drop_last()) + header_line(s.last())
    }
}

/// The headers as they are written: their lines, or one empty line where
/// there is no header.
pub open spec fn header_block(s: Seq<Entry>) -> Seq<char> {
    if s.len() == 0 {
        line_break()
    } else {
        header_lines(s)
    }
}

/// The body as it is written: behind an empty line and followed by a line
/// break; nothing at all where there is no body.
pub open spec fn body_block(body: Option<Seq<char>>) -> Seq<char> {
    match body {
        Some(b) => line_break() + b + line_break(),
        None => Seq::empty(),
    }
}

/// A message in writing.
pub open spec fn written(m: Parts) -> Seq<char> {
    trimmed(m.start_line) + line_break() + header_block(m.headers) + body_block(m.body)
        + line_break()
}

/// The key of the header that names the kind of content.
pub open spec fn content_type() -> Seq<char> {
    "Content-Type"@
}

/// The key of the header that gives the length of the body in bytes.
pub open spec fn content_length() -> Seq<char> {
    "Content-Length"@
}

/// The kind of content that every message has unless it says otherwise.
pub open spec fn json() -> Seq<char> {
    "text/json; charset=utf-8"@
}

/// The start line of a response with a status code that the devices use.
pub open spec fn status_line(code: u16) -> Seq<char> {
    if code == 200 {
        "HTTP/1.1 200 OK"@
    } else if code == 400 {
        "HTTP/1.1 400 Bad Request"@
    } else if code == 404 {
        "HTTP/1.1 404 Not Found"@
    } else {
        "HTTP/1.1 501 Not Implemented"@
    }
}

/// Where the line that starts `b` ends: behind its first line feed, or at
/// the end of `b` where it holds none.
pub open spec fn line_end(b: Seq<u8>) -> int {
    let i = first_index(b, 10u8);
    if i < b.len() {
        i + 1
    } else {
        b.len() as int
    }
}

/// The header that a line holds: what stands before its first colon and
/// space and what stands behind, both without white space around them.
pub open spec fn header_of(line: Seq<char>) -> Option<Entry> {
    let p = first_pair(line, ':', ' ');
    if p < line.len() {
        Some((trimmed(line.take(p)), trimmed(line.skip(p + 2))))
    } else {
        None
    }
}

/// Whether a line ends the headers: it has no more than two bytes, as the
/// empty line has, or it is not text.
pub open spec fn ends_head(line: Seq<u8>) -> bool {
    line.len() <= 2 || !valid_utf8(line)
}

/// The headers that are read from `b`, set into `acc`, and what of `b`
/// stands behind them. Lines are read as long as each is text of more than
/// two bytes; one that holds no header is passed over, and the line that
/// ends the headers is taken from `b` as well.
pub open spec fn read_headers(b: Seq<u8>, acc: Seq<Entry>) -> (Seq<Entry>, Seq<u8>)
    decreases b.len(),
{
    let n = line_end(b);
    if 0 <= n <= b.len() && !ends_head(b.take(n)) {
        let next = match header_of(decode_utf8(b.take(n))) {
            Some(e) => inserted(acc, e.0, e.1),
            None => acc,
        };
        read_headers(b.skip(n), next)
    } else if 0 <= n <= b.len() {
        (acc, b.skip(n))
    } else {
        (acc, b)
    }
}

/// The body that the headers announce, read from what stands behind them:
/// none without a `Content-Length`; else as many bytes as that header says,
/// which must be there and be text. `Err` where they are not.
pub open spec fn read_body(headers: Seq<Entry>, rest: Seq<u8>) -> Result<Option<Seq<char>>, ()> {
    match value_of(headers, content_length()) {
        None => Ok(None),
        Some(t) => match unsigned(t, usize::MAX as nat) {
            None => Err(()),
            Some(n) => if n <= rest.len() && valid_utf8(rest.take(n as int)) {
                Ok(Some(decode_utf8(rest.take(n as int))))
            } else {
                Err(())
            },
        },
    }
}

/// How many bytes of body the headers in `b` announce, if they announce a
/// body: what their `Content-Length` says, where that is a number.
pub open spec fn announced(b: Seq<u8>) -> Option<nat> {
    let n = line_end(b);
    if 0 <= n <= b.len() {
        match value_of(read_headers(b.skip(n), Seq::empty()).0, content_length()) {
            Some(t) => unsigned(t, usize::MAX as nat),
            None => None,
        }
    } else {
        None
    }
}

/// The message that the bytes `b` hold, if they hold one: the first line
/// without white space around it, the headers of the lines that follow,
/// with the kind of content set to [`json`], and the body that they announce.
pub open spec fn read(b: Seq<u8>) -> Option<Parts> {
    let n = line_end(b);
    if 0 <= n <= b.len() && valid_utf8(b.take(n)) {
        let (headers, rest) = read_headers(b.skip(n), Seq::empty());
        match read_body(headers, rest) {
            Ok(body) => Some(
                Parts {
                    start_line: trimmed(decode_utf8(b.take(n))),
                    headers: inserted(headers, content_type(), json()),
                    body,
                },
            ),
            Err(_) => None,
        }
    } else {
        None
    }
}

/// The entries of a list of headers given as strings.
pub open spec fn entries_of(v: Seq<(String, String)>) -> Seq<Entry> {
    v.map_values(|e: (String, String)| (e.0@, e.1@))
}

/// `String::from_utf8`: the text that the bytes encode, if they are
/// well-formed UTF-8, and nothing if they are not.
#[verifier::external_body]
fn decoded(bytes: Vec<u8>) -> (r: Option<String>)
    ensures
        r is Some <==> valid_utf8(bytes@),
        r is Some ==> r->0@ == decode_utf8(bytes@),
{
    String::from_utf8(bytes).ok()
}

/// Where the line that starts at `at` ends.
fn line_end_at(bytes: &[u8], at: usize) -> (end: usize)
    requires
        at <= bytes.len(),
    ensures
        at <= end <= bytes.len(),
        end == at + line_end(bytes@.skip(at as int)),
{
    let mut i: usize = at;
    while i < bytes.len() && bytes[i] != 10
        invariant
            at <= i <= bytes.len(),
            forall|j: int| at <= j < i ==> bytes@[j] != 10,
        decreases bytes.len() - i,
    {
        i += 1;
    }
    proof {
        let s = bytes@.skip(at as int);
        assert forall|j: int| 0 <= j < i - at implies s[j] != 10u8 by {
            assert(s[j] == bytes@[at + j]);
        }
        lemma_first_index_is(s, 10u8, i - at);
    }
    if i < bytes.len() {
        i + 1
    } else {
        i
    }
}

/// The text in the bytes from `lo` up to `hi`, if they are text.
fn text_at(bytes: &[u8], lo: usize, hi: usize) -> (r: Option<String>)
    requires
        lo <= hi <= bytes.len(),
    ensures
        r is Some <==> valid_utf8(bytes@.subrange(lo as int, hi as int)),
        r is Some ==> r->0@ == decode_utf8(bytes@.subrange(lo as int, hi as int)),
{
    let mut part: Vec<u8> = Vec::new();
    let mut i: usize = lo;
    while i < hi
        invariant
            lo <= i <= hi <= bytes.len(),
            part@ == bytes@.subrange(lo as int, i as int),
        decreases hi - i,
    {
        part.push(bytes[i]);
        i += 1;
    }
    decoded(part)
}

/// The header that a line holds.
fn header_in(line: &str) -> (r: Option<(String, String)>)
    ensures
        r is Some <==> header_of(line@) is Some,
        r matches Some(e) ==> (e.0@, e.1@) == header_of(line@)->0,
{
    let v = chars_of(line);
    let p = find_pair(&v, ':', ' ');
    if p < v.len() {
        proof {
            crate::text::lemma_first_pair(v@, ':', ' ');
        }
        let key = trim(&slice_of(&v, 0, p));
        let value = trim(&slice_of(&v, p + 2, v.len()));
        Some((string_of(&key), string_of(&value)))
    } else {
        None
    }
}

/// A message, the one thing that devices send to one another.
///
/// A message is made by one of the constructors, which give it its kind of
/// content, and its headers are changed by [`Message::with_headers`] and
/// [`Message::with_body`].
#[derive(PartialEq, Debug)]
pub struct Message {
    pub start_line: String,
    headers: Headers,
    pub body: Option<String>,
}

impl View for Message {
    type V = Parts;

    closed spec fn view(&self) -> Parts {
        Parts {
            start_line: self.start_line@,
            headers: self.headers@,
            body: match self.body {
                Some(b) => Some(b@),
                None => None,
            },
        }
    }
}

impl Message {
    /// Every message says of what kind its content is.
    #[verifier::type_invariant]
    spec fn typed(&self) -> bool {
        value_of(self.headers@, content_type()) is Some
    }

    /// The message with the given parts, and with its kind of content set
    /// to [`json`].
    fn new(start_line: String, headers: Headers, body: Option<String>) -> (m: Message)
        ensures
            m.start_line == start_line,
            m.body == body,
            m.headers@ == inserted(headers@, content_type(), json()),
    {
        headers.check();
        proof {
            lemma_inserted_value(headers@, content_type(), json(), content_type());
        }
        let headers = headers.insert(
            String::from_str("Content-Type"),
            String::from_str("text/json; charset=utf-8"),
        );
        Message { start_line, headers, body }
    }

    /// Every message has the header `Content-Type`.
    pub fn check(&self)
        ensures
            value_of(self@.headers, content_type()) is Some,
    {
        proof {
            use_type_invariant(self);
        }
    }

    /// The start line of the message.
    pub fn line(&self) -> (r: &str)
        ensures
            r@ == self@.start_line,
    {
        self.start_line.as_str()
    }

    /// The headers of the message.
    pub fn headers(&self) -> (r: &Headers)
        ensures
            r@ == self@.headers,
    {
        &self.headers
    }

    /// The body of the message, if it has one.
    pub fn content(&self) -> (r: &Option<String>)
        ensures
            r is Some <==> self@.body is Some,
            r is Some ==> r->0@ == self@.body->0,
    {
        &self.body
    }

    /// The value of the header `key`, if the message has that header.
    pub fn header(&self, key: &str) -> (r: Option<&String>)
        ensures
            r is Some <==> value_of(self@.headers, key@) is Some,
            r is Some ==> r->0@ == value_of(self@.headers, key@)->0,
    {
        self.headers.get(key)
    }

    /// A request of the given method for `url`.
    fn request(method: &str, url: &str) -> (m: Message)
        ensures
            m@ == request(method@, url@),
    {
        let mut line = String::from_str(method);
        line.append(" ");
        line.append(url);
        line.append(" HTTP/1.1");
        let m = Message::new(line, Headers::new(), None);
        assert(m@.headers =~= seq![(content_type(), json())]);
        m
    }

    /// A request to get `url`.
    pub fn request_get(url: &str) -> (m: Message)
        ensures
            m@ == request("GET"@, url@),
    {
        Message::request("GET", url)
    }

    /// A request to post to `url`.
    pub fn request_post(url: &str) -> (m: Message)
        ensures
            m@ == request("POST"@, url@),
    {
        Message::request("POST", url)
    }

    /// A response with the status `code`, which is one of those that the
    /// devices use.
    fn respond(code: u16) -> (m: Message)
        requires
            code == 200 || code == 400 || code == 404 || code == 501,
        ensures
            m@ == response(code),
    {
        let line = if code == 200 {
            String::from_str("HTTP/1.1 200 OK")
        } else if code == 400 {
            String::from_str("HTTP/1.1 400 Bad Request")
        } else if code == 404 {
            String::from_str("HTTP/1.1 404 Not Found")
        } else {
            String::from_str("HTTP/1.1 501 Not Implemented")
        };
        let m = Message::new(line, Headers::new(), None);
        assert(m@.headers =~= seq![(content_type(), json())]);
        m
    }

    /// The response `200 OK`: the request was handled.
    pub fn respond_ok() -> (m: Message)
        ensures
            m@ == response(200),
    {
        Message::respond(200)
    }

    /// The response `501 Not Implemented`: the device has no such endpoint yet.
    pub fn respond_not_implemented() -> (m: Message)
        ensures
            m@ == response(501),
    {
        Message::respond(501)
    }

    /// The response `400 Bad Request`: the device cannot handle the request.
    pub fn respond_bad_request() -> (m: Message)
        ensures
            m@ == response(400),
    {
        Message::respond(400)
    }

    /// The response `404 Not Found`: what was asked for does not exist.
    pub fn respond_not_found() -> (m: Message)
        ensures
            m@ == response(404),
    {
        Message::respond(404)
    }

    /// The message with each of `headers` set, in their order: a later one
    /// replaces an earlier one of the same key.
    pub fn with_headers(self, headers: Vec<(String, String)>) -> (m: Message)
        ensures
            m@ == self@.with_headers(entries_of(headers@)),
    {
        proof {
            use_type_invariant(&self);
        }
        let Message { start_line, headers: mine, body } = self;
        let mut mine = mine;
        let mut i: usize = 0;
        assert(entries_of(headers@).take(0) =~= Seq::<Entry>::empty());
        while i < headers.len()
            invariant
                i <= headers.len(),
                mine@ == inserted_all(self@.headers, entries_of(headers@).take(i as int)),
                value_of(mine@, content_type()) is Some,
            decreases headers.len() - i,
        {
            let key = headers[i].0.clone();
            let value = headers[i].1.clone();
            mine.check();
            proof {
                let e = entries_of(headers@);
                assert(e.take(i + 1).drop_last() =~= e.take(i as int));
                assert(e.take(i + 1).last() == (key@, value@));
                lemma_inserted_value(mine@, key@, value@, content_type());
            }
            mine = mine.insert(key, value);
            i += 1;
        }
        assert(entries_of(headers@).take(headers.len() as int) =~= entries_of(headers@));
        Message { start_line, headers: mine, body }
    }

    /// The message with `body` as its body, and with the length of the body
    /// in bytes as its `Content-Length`.
    pub fn with_body(self, body: &str) -> (m: Message)
        ensures
            m@ == self@.with_body(body@),
    {
        proof {
            use_type_invariant(&self);
        }
        let Message { start_line, headers, body: _ } = self;
        let mut length: Vec<char> = Vec::new();
        let n: usize = body.as_bytes().len();
        push_decimal(n as u128, &mut length);
        assert(length@ =~= decimal(encode_utf8(body@).len()));
        headers.check();
        proof {
            reveal_strlit("Content-Type");
            reveal_strlit("Content-Length");
            assert(content_type().len() != content_length().len());
            lemma_inserted_value(headers@, content_length(), length@, content_type());
        }
        let headers = headers.insert(String::from_str("Content-Length"), string_of(&length));
        Message { start_line, headers, body: Some(String::from_str(body)) }
    }

    /// The message in writing: the start line without white space around
    /// it, the headers in the order of their keys, an empty line and the
    /// body where there is one, each ended by a line break, and a last line
    /// break.
    pub fn to_string(&self) -> (s: String)
        ensures
            s@ == written(self@),
    {
        let mut out = trim(&chars_of(self.start_line.as_str()));
        out.push('\r');
        out.push('\n');
        let ghost start = out@;
        assert(start =~= trimmed(self@.start_line) + line_break());
        let n = self.headers.len();
        if n == 0 {
            out.push('\r');
            out.push('\n');
        }
        let ghost mid = out@;
        let mut i: usize = 0;
        assert(self@.headers.take(0) =~= Seq::<Entry>::empty());
        while i < n
            invariant
                i <= n,
                n == self@.headers.len(),
                out@ == mid + header_lines(self@.headers.take(i as int)),
            decreases n - i,
        {
            let ghost before = out@;
            extend(&mut out, &chars_of(self.headers.key(i).as_str()));
            out.push(':');
            out.push(' ');
            extend(&mut out, &chars_of(self.headers.value(i).as_str()));
            out.push('\r');
            out.push('\n');
            proof {
                let h = self@.headers;
                assert(h.take(i + 1).drop_last() =~= h.take(i as int));
                assert(h.take(i + 1).last() == h[i as int]);
                assert(out@ =~= before + header_line(h[i as int]));
            }
            i += 1;
        }
        assert(self@.headers.take(n as int) =~= self@.headers);
        assert(out@ =~= start + header_block(self@.headers));
        match &self.body {
            Some(b) => {
                out.push('\r');
                out.push('\n');
                extend(&mut out, &chars_of(b.as_str()));
                out.push('\r');
                out.push('\n');
            },
            None => {},
        }
        assert(out@ =~= start + header_block(self@.headers) + body_block(self@.body));
        out.push('\r');
        out.push('\n');
        assert(out@ =~= written(self@));
        string_of(&out)
    }

    /// Writes the message behind what `tcp_stream` holds: its written form
    /// as UTF-8.
    pub fn write(&self, tcp_stream: &mut Vec<u8>)
        ensures
            final(tcp_stream)@ == old(tcp_stream)@ + encode_utf8(written(self@)),
    {
        let s = self.to_string();
        let bytes = s.as_str().as_bytes_vec();
        let mut i: usize = 0;
        while i < bytes.len()
            invariant
                i <= bytes.len(),
                tcp_stream@ == old(tcp_stream)@ + bytes@.take(i as int),
            decreases bytes.len() - i,
        {
            tcp_stream.push(bytes[i]);
            i += 1;
        }
        assert(bytes@.take(bytes.len() as int) =~= bytes@);
    }

    /// Whether `line` ends the headers of a message.
    pub fn ends_head(line: &[u8]) -> (r: bool)
        ensures
            r == ends_head(line@),
    {
        if line.len() <= 2 {
            return true;
        }
        assert(line@.subrange(0, line@.len() as int) =~= line@);
        text_at(line, 0, line.len()).is_none()
    }

    /// The headers that the bytes hold behind their first line, and where
    /// in the bytes the headers end.
    fn read_head(bytes: &[u8], start: usize) -> (r: (Headers, usize))
        requires
            start <= bytes.len(),
        ensures
            r.1 <= bytes.len(),
            (r.0@, bytes@.skip(r.1 as int)) == read_headers(
                bytes@.skip(start as int),
                Seq::empty(),
            ),
    {
        let ghost all = bytes@;
        let mut headers = Headers::new();
        let mut pos: usize = start;
        let mut more = true;
        while more
            invariant
                pos <= bytes.len(),
                all == bytes@,
                more ==> read_headers(all.skip(start as int), Seq::empty()) == read_headers(
                    all.skip(pos as int),
                    headers@,
                ),
                !more ==> read_headers(all.skip(start as int), Seq::empty()) == (
                    headers@,
                    all.skip(pos as int),
                ),
            decreases (bytes.len() - pos) + if more { 1int } else { 0int },
        {
            let end = line_end_at(bytes, pos);
            let ghost b = all.skip(pos as int);
            assert(b.take(end - pos) =~= all.subrange(pos as int, end as int));
            assert(b.skip(end - pos) =~= all.skip(end as int));
            if end - pos > 2 {
                match text_at(bytes, pos, end) {
                    Some(line) => {
                        match header_in(line.as_str()) {
                            Some((key, value)) => {
                                headers = headers.insert(key, value);
                            },
                            None => {},
                        }
                    },
                    None => {
                        more = false;
                    },
                }
            } else {
                more = false;
            }
            pos = end;
        }
        (headers, pos)
    }

    /// How many bytes of body the headers in `head` announce, if they
    /// announce a body. With it a reader knows how much more to take from
    /// a stream once the line that ends the headers has come.
    pub fn body_length(head: &[u8]) -> (r: Option<usize>)
        ensures
            r is Some <==> announced(head@) is Some,
            r is Some ==> r->0 == announced(head@)->0,
    {
        assert(head@.skip(0) =~= head@);
        let n = line_end_at(head, 0);
        let (headers, _) = Message::read_head(head, n);
        match headers.get("Content-Length") {
            None => None,
            Some(t) => match read_unsigned(&chars_of(t.as_str()), usize::MAX as u128) {
                Some(len) => Some(len as usize),
                None => None,
            },
        }
    }

    /// Reads a message from the bytes of a stream. It is the message that
    /// [`read`] describes; where there is none, the error says so.
    pub fn read_from_buffer(tcp_stream: &[u8]) -> (r: Result<Message, String>)
        ensures
            match r {
                Ok(m) => read(tcp_stream@) == Some(m@),
                Err(e) => read(tcp_stream@) is None && e@ == "cannot read message"@,
            },
    {
        let bytes = tcp_stream;
        let ghost all = bytes@;
        assert(all.skip(0) =~= all);
        let n = line_end_at(bytes, 0);
        assert(all.subrange(0, n as int) =~= all.take(n as int));
        let first = match text_at(bytes, 0, n) {
            Some(t) => t,
            None => {
                return Err(String::from_str("cannot read message"));
            },
        };
        let (headers, pos) = Message::read_head(bytes, n);
        let ghost rest = all.skip(pos as int);
        let body = match headers.get("Content-Length") {
            None => None,
            Some(t) => {
                match read_unsigned(&chars_of(t.as_str()), usize::MAX as u128) {
                    None => {
                        return Err(String::from_str("cannot read message"));
                    },
                    Some(len) => {
                        if len > (bytes.len() - pos) as u128 {
                            return Err(String::from_str("cannot read message"));
                        }
                        let len = len as usize;
                        assert(rest.take(len as int) =~= all.subrange(
                            pos as int,
                            pos + len as int,
                        ));
                        match text_at(bytes, pos, pos + len) {
                            Some(b) => Some(b),
                            None => {
                                return Err(String::from_str("cannot read message"));
                            },
                        }
                    },
                }
            },
        };
        let line = string_of(&trim(&chars_of(first.as_str())));
        Ok(Message::new(line, headers, body))
    }
}

} // verus!
