//! Why a message that was written is read back.

use vstd::prelude::*;
use vstd::utf8::{
    decode_utf8, encode_utf8, encode_utf8_decode_utf8, encode_utf8_valid_utf8, is_ascii_chars,
    is_ascii_chars_encode_utf8, valid_utf8,
};

use crate::digits::{decimal, lemma_unsigned_decimal};
use crate::headers::{
    ascending, inserted, inserted_all, lemma_inserted_all_self, value_of, Entry,
};
use crate::message::{
    content_length, content_type, header_line, header_lines, header_of, json, line_break,
    line_end, read, read_body, read_headers, written, Parts,
};
use crate::text::{
    first_pair, is_trimmed, lemma_first_index_is, lemma_first_pair_is, lemma_trimmed_is_trimmed,
    lemma_trimmed_line, lemma_trimmed_same, trimmed,
};

verus! {

/// Whether a text can stand in one line: it is ASCII and holds no line feed.
pub open spec fn is_line(s: Seq<char>) -> bool {
    is_ascii_chars(s) && forall|i: int| 0 <= i < s.len() ==> #[trigger] s[i] != '\n'
}

/// Whether a header is read back as it was written: key and value can
/// stand in one line and have no white space around them, and the key
/// holds no colon that is followed by a space.
pub open spec fn is_plain_header(e: Entry) -> bool {
    &&& is_line(e.0)
    &&& is_line(e.1)
    &&& is_trimmed(e.0)
    &&& is_trimmed(e.1)
    &&& first_pair(e.0, ':', ' ') == e.0.len()
}

/// Whether the headers say of the body what is the case: its length in
/// bytes where there is a body, and nothing of a length where there is none.
pub open spec fn is_framed(m: Parts) -> bool {
    match m.body {
        Some(b) => encode_utf8(b).len() <= usize::MAX && value_of(m.headers, content_length())
            == Some(decimal(encode_utf8(b).len())),
        None => value_of(m.headers, content_length()) is None,
    }
}

/// Whether a message is read back as it was written.
pub open spec fn is_plain(m: Parts) -> bool {
    &&& ascending(m.headers)
    &&& is_line(trimmed(m.start_line))
    &&& forall|i: int| 0 <= i < m.headers.len() ==> is_plain_header(#[trigger] m.headers[i])
    &&& is_framed(m)
}

/// One text behind another is encoded as the one encoding behind the other.
pub proof fn lemma_encode_joined(a: Seq<char>, b: Seq<char>)
    ensures
        encode_utf8(a + b) == encode_utf8(a) + encode_utf8(b),
    decreases a.len(),
{
    if a.len() == 0 {
        assert(a + b =~= b);
        assert(encode_utf8(a) + encode_utf8(b) =~= encode_utf8(b));
    } else {
        lemma_encode_joined(a.drop_first(), b);
        assert((a + b).drop_first() =~= a.drop_first() + b);
        assert((a + b)[0] == a[0]);
        assert(encode_utf8(a + b) =~= encode_utf8(a) + encode_utf8(b));
    }
}

/// A line behind a text of one line is still ASCII.
proof fn lemma_line_ascii(l: Seq<char>)
    requires
        is_line(l),
    ensures
        is_ascii_chars(l + line_break()),
{
    let s = l + line_break();
    assert forall|i: int| 0 <= i < s.len() implies '\0' <= #[trigger] s[i] <= '\u{7f}' by {
        if i < l.len() {
            assert(s[i] == l[i]);
        }
    }
}

/// A line that was written is read as that line: the bytes of a text of
/// one line and its line break, with whatever follows them, start with a
/// line that holds just that text and break.
pub proof fn lemma_read_line(l: Seq<char>, rest: Seq<u8>)
    requires
        is_line(l),
    ensures
        line_end(encode_utf8(l + line_break()) + rest) == l.len() + 2,
        (encode_utf8(l + line_break()) + rest).take(l.len() as int + 2) == encode_utf8(
            l + line_break(),
        ),
        (encode_utf8(l + line_break()) + rest).skip(l.len() as int + 2) == rest,
        valid_utf8(encode_utf8(l + line_break())),
        decode_utf8(encode_utf8(l + line_break())) == l + line_break(),
{
    let s = l + line_break();
    let e = encode_utf8(s);
    let b = e + rest;
    lemma_line_ascii(l);
    is_ascii_chars_encode_utf8(s);
    encode_utf8_valid_utf8(s);
    encode_utf8_decode_utf8(s);
    assert(e.len() == l.len() + 2);
    assert forall|j: int| 0 <= j < l.len() + 1 implies b[j] != 10u8 by {
        assert(b[j] == e[j]);
        assert(e[j] == s[j] as u8);
        if j < l.len() {
            assert(s[j] == l[j]);
            assert(l[j] != '\n');
            assert('\0' <= l[j] <= '\u{7f}');
        } else {
            assert(s[j] == '\r');
        }
    }
    let last = l.len() as int + 1;
    assert(b[last] == e[last]);
    assert(e[last] == s[last] as u8);
    assert(s[last] == '\n');
    lemma_first_index_is(b, 10u8, last);
    assert(b.take(l.len() as int + 2) =~= e);
    assert(b.skip(l.len() as int + 2) =~= rest);
}

/// A header that was written in a line is read from that line.
pub proof fn lemma_header_of(e: Entry)
    requires
        is_plain_header(e),
    ensures
        is_line(e.0 + seq![':', ' '] + e.1),
        header_line(e) == (e.0 + seq![':', ' '] + e.1) + line_break(),
        header_of(header_line(e)) == Some(e),
{
    let k = e.0;
    let v = e.1;
    let l = k + seq![':', ' '] + v;
    let line = header_line(e);
    assert(line =~= l + line_break());
    assert forall|i: int| 0 <= i < l.len() implies #[trigger] l[i] != '\n' && '\0' <= l[i]
        <= '\u{7f}' by {
        if i < k.len() {
            assert(l[i] == k[i]);
        } else if i >= k.len() + 2 {
            assert(l[i] == v[i - k.len() - 2]);
        }
    }
    crate::text::lemma_first_pair(k, ':', ' ');
    assert forall|j: int| 0 <= j < k.len() && j + 1 < line.len() implies !(#[trigger] line[j]
        == ':' && line[j + 1] == ' ') by {
        assert(line[j] == k[j]);
        if j + 1 < k.len() {
            assert(line[j + 1] == k[j + 1]);
        } else {
            assert(line[j + 1] == ':');
        }
    }
    assert(line[k.len() as int] == ':' && line[k.len() as int + 1] == ' ');
    lemma_first_pair_is(line, ':', ' ', k.len() as int);
    assert(line.take(k.len() as int) =~= k);
    assert(line.skip(k.len() as int + 2) =~= v + line_break());
    lemma_trimmed_same(k);
    lemma_trimmed_line(v);
}

/// The lines of headers are the line of the first and the lines of the rest.
pub proof fn lemma_lines_front(h: Seq<Entry>)
    requires
        h.len() > 0,
    ensures
        header_lines(h) == header_line(h[0]) + header_lines(h.drop_first()),
    decreases h.len(),
{
    if h.len() == 1 {
        assert(h.drop_last() =~= Seq::<Entry>::empty());
        assert(h.drop_first() =~= Seq::<Entry>::empty());
        assert(header_lines(h) =~= header_line(h[0]) + header_lines(h.drop_first()));
    } else {
        let t = h.drop_last();
        lemma_lines_front(t);
        assert(t.drop_first() =~= h.drop_first().drop_last());
        assert(h.drop_first().last() == h.last());
        assert(t[0] == h[0]);
        assert(header_lines(h) =~= header_line(h[0]) + header_lines(h.drop_first()));
    }
}

/// Setting many headers is setting the first and then the rest.
pub proof fn lemma_inserted_all_front(acc: Seq<Entry>, h: Seq<Entry>)
    requires
        h.len() > 0,
    ensures
        inserted_all(acc, h) == inserted_all(inserted(acc, h[0].0, h[0].1), h.drop_first()),
    decreases h.len(),
{
    if h.len() == 1 {
        assert(h.drop_last() =~= Seq::<Entry>::empty());
        assert(h.drop_first() =~= Seq::<Entry>::empty());
        assert(inserted_all(acc, h.drop_last()) == acc);
    } else {
        let t = h.drop_last();
        lemma_inserted_all_front(acc, t);
        assert(t.drop_first() =~= h.drop_first().drop_last());
        assert(h.drop_first().last() == h.last());
        assert(t[0] == h[0]);
    }
}

/// Headers that were written are read back: the bytes of their lines and
/// of the empty line behind them, with whatever follows, are read as
/// these headers, and what follows is left.
pub proof fn lemma_read_lines(h: Seq<Entry>, acc: Seq<Entry>, rest: Seq<u8>)
    requires
        forall|i: int| 0 <= i < h.len() ==> is_plain_header(#[trigger] h[i]),
    ensures
        read_headers(encode_utf8(header_lines(h) + line_break()) + rest, acc) == (
            inserted_all(acc, h),
            rest,
        ),
    decreases h.len(),
{
    let b = encode_utf8(header_lines(h) + line_break()) + rest;
    if h.len() == 0 {
        let none = Seq::<char>::empty();
        assert(header_lines(h) + line_break() =~= none + line_break());
        lemma_read_line(none, rest);
        assert(none.len() == 0);
    } else {
        let e = h[0];
        let t = h.drop_first();
        let l = e.0 + seq![':', ' '] + e.1;
        lemma_header_of(e);
        lemma_lines_front(h);
        let after = encode_utf8(header_lines(t) + line_break()) + rest;
        assert(header_lines(h) + line_break() =~= (l + line_break()) + (header_lines(t)
            + line_break()));
        lemma_encode_joined(l + line_break(), header_lines(t) + line_break());
        assert(b =~= encode_utf8(l + line_break()) + after);
        lemma_read_line(l, after);
        assert forall|i: int| 0 <= i < t.len() implies is_plain_header(#[trigger] t[i]) by {
            assert(t[i] == h[i + 1]);
        }
        lemma_read_lines(t, inserted(acc, e.0, e.1), rest);
        lemma_inserted_all_front(acc, h);
        let n = line_end(b);
        assert(n == l.len() + 2);
        assert(2 < n <= b.len());
        assert(b.take(n) == encode_utf8(l + line_break()));
        assert(b.skip(n) == after);
    }
}

/// A message that is written and read again is the message: with its
/// start line without white space around it, and with the kind of content
/// that every message is read with. This holds of every message whose
/// start line and headers can stand in lines of their own and whose
/// headers say of the body what is the case.
pub proof fn lemma_round_trip(m: Parts)
    requires
        is_plain(m),
    ensures
        read(encode_utf8(written(m))) == Some(
            Parts {
                start_line: trimmed(m.start_line),
                headers: inserted(m.headers, content_type(), json()),
                body: m.body,
            },
        ),
{
    let s = trimmed(m.start_line);
    let h = m.headers;
    // What follows the empty line that ends the headers.
    let z: Seq<char> = match m.body {
        Some(b) => b + line_break() + line_break(),
        None => if h.len() == 0 {
            line_break()
        } else {
            Seq::empty()
        },
    };
    let lines = header_lines(h) + line_break();
    assert(written(m) =~= (s + line_break()) + (lines + z)) by {
        if h.len() == 0 {
            assert(header_lines(h) =~= Seq::<char>::empty());
            assert(m.body is None) by {
                crate::headers::lemma_value_absent(h, content_length());
            }
        }
    }
    lemma_encode_joined(s + line_break(), lines + z);
    lemma_encode_joined(lines, z);
    let rest = encode_utf8(z);
    let after = encode_utf8(lines) + rest;
    let bytes = encode_utf8(written(m));
    assert(bytes == encode_utf8(s + line_break()) + after);
    lemma_read_line(s, after);
    lemma_trimmed_is_trimmed(m.start_line);
    lemma_trimmed_line(s);
    lemma_read_lines(h, Seq::empty(), rest);
    lemma_inserted_all_self(h);
    let n = line_end(bytes);
    assert(bytes.take(n) == encode_utf8(s + line_break()));
    assert(bytes.skip(n) == after);
    assert(read_headers(after, Seq::empty()) == (h, rest));
    match m.body {
        Some(b) => {
            let len = encode_utf8(b).len();
            lemma_unsigned_decimal(len, usize::MAX as nat);
            lemma_encode_joined(b, line_break() + line_break());
            assert(z =~= b + (line_break() + line_break()));
            assert(rest.take(len as int) =~= encode_utf8(b));
            encode_utf8_valid_utf8(b);
            encode_utf8_decode_utf8(b);
            assert(read_body(h, rest) == Ok::<Option<Seq<char>>, ()>(Some(b)));
        },
        None => {
            assert(read_body(h, rest) == Ok::<Option<Seq<char>>, ()>(None));
        },
    }
}

} // verus!
