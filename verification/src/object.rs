//! The flat objects in which data and commands are written: fields in
//! quotes between braces, with commas between them.

use vstd::prelude::*;

use crate::text::{
    chars_of, remove, string_of, strip_back, strip_end, strip_front, strip_prefix_run,
    strip_prefixes, strip_start, without, Strip,
};

verus! {

/// What stands between the braces of an object: the text without any white
/// space, without the braces at its front and without those at its end.
pub open spec fn inner(s: Seq<char>) -> Seq<char> {
    strip_back(strip_front(without(s, Strip::Space), Strip::Only('{')), Strip::Only('}'))
}

/// What a piece of an object holds behind `label`: the piece without the
/// label at its front, as often as it stands there, and without the quotes
/// at its end.
pub open spec fn field(piece: Seq<char>, label: Seq<char>) -> Seq<char> {
    strip_back(strip_prefixes(piece, label), Strip::Only('"'))
}

/// Whether `c` is a character that a field can hold without harm: no
/// white space, comma, quote or brace.
pub open spec fn is_plain(c: char) -> bool {
    !crate::text::is_space(c) && c != ',' && c != '"' && c != '{' && c != '}'
}

/// Whether a text is made of plain characters only.
pub open spec fn all_plain(s: Seq<char>) -> bool {
    forall|i: int| 0 <= i < s.len() ==> is_plain(#[trigger] s[i])
}

/// A field that is written behind its label and closed by a quote is read
/// back, if it neither starts with the label again nor ends in a quote.
pub proof fn lemma_field(label: Seq<char>, x: Seq<char>)
    requires
        label.len() > 0,
        !label.is_prefix_of(x + seq!['"']),
        x.len() == 0 || x.last() != '"',
    ensures
        field(label + x + seq!['"'], label) == x,
{
    let r = x + seq!['"'];
    assert(label + x + seq!['"'] =~= label + r);
    crate::text::lemma_strip_prefix_once(label, r);
    if x.len() > 0 {
        assert(r[r.len() - 2] == x.last());
    }
    crate::text::lemma_strip_back_one(r, '"');
    assert(r.drop_last() =~= x);
}

/// An object that is written without white space, with one brace at each
/// end and none directly inside them, is read as what stands between its
/// braces.
pub proof fn lemma_inner(body: Seq<char>)
    requires
        body.len() > 0,
        body[0] != '{',
        body.last() != '}',
        forall|i: int| 0 <= i < body.len() ==> !crate::text::is_space(#[trigger] body[i]),
    ensures
        inner(seq!['{'] + body + seq!['}']) == body,
{
    let s = seq!['{'] + body + seq!['}'];
    assert forall|i: int| 0 <= i < s.len() implies !Strip::Space.hits(#[trigger] s[i]) by {
        if 0 < i <= body.len() {
            assert(s[i] == body[i - 1]);
        }
    }
    crate::text::lemma_without_none(s, Strip::Space);
    assert(s[1] == body[0]);
    crate::text::lemma_strip_front_one(s, '{');
    let t = s.skip(1);
    assert(t =~= body + seq!['}']);
    assert(t[t.len() - 2] == body.last());
    crate::text::lemma_strip_back_one(t, '}');
    assert(t.drop_last() =~= body);
}

/// [`inner`], executable.
pub fn inner_of(v: &Vec<char>) -> (r: Vec<char>)
    ensures
        r@ == inner(v@),
{
    let t = remove(v, Strip::Space);
    let t = strip_start(&t, Strip::Only('{'));
    strip_end(&t, Strip::Only('}'))
}

/// [`field`], executable.
pub fn field_of(piece: &Vec<char>, label: &str) -> (r: String)
    ensures
        r@ == field(piece@, label@),
{
    let t = strip_prefix_run(piece, &chars_of(label));
    string_of(&strip_end(&t, Strip::Only('"')))
}

} // verus!
