//! The headers of a message: a mapping from key to value, kept in ascending
//! order of its keys so that it is written the same way every time.

use vstd::prelude::*;

use crate::text::{chars_of, same};

verus! {

/// A header as it is spoken of in contracts: key and value, by their characters.
pub type Entry = (Seq<char>, Seq<char>);

/// Whether `a` stands before `b` in the order of texts: character by
/// character, by code point, a proper prefix first.
pub open spec fn before(a: Seq<char>, b: Seq<char>) -> bool
    decreases a.len(),
{
    if b.len() == 0 {
        false
    } else if a.len() == 0 {
        true
    } else if a[0] != b[0] {
        (a[0] as u32) < (b[0] as u32)
    } else {
        before(a.drop_first(), b.drop_first())
    }
}

/// No text stands before itself.
pub proof fn lemma_before_irreflexive(a: Seq<char>)
    ensures
        !before(a, a),
    decreases a.len(),
{
    if a.len() > 0 {
        lemma_before_irreflexive(a.drop_first());
    }
}

/// Of two different texts one stands before the other.
pub proof fn lemma_before_total(a: Seq<char>, b: Seq<char>)
    ensures
        a == b || before(a, b) || before(b, a),
    decreases a.len(),
{
    if a.len() > 0 && b.len() > 0 && a[0] == b[0] {
        lemma_before_total(a.drop_first(), b.drop_first());
        if a.drop_first() == b.drop_first() {
            assert(a =~= seq![a[0]] + a.drop_first());
            assert(b =~= seq![b[0]] + b.drop_first());
            assert(a =~= b);
        }
    } else if a.len() > 0 && b.len() > 0 {
        vstd::utf8::char_u32_cast(a[0], a[0] as u32);
        vstd::utf8::char_u32_cast(b[0], b[0] as u32);
    } else if a.len() == 0 && b.len() == 0 {
        assert(a =~= b);
    }
}

/// The order of texts is transitive.
pub proof fn lemma_before_transitive(a: Seq<char>, b: Seq<char>, c: Seq<char>)
    requires
        before(a, b),
        before(b, c),
    ensures
        before(a, c),
    decreases a.len(),
{
    if a.len() > 0 && a[0] == b[0] && b[0] == c[0] {
        lemma_before_transitive(a.drop_first(), b.drop_first(), c.drop_first());
    }
}

/// Whether the keys of `s` ascend strictly, so that none occurs twice.
pub open spec fn ascending(s: Seq<Entry>) -> bool {
    forall|i: int, j: int| 0 <= i < j < s.len() ==> before(#[trigger] s[i].0, #[trigger] s[j].0)
}

/// How many entries at the front of `s` have a key before `k`.
pub open spec fn rank(s: Seq<Entry>, k: Seq<char>) -> int
    decreases s.len(),
{
    if s.len() > 0 && before(s[0].0, k) {
        1 + rank(s.drop_first(), k)
    } else {
        0
    }
}

/// `s` with the value of `k` set to `v`: in the place of the entry of `k`
/// where there is one, and else in the place that keeps the order.
pub open spec fn inserted(s: Seq<Entry>, k: Seq<char>, v: Seq<char>) -> Seq<Entry> {
    let p = rank(s, k);
    if p < s.len() && s[p].0 == k {
        s.update(p, (k, v))
    } else {
        s.insert(p, (k, v))
    }
}

/// `s` with each entry of `more` set, in the order of `more`.
pub open spec fn inserted_all(s: Seq<Entry>, more: Seq<Entry>) -> Seq<Entry>
    decreases more.len(),
{
    if more.len() == 0 {
        s
    } else {
        let t = inserted_all(s, more.drop_last());
        inserted(t, more.last().0, more.last().1)
    }
}

/// The value that `s` holds for `k`, if it holds one.
pub open spec fn value_of(s: Seq<Entry>, k: Seq<char>) -> Option<Seq<char>>
    decreases s.len(),
{
    if s.len() == 0 {
        None
    } else if s[0].0 == k {
        Some(s[0].1)
    } else {
        value_of(s.drop_first(), k)
    }
}

/// What [`rank`] counts: every entry before it has a key before `k`, and the
/// entry at it has not.
pub proof fn lemma_rank(s: Seq<Entry>, k: Seq<char>)
    ensures
        0 <= rank(s, k) <= s.len(),
        forall|i: int| 0 <= i < rank(s, k) ==> before(#[trigger] s[i].0, k),
        rank(s, k) < s.len() ==> !before(s[rank(s, k)].0, k),
    decreases s.len(),
{
    if s.len() > 0 && before(s[0].0, k) {
        let t = s.drop_first();
        lemma_rank(t, k);
        assert forall|i: int| 0 <= i < rank(s, k) implies before(#[trigger] s[i].0, k) by {
            if i > 0 {
                assert(s[i] == t[i - 1]);
            }
        }
    }
}

/// A position with the properties of [`lemma_rank`] is the rank.
pub proof fn lemma_rank_is(s: Seq<Entry>, k: Seq<char>, p: int)
    requires
        0 <= p <= s.len(),
        forall|i: int| 0 <= i < p ==> before(#[trigger] s[i].0, k),
        p < s.len() ==> !before(s[p].0, k),
    ensures
        rank(s, k) == p,
    decreases s.len(),
{
    if s.len() > 0 && p > 0 {
        let t = s.drop_first();
        assert(before(s[0].0, k));
        assert forall|i: int| 0 <= i < p - 1 implies before(#[trigger] t[i].0, k) by {
            assert(t[i] == s[i + 1]);
        }
        lemma_rank_is(t, k, p - 1);
    }
}

/// Setting a value keeps the keys in ascending order.
pub proof fn lemma_inserted_ascending(s: Seq<Entry>, k: Seq<char>, v: Seq<char>)
    requires
        ascending(s),
    ensures
        ascending(inserted(s, k, v)),
{
    let p = rank(s, k);
    let r = inserted(s, k, v);
    lemma_rank(s, k);
    if p < s.len() && s[p].0 == k {
        assert forall|i: int, j: int| 0 <= i < j < r.len() implies before(
            #[trigger] r[i].0,
            #[trigger] r[j].0,
        ) by {
            assert(r[i].0 == s[i].0 && r[j].0 == s[j].0);
        }
    } else {
        assert forall|i: int, j: int| 0 <= i < j < r.len() implies before(
            #[trigger] r[i].0,
            #[trigger] r[j].0,
        ) by {
            if j < p {
                assert(r[i] == s[i] && r[j] == s[j]);
            } else if j == p {
                assert(r[i] == s[i]);
            } else if i == p {
                assert(r[j] == s[j - 1]);
                lemma_before_total(s[p].0, k);
                if j - 1 > p {
                    assert(before(s[p].0, s[j - 1].0));
                    lemma_before_transitive(k, s[p].0, s[j - 1].0);
                }
            } else if i < p {
                assert(r[i] == s[i] && r[j] == s[j - 1]);
            } else {
                assert(r[i] == s[i - 1] && r[j] == s[j - 1]);
            }
        }
    }
}

/// Setting many values keeps the keys in ascending order.
pub proof fn lemma_inserted_all_ascending(s: Seq<Entry>, more: Seq<Entry>)
    requires
        ascending(s),
    ensures
        ascending(inserted_all(s, more)),
    decreases more.len(),
{
    if more.len() > 0 {
        lemma_inserted_all_ascending(s, more.drop_last());
        lemma_inserted_ascending(
            inserted_all(s, more.drop_last()),
            more.last().0,
            more.last().1,
        );
    }
}

/// In ascending entries, the value held for the key of an entry is that entry's.
pub proof fn lemma_value_at(s: Seq<Entry>, i: int)
    requires
        ascending(s),
        0 <= i < s.len(),
    ensures
        value_of(s, s[i].0) == Some(s[i].1),
    decreases s.len(),
{
    if i > 0 {
        let t = s.drop_first();
        assert(before(s[0].0, s[i].0));
        lemma_before_irreflexive(s[i].0);
        assert forall|a: int, b: int| 0 <= a < b < t.len() implies before(
            #[trigger] t[a].0,
            #[trigger] t[b].0,
        ) by {
            assert(t[a] == s[a + 1] && t[b] == s[b + 1]);
        }
        assert(t[i - 1] == s[i]);
        lemma_value_at(t, i - 1);
    }
}

/// A key that no entry has is held with no value.
pub proof fn lemma_value_absent(s: Seq<Entry>, k: Seq<char>)
    requires
        forall|i: int| 0 <= i < s.len() ==> (#[trigger] s[i]).0 != k,
    ensures
        value_of(s, k) is None,
    decreases s.len(),
{
    if s.len() > 0 {
        let t = s.drop_first();
        assert(s[0].0 != k);
        assert forall|i: int| 0 <= i < t.len() implies (#[trigger] t[i]).0 != k by {
            assert(t[i] == s[i + 1]);
        }
        lemma_value_absent(t, k);
    }
}

/// A key that is held with a value is the key of an entry with that value.
pub proof fn lemma_value_found(s: Seq<Entry>, k: Seq<char>) -> (i: int)
    requires
        value_of(s, k) is Some,
    ensures
        0 <= i < s.len(),
        s[i].0 == k,
        s[i].1 == value_of(s, k)->0,
    decreases s.len(),
{
    if s[0].0 == k {
        0
    } else {
        let t = s.drop_first();
        let j = lemma_value_found(t, k);
        assert(t[j] == s[j + 1]);
        j + 1
    }
}

/// The mapping law of the headers: after `k` is set to `v`, `k` holds `v`
/// and every other key holds what it held.
pub proof fn lemma_inserted_value(s: Seq<Entry>, k: Seq<char>, v: Seq<char>, other: Seq<char>)
    requires
        ascending(s),
    ensures
        value_of(inserted(s, k, v), k) == Some(v),
        other != k ==> value_of(inserted(s, k, v), other) == value_of(s, other),
{
    let p = rank(s, k);
    let r = inserted(s, k, v);
    lemma_rank(s, k);
    lemma_inserted_ascending(s, k, v);
    assert(r[p] == (k, v));
    lemma_value_at(r, p);
    if other != k {
        if value_of(s, other) is Some {
            let i = lemma_value_found(s, other);
            let j = if p < s.len() && s[p].0 == k {
                i
            } else if i < p {
                i
            } else {
                i + 1
            };
            assert(r[j] == s[i]);
            lemma_value_at(r, j);
        } else {
            if value_of(r, other) is Some {
                let j = lemma_value_found(r, other);
                let i = if p < s.len() && s[p].0 == k {
                    j
                } else if j < p {
                    j
                } else {
                    j - 1
                };
                assert(j != p);
                assert(s[i] == r[j]);
                lemma_value_at(s, i);
            }
        }
    }
}

/// Ascending entries, set one after the other into nothing, give themselves.
pub proof fn lemma_inserted_all_self(s: Seq<Entry>)
    requires
        ascending(s),
    ensures
        inserted_all(Seq::empty(), s) == s,
    decreases s.len(),
{
    if s.len() > 0 {
        let t = s.drop_last();
        assert forall|a: int, b: int| 0 <= a < b < t.len() implies before(
            #[trigger] t[a].0,
            #[trigger] t[b].0,
        ) by {
            assert(t[a] == s[a] && t[b] == s[b]);
        }
        lemma_inserted_all_self(t);
        assert forall|i: int| 0 <= i < t.len() implies before(#[trigger] t[i].0, s.last().0) by {
            assert(t[i] == s[i]);
        }
        lemma_rank_is(t, s.last().0, t.len() as int);
        assert(inserted(t, s.last().0, s.last().1) =~= s);
    } else {
        assert(inserted_all(Seq::empty(), s) =~= s);
    }
}

/// Whether `a` stands before `b` in the order of texts.
pub fn precedes(a: &str, b: &str) -> (r: bool)
    ensures
        r == before(a@, b@),
{
    let x = chars_of(a);
    let y = chars_of(b);
    let mut i: usize = 0;
    assert(x@.skip(0) =~= x@ && y@.skip(0) =~= y@);
    while i < x.len() && i < y.len() && x[i] == y[i]
        invariant
            i <= x.len(),
            i <= y.len(),
            before(x@, y@) == before(x@.skip(i as int), y@.skip(i as int)),
        decreases x.len() - i,
    {
        assert(x@.skip(i as int).drop_first() =~= x@.skip(i + 1));
        assert(y@.skip(i as int).drop_first() =~= y@.skip(i + 1));
        i += 1;
    }
    if i >= y.len() {
        false
    } else if i >= x.len() {
        true
    } else {
        (x[i] as u32) < (y[i] as u32)
    }
}

/// The headers of a message.
#[derive(PartialEq, Debug)]
pub struct Headers {
    entries: Vec<(String, String)>,
}

impl View for Headers {
    type V = Seq<Entry>;

    /// The entries in the order in which they are held and written.
    closed spec fn view(&self) -> Seq<Entry> {
        self.entries@.map_values(|e: (String, String)| (e.0@, e.1@))
    }
}

impl Headers {
    #[verifier::type_invariant]
    closed spec fn ordered(self) -> bool {
        ascending(self@)
    }

    /// Headers without an entry.
    pub fn new() -> (h: Headers)
        ensures
            h@ == Seq::<Entry>::empty(),
    {
        let h = Headers { entries: Vec::new() };
        assert(h@ =~= Seq::<Entry>::empty());
        h
    }

    /// The keys of headers ascend: no key is held twice.
    pub fn check(&self)
        ensures
            ascending(self@),
    {
        proof {
            use_type_invariant(self);
        }
    }

    /// How many entries there are.
    pub fn len(&self) -> (n: usize)
        ensures
            n == self@.len(),
    {
        self.entries.len()
    }

    /// The key of the entry at `i`.
    pub fn key(&self, i: usize) -> (k: &String)
        requires
            i < self@.len(),
        ensures
            k@ == self@[i as int].0,
    {
        &self.entries[i].0
    }

    /// The value of the entry at `i`.
    pub fn value(&self, i: usize) -> (v: &String)
        requires
            i < self@.len(),
        ensures
            v@ == self@[i as int].1,
    {
        &self.entries[i].1
    }

    /// The headers with the value of `key` set to `value`.
    pub fn insert(self, key: String, value: String) -> (r: Headers)
        ensures
            r@ == inserted(self@, key@, value@),
    {
        proof {
            use_type_invariant(&self);
            lemma_inserted_ascending(self@, key@, value@);
        }
        let mut entries = self.entries;
        let mut i: usize = 0;
        while i < entries.len() && precedes(entries[i].0.as_str(), key.as_str())
            invariant
                i <= entries.len(),
                entries == self.entries,
                forall|j: int| 0 <= j < i ==> before(#[trigger] self@[j].0, key@),
            decreases entries.len() - i,
        {
            i += 1;
        }
        proof {
            lemma_rank_is(self@, key@, i as int);
        }
        if i < entries.len() && same(entries[i].0.as_str(), key.as_str()) {
            entries.set(i, (key, value));
        } else {
            entries.insert(i, (key, value));
        }
        assert(entries@.map_values(|e: (String, String)| (e.0@, e.1@)) =~= inserted(
            self@,
            key@,
            value@,
        ));
        Headers { entries }
    }

    /// Second headers equal to these.
    pub fn copy(&self) -> (r: Headers)
        ensures
            r@ == self@,
    {
        proof {
            use_type_invariant(self);
        }
        let mut entries: Vec<(String, String)> = Vec::new();
        let mut i: usize = 0;
        while i < self.entries.len()
            invariant
                i <= self.entries.len(),
                entries@.len() == i,
                forall|j: int|
                    0 <= j < i ==> (#[trigger] entries@[j]).0@ == self.entries@[j].0@
                        && entries@[j].1@ == self.entries@[j].1@,
            decreases self.entries.len() - i,
        {
            let key = self.entries[i].0.clone();
            let value = self.entries[i].1.clone();
            entries.push((key, value));
            i += 1;
        }
        assert(entries@.map_values(|e: (String, String)| (e.0@, e.1@)) =~= self@);
        Headers { entries }
    }

    /// The value that is held for `key`, if one is.
    pub fn get(&self, key: &str) -> (r: Option<&String>)
        ensures
            r is Some <==> value_of(self@, key@) is Some,
            r is Some ==> r->0@ == value_of(self@, key@)->0,
    {
        let mut i: usize = 0;
        assert(self@.skip(0) =~= self@);
        while i < self.entries.len()
            invariant
                i <= self.entries.len(),
                value_of(self@, key@) == value_of(self@.skip(i as int), key@),
            decreases self.entries.len() - i,
        {
            if same(self.entries[i].0.as_str(), key) {
                return Some(&self.entries[i].1);
            }
            assert(self@.skip(i as int).drop_first() =~= self@.skip(i + 1));
            i += 1;
        }
        None
    }
}

} // verus!
