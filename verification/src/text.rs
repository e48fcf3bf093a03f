//! Text as sequences of characters: the small vocabulary of trimming,
//! searching and splitting that the wire formats are written in.
//!
//! Every executable function here works on a `Vec<char>` and is specified
//! against a `spec fn` over `Seq<char>`, so that the formats built on top
//! can be stated once, mathematically, and proved against.

use vstd::prelude::*;

verus! {

/// Whether `c` has the Unicode `White_Space` property.
pub open spec fn is_space(c: char) -> bool {
    let n = c as u32;
    (9 <= n <= 13) || n == 32 || n == 0x85 || n == 0xA0 || n == 0x1680 || (0x2000 <= n <= 0x200A)
        || n == 0x2028 || n == 0x2029 || n == 0x202F || n == 0x205F || n == 0x3000
}

/// Executable form of [`is_space`].
pub fn space(c: char) -> (r: bool)
    ensures
        r == is_space(c),
{
    let n: u32 = c as u32;
    (9 <= n && n <= 13) || n == 32 || n == 0x85 || n == 0xA0 || n == 0x1680 || (0x2000 <= n && n
        <= 0x200A) || n == 0x2028 || n == 0x2029 || n == 0x202F || n == 0x205F || n == 0x3000
}

/// A class of characters to strip from a text: white space, or one given character.
#[derive(Clone, Copy)]
pub enum Strip {
    Space,
    Only(char),
}

impl Strip {
    /// Whether `c` belongs to the class.
    pub open spec fn hits(self, c: char) -> bool {
        match self {
            Strip::Space => is_space(c),
            Strip::Only(x) => c == x,
        }
    }

    /// Executable form of [`Strip::hits`].
    pub fn test(&self, c: char) -> (r: bool)
        ensures
            r == self.hits(c),
    {
        match self {
            Strip::Space => space(c),
            Strip::Only(x) => c == *x,
        }
    }
}

/// How many characters at the front of `s` belong to `k`.
pub open spec fn leading(s: Seq<char>, k: Strip) -> nat
    decreases s.len(),
{
    if s.len() > 0 && k.hits(s[0]) {
        1 + leading(s.drop_first(), k)
    } else {
        0
    }
}

/// How many characters at the back of `s` belong to `k`.
pub open spec fn trailing(s: Seq<char>, k: Strip) -> nat
    decreases s.len(),
{
    if s.len() > 0 && k.hits(s.last()) {
        1 + trailing(s.drop_last(), k)
    } else {
        0
    }
}

/// `s` without its leading run of `k`.
pub open spec fn strip_front(s: Seq<char>, k: Strip) -> Seq<char> {
    s.skip(leading(s, k) as int)
}

/// `s` without its trailing run of `k`.
pub open spec fn strip_back(s: Seq<char>, k: Strip) -> Seq<char> {
    s.take(s.len() - trailing(s, k))
}

/// `s` without leading and trailing white space.
pub open spec fn trimmed(s: Seq<char>) -> Seq<char> {
    strip_back(strip_front(s, Strip::Space), Strip::Space)
}

/// `s` with every character of `k` removed, wherever it stands.
pub open spec fn without(s: Seq<char>, k: Strip) -> Seq<char>
    decreases s.len(),
{
    if s.len() == 0 {
        s
    } else if k.hits(s.last()) {
        without(s.drop_last(), k)
    } else {
        without(s.drop_last(), k).push(s.last())
    }
}

/// `s` after taking `p` off its front as often as it stands there.
pub open spec fn strip_prefixes(s: Seq<char>, p: Seq<char>) -> Seq<char>
    decreases s.len(),
{
    if p.len() > 0 && p.is_prefix_of(s) {
        strip_prefixes(s.skip(p.len() as int), p)
    } else {
        s
    }
}

/// The first position of `x` in `s`, or `s.len()` where `x` does not occur.
pub open spec fn first_index<T>(s: Seq<T>, x: T) -> int
    decreases s.len(),
{
    if s.len() == 0 {
        0
    } else if s[0] == x {
        0
    } else {
        1 + first_index(s.drop_first(), x)
    }
}

/// What [`first_index`] finds: it is in range, nothing before it is `x`,
/// and it is `x` unless it is the end.
pub proof fn lemma_first_index<T>(s: Seq<T>, x: T)
    ensures
        0 <= first_index(s, x) <= s.len(),
        first_index(s, x) < s.len() ==> s[first_index(s, x)] == x,
        forall|j: int| 0 <= j < first_index(s, x) ==> s[j] != x,
    decreases s.len(),
{
    if s.len() > 0 && s[0] != x {
        let t = s.drop_first();
        lemma_first_index(t, x);
        assert forall|j: int| 0 <= j < first_index(s, x) implies s[j] != x by {
            if j > 0 {
                assert(s[j] == t[j - 1]);
            }
        }
    }
}

/// A position with the three properties of [`lemma_first_index`] is the first index.
pub proof fn lemma_first_index_is<T>(s: Seq<T>, x: T, i: int)
    requires
        0 <= i <= s.len(),
        i < s.len() ==> s[i] == x,
        forall|j: int| 0 <= j < i ==> s[j] != x,
    ensures
        first_index(s, x) == i,
    decreases s.len(),
{
    if s.len() > 0 && i > 0 {
        let t = s.drop_first();
        assert(s[0] != x);
        assert forall|j: int| 0 <= j < i - 1 implies t[j] != x by {
            assert(t[j] == s[j + 1]);
        }
        lemma_first_index_is(t, x, i - 1);
    }
}

/// The part of `s` before the first `sep`: all of `s` where there is none.
pub open spec fn head(s: Seq<char>, sep: char) -> Seq<char> {
    s.take(first_index(s, sep))
}

/// The part of `s` after the first `sep`, if there is one.
pub open spec fn tail(s: Seq<char>, sep: char) -> Option<Seq<char>> {
    if first_index(s, sep) < s.len() {
        Some(s.skip(first_index(s, sep) + 1))
    } else {
        None
    }
}

/// The first position at which `a` is directly followed by `b`, or `s.len()`.
pub open spec fn first_pair(s: Seq<char>, a: char, b: char) -> int
    decreases s.len(),
{
    if s.len() < 2 {
        s.len() as int
    } else if s[0] == a && s[1] == b {
        0
    } else {
        1 + first_pair(s.drop_first(), a, b)
    }
}

/// What [`first_pair`] finds.
pub proof fn lemma_first_pair(s: Seq<char>, a: char, b: char)
    ensures
        0 <= first_pair(s, a, b) <= s.len(),
        first_pair(s, a, b) < s.len() ==> first_pair(s, a, b) + 1 < s.len() && s[first_pair(
            s,
            a,
            b,
        )] == a && s[first_pair(s, a, b) + 1] == b,
        forall|j: int| 0 <= j < first_pair(s, a, b) && j + 1 < s.len() ==> !(#[trigger] s[j] == a && s[j + 1] == b),
    decreases s.len(),
{
    if s.len() >= 2 && !(s[0] == a && s[1] == b) {
        let t = s.drop_first();
        lemma_first_pair(t, a, b);
        assert forall|j: int| 0 <= j < first_pair(s, a, b) && j + 1 < s.len() implies !(#[trigger] s[j] == a
            && s[j + 1] == b) by {
            if j > 0 {
                assert(s[j] == t[j - 1]);
                assert(s[j + 1] == t[j]);
            }
        }
    }
}

/// A position with the properties of [`lemma_first_pair`] is the first pair.
pub proof fn lemma_first_pair_is(s: Seq<char>, a: char, b: char, i: int)
    requires
        0 <= i <= s.len(),
        i < s.len() ==> i + 1 < s.len() && s[i] == a && s[i + 1] == b,
        forall|j: int| 0 <= j < i && j + 1 < s.len() ==> !(#[trigger] s[j] == a && s[j + 1] == b),
    ensures
        first_pair(s, a, b) == i,
    decreases s.len(),
{
    if s.len() >= 2 && i > 0 {
        let t = s.drop_first();
        assert(!(s[0] == a && s[1] == b));
        assert forall|j: int| 0 <= j < i - 1 && j + 1 < t.len() implies !(#[trigger] t[j] == a && t[j + 1]
            == b) by {
            assert(t[j] == s[j + 1]);
            assert(t[j + 1] == s[j + 2]);
        }
        lemma_first_pair_is(t, a, b, i - 1);
    }
}

/// The characters of a string, in order.
pub fn chars_of(s: &str) -> (v: Vec<char>)
    ensures
        v@ == s@,
{
    let mut v: Vec<char> = Vec::new();
    for c in it: s.chars()
        invariant
            v@ == it.seq().take(it.index() as int),
            it.seq() == s@,
    {
        v.push(c);
    }
    v
}

/// `String::from_iter` over the characters of `v`: the string that holds
/// exactly these characters, in this order.
#[verifier::external_body]
pub(crate) fn string_of(v: &Vec<char>) -> (s: String)
    ensures
        s@ == v@,
{
    String::from_iter(v.iter())
}

/// Whether two strings hold the same characters.
pub fn same(a: &str, b: &str) -> (r: bool)
    ensures
        r == (a@ == b@),
{
    let x: String = a.to_owned();
    let y: String = b.to_owned();
    x == y
}

/// Whether `v` holds exactly the characters of `s`.
pub fn is_text(v: &Vec<char>, s: &str) -> (r: bool)
    ensures
        r == (v@ == s@),
{
    let w = chars_of(s);
    same_chars(v, &w)
}

/// Whether two character vectors are equal.
pub fn same_chars(a: &Vec<char>, b: &Vec<char>) -> (r: bool)
    ensures
        r == (a@ == b@),
{
    if a.len() != b.len() {
        return false;
    }
    let mut i: usize = 0;
    while i < a.len()
        invariant
            i <= a.len(),
            a.len() == b.len(),
            forall|j: int| 0 <= j < i ==> a@[j] == b@[j],
        decreases a.len() - i,
    {
        if a[i] != b[i] {
            return false;
        }
        i += 1;
    }
    assert(a@ =~= b@);
    true
}

/// The characters of `v` from `lo` up to, not including, `hi`.
pub fn slice_of(v: &Vec<char>, lo: usize, hi: usize) -> (r: Vec<char>)
    requires
        lo <= hi <= v.len(),
    ensures
        r@ == v@.subrange(lo as int, hi as int),
{
    let mut r: Vec<char> = Vec::new();
    let mut i: usize = lo;
    while i < hi
        invariant
            lo <= i <= hi <= v.len(),
            r@ == v@.subrange(lo as int, i as int),
        decreases hi - i,
    {
        r.push(v[i]);
        i += 1;
    }
    r
}

/// Appends the characters of `more` to `out`.
pub fn extend(out: &mut Vec<char>, more: &Vec<char>)
    ensures
        final(out)@ == old(out)@ + more@,
{
    let mut i: usize = 0;
    while i < more.len()
        invariant
            i <= more.len(),
            out@ == old(out)@ + more@.take(i as int),
        decreases more.len() - i,
    {
        out.push(more[i]);
        i += 1;
    }
    assert(more@.take(more.len() as int) =~= more@);
}

/// Appends the characters of the string `more` to `out`.
pub fn extend_str(out: &mut Vec<char>, more: &str)
    ensures
        final(out)@ == old(out)@ + more@,
{
    let w = chars_of(more);
    extend(out, &w);
}

/// The length of the leading run of `k` in `v`.
pub fn count_leading(v: &Vec<char>, k: Strip) -> (n: usize)
    ensures
        n == leading(v@, k),
        n <= v.len(),
{
    let mut i: usize = 0;
    assert(v@.skip(0) =~= v@);
    while i < v.len() && k.test(v[i])
        invariant
            i <= v.len(),
            leading(v@, k) == i + leading(v@.skip(i as int), k),
        decreases v.len() - i,
    {
        assert(v@.skip(i as int).drop_first() =~= v@.skip(i + 1));
        i += 1;
    }
    i
}

/// The length of the trailing run of `k` in `v`.
pub fn count_trailing(v: &Vec<char>, k: Strip) -> (n: usize)
    ensures
        n == trailing(v@, k),
        n <= v.len(),
{
    let mut i: usize = v.len();
    assert(v@.take(i as int) =~= v@);
    while i > 0 && k.test(v[i - 1])
        invariant
            i <= v.len(),
            trailing(v@, k) == (v.len() - i) + trailing(v@.take(i as int), k),
        decreases i,
    {
        assert(v@.take(i as int).drop_last() =~= v@.take(i - 1));
        i -= 1;
    }
    v.len() - i
}

/// [`strip_front`], executable.
pub fn strip_start(v: &Vec<char>, k: Strip) -> (r: Vec<char>)
    ensures
        r@ == strip_front(v@, k),
{
    let n = count_leading(v, k);
    slice_of(v, n, v.len())
}

/// [`strip_back`], executable.
pub fn strip_end(v: &Vec<char>, k: Strip) -> (r: Vec<char>)
    ensures
        r@ == strip_back(v@, k),
{
    let n = count_trailing(v, k);
    slice_of(v, 0, v.len() - n)
}

/// [`trimmed`], executable.
pub fn trim(v: &Vec<char>) -> (r: Vec<char>)
    ensures
        r@ == trimmed(v@),
{
    let a = strip_start(v, Strip::Space);
    strip_end(&a, Strip::Space)
}

/// [`without`], executable.
pub fn remove(v: &Vec<char>, k: Strip) -> (r: Vec<char>)
    ensures
        r@ == without(v@, k),
{
    let mut r: Vec<char> = Vec::new();
    let mut i: usize = 0;
    while i < v.len()
        invariant
            i <= v.len(),
            r@ == without(v@.take(i as int), k),
        decreases v.len() - i,
    {
        assert(v@.take(i + 1).drop_last() =~= v@.take(i as int));
        if !k.test(v[i]) {
            r.push(v[i]);
        }
        i += 1;
    }
    assert(v@.take(v.len() as int) =~= v@);
    r
}

/// Whether `p` stands in `v` at position `at`.
pub fn has_at(v: &Vec<char>, at: usize, p: &Vec<char>) -> (r: bool)
    requires
        at <= v.len(),
    ensures
        r == p@.is_prefix_of(v@.skip(at as int)),
{
    if p.len() > v.len() - at {
        return false;
    }
    let mut i: usize = 0;
    while i < p.len()
        invariant
            i <= p.len(),
            at + p.len() <= v.len(),
            forall|j: int| 0 <= j < i ==> v@[at + j] == p@[j],
        decreases p.len() - i,
    {
        if v[at + i] != p[i] {
            assert(v@.skip(at as int)[i as int] != p@[i as int]);
            return false;
        }
        i += 1;
    }
    assert(v@.skip(at as int).subrange(0, p.len() as int) =~= p@);
    true
}

/// [`strip_prefixes`], executable.
pub fn strip_prefix_run(v: &Vec<char>, p: &Vec<char>) -> (r: Vec<char>)
    ensures
        r@ == strip_prefixes(v@, p@),
{
    if p.len() == 0 {
        return slice_of(v, 0, v.len());
    }
    let mut i: usize = 0;
    assert(v@.skip(0) =~= v@);
    while has_at(v, i, p)
        invariant
            i <= v.len(),
            p.len() > 0,
            strip_prefixes(v@, p@) == strip_prefixes(v@.skip(i as int), p@),
        decreases v.len() - i,
    {
        assert(v@.skip(i as int).skip(p.len() as int) =~= v@.skip(i + p.len()));
        i += p.len();
    }
    slice_of(v, i, v.len())
}

/// [`first_index`], executable.
pub fn find(v: &Vec<char>, x: char) -> (i: usize)
    ensures
        i == first_index(v@, x),
        i <= v.len(),
{
    let mut i: usize = 0;
    while i < v.len() && v[i] != x
        invariant
            i <= v.len(),
            forall|j: int| 0 <= j < i ==> v@[j] != x,
        decreases v.len() - i,
    {
        i += 1;
    }
    proof {
        lemma_first_index_is(v@, x, i as int);
    }
    i
}

/// [`first_pair`], executable.
pub fn find_pair(v: &Vec<char>, a: char, b: char) -> (i: usize)
    ensures
        i == first_pair(v@, a, b),
        i <= v.len(),
{
    if v.len() < 2 {
        proof {
            lemma_first_pair_is(v@, a, b, v.len() as int);
        }
        return v.len();
    }
    let last: usize = v.len() - 1;
    let mut i: usize = 0;
    while i < last && !(v[i] == a && v[i + 1] == b)
        invariant
            i <= last,
            last + 1 == v.len(),
            forall|j: int| 0 <= j < i && j + 1 < v.len() ==> !(#[trigger] v@[j] == a && v@[j + 1] == b),
        decreases last - i,
    {
        i += 1;
    }
    if i == last {
        i = v.len();
    }
    proof {
        lemma_first_pair_is(v@, a, b, i as int);
    }
    i
}

/// Splits `v` at its first `sep`: what stands before it, and what stands
/// after it where there is one.
pub fn split_first(v: &Vec<char>, sep: char) -> (r: (Vec<char>, Option<Vec<char>>))
    ensures
        r.0@ == head(v@, sep),
        r.1 is Some <==> tail(v@, sep) is Some,
        r.1 is Some ==> r.1->0@ == tail(v@, sep)->0,
{
    let i = find(v, sep);
    let a = slice_of(v, 0, i);
    if i < v.len() {
        let b = slice_of(v, i + 1, v.len());
        (a, Some(b))
    } else {
        (a, None)
    }
}


/// A result whose error is text, with the error taken by its characters.
pub open spec fn outcome<T>(r: Result<T, String>) -> Result<T, Seq<char>> {
    match r {
        Ok(t) => Ok(t),
        Err(m) => Err(m@),
    }
}

/// The text `before`, then `what`, then `after`.
pub fn phrase(before: &str, what: &str, after: &str) -> (m: String)
    ensures
        m@ == before@ + what@ + after@,
{
    let mut m = String::from_str(before);
    m.append(what);
    m.append(after);
    m
}


/// A result whose error is text, with both sides taken by their views.
pub open spec fn seen<T: View>(r: Result<T, String>) -> Result<T::V, Seq<char>> {
    match r {
        Ok(t) => Ok(t@),
        Err(m) => Err(m@),
    }
}


/// `s` with `with` in the place of every `pattern`, found from the front
/// and not inside what was put in.
pub open spec fn replaced(s: Seq<char>, pattern: Seq<char>, with: Seq<char>) -> Seq<char>
    decreases s.len(),
{
    if s.len() == 0 || pattern.len() == 0 {
        s
    } else if pattern.is_prefix_of(s) {
        with + replaced(s.skip(pattern.len() as int), pattern, with)
    } else {
        seq![s[0]] + replaced(s.drop_first(), pattern, with)
    }
}

/// [`replaced`], executable.
pub fn replace(v: &Vec<char>, pattern: &Vec<char>, with: &Vec<char>) -> (r: Vec<char>)
    ensures
        r@ == replaced(v@, pattern@, with@),
{
    if pattern.len() == 0 {
        return slice_of(v, 0, v.len());
    }
    let mut r: Vec<char> = Vec::new();
    let mut i: usize = 0;
    assert(v@.skip(0) =~= v@);
    while i < v.len()
        invariant
            i <= v.len(),
            pattern.len() > 0,
            replaced(v@, pattern@, with@) == r@ + replaced(v@.skip(i as int), pattern@, with@),
        decreases v.len() - i,
    {
        let ghost rest = v@.skip(i as int);
        let ghost before = r@;
        if has_at(v, i, pattern) {
            extend(&mut r, with);
            assert(rest.skip(pattern.len() as int) =~= v@.skip(i + pattern.len()));
            assert(r@ + replaced(v@.skip(i + pattern.len()), pattern@, with@) =~= before
                + replaced(rest, pattern@, with@)) by {
                assert(replaced(rest, pattern@, with@) == with@ + replaced(
                    rest.skip(pattern.len() as int),
                    pattern@,
                    with@,
                ));
            }
            i += pattern.len();
        } else {
            r.push(v[i]);
            assert(rest.drop_first() =~= v@.skip(i + 1));
            assert(r@ + replaced(v@.skip(i + 1), pattern@, with@) =~= before + replaced(
                rest,
                pattern@,
                with@,
            )) by {
                assert(replaced(rest, pattern@, with@) == seq![rest[0]] + replaced(
                    rest.drop_first(),
                    pattern@,
                    with@,
                ));
            }
            i += 1;
        }
    }
    assert(v@.skip(v.len() as int) =~= Seq::<char>::empty());
    assert(r@ + Seq::<char>::empty() =~= r@);
    r
}


/// `s` after taking `p` off its end as often as it stands there.
pub open spec fn strip_suffixes(s: Seq<char>, p: Seq<char>) -> Seq<char>
    decreases s.len(),
{
    if p.len() > 0 && p.len() <= s.len() && s.skip(s.len() - p.len()) == p {
        strip_suffixes(s.take(s.len() - p.len()), p)
    } else {
        s
    }
}

/// [`strip_suffixes`], executable.
pub fn strip_suffix_run(v: &Vec<char>, p: &Vec<char>) -> (r: Vec<char>)
    ensures
        r@ == strip_suffixes(v@, p@),
{
    if p.len() == 0 {
        return slice_of(v, 0, v.len());
    }
    let mut end: usize = v.len();
    assert(v@.take(end as int) =~= v@);
    while ends_at(v, end, p)
        invariant
            end <= v.len(),
            p.len() > 0,
            strip_suffixes(v@, p@) == strip_suffixes(v@.take(end as int), p@),
        decreases end,
    {
        proof {
            let s = v@.take(end as int);
            assert(s.skip(s.len() - p.len()) =~= v@.subrange(end - p.len(), end as int));
            assert(s.take(s.len() - p.len()) =~= v@.take(end - p.len()));
        }
        end -= p.len();
    }
    proof {
        let s = v@.take(end as int);
        if p.len() <= s.len() {
            assert(s.skip(s.len() - p.len()) =~= v@.subrange(end - p.len(), end as int));
        }
    }
    slice_of(v, 0, end)
}

/// Whether `p` stands in `v` directly before position `end`.
pub fn ends_at(v: &Vec<char>, end: usize, p: &Vec<char>) -> (r: bool)
    requires
        end <= v.len(),
    ensures
        r == (p.len() <= end && v@.subrange(end - p.len(), end as int) == p@),
{
    if p.len() > end {
        return false;
    }
    let start = end - p.len();
    let mut i: usize = 0;
    while i < p.len()
        invariant
            i <= p.len(),
            start + p.len() == end,
            end <= v.len(),
            forall|j: int| 0 <= j < i ==> v@[start + j] == p@[j],
        decreases p.len() - i,
    {
        if v[start + i] != p[i] {
            assert(v@.subrange(start as int, end as int)[i as int] != p@[i as int]);
            return false;
        }
        i += 1;
    }
    assert(v@.subrange(start as int, end as int) =~= p@);
    true
}


/// A text that holds no character of a class is left as it is when the
/// class is removed.
pub proof fn lemma_without_none(s: Seq<char>, k: Strip)
    requires
        forall|i: int| 0 <= i < s.len() ==> !k.hits(#[trigger] s[i]),
    ensures
        without(s, k) == s,
    decreases s.len(),
{
    if s.len() > 0 {
        let t = s.drop_last();
        assert forall|i: int| 0 <= i < t.len() implies !k.hits(#[trigger] t[i]) by {
            assert(t[i] == s[i]);
        }
        lemma_without_none(t, k);
        assert(!k.hits(s.last()));
        assert(t.push(s.last()) =~= s);
    }
}

/// A text that starts with one `c` and goes on with another character
/// loses that one `c` at its front.
pub proof fn lemma_strip_front_one(s: Seq<char>, c: char)
    requires
        s.len() >= 1,
        s[0] == c,
        s.len() == 1 || s[1] != c,
    ensures
        strip_front(s, Strip::Only(c)) == s.skip(1),
{
    let t = s.drop_first();
    assert(leading(t, Strip::Only(c)) == 0) by {
        if t.len() > 0 {
            assert(t[0] == s[1]);
        }
    }
    assert(leading(s, Strip::Only(c)) == 1);
}

/// A text that ends with one `c` behind another character loses that one
/// `c` at its end.
pub proof fn lemma_strip_back_one(s: Seq<char>, c: char)
    requires
        s.len() >= 1,
        s.last() == c,
        s.len() == 1 || s[s.len() - 2] != c,
    ensures
        strip_back(s, Strip::Only(c)) == s.drop_last(),
{
    let t = s.drop_last();
    assert(trailing(t, Strip::Only(c)) == 0) by {
        if t.len() > 0 {
            assert(t.last() == s[s.len() - 2]);
        }
    }
    assert(trailing(s, Strip::Only(c)) == 1);
}

/// A text is cut at its first separator: where `a` holds none, `a`, the
/// separator and `b` are cut into `a` and `b`.
pub proof fn lemma_split(a: Seq<char>, b: Seq<char>, sep: char)
    requires
        forall|i: int| 0 <= i < a.len() ==> #[trigger] a[i] != sep,
    ensures
        head(a + seq![sep] + b, sep) == a,
        tail(a + seq![sep] + b, sep) == Some(b),
        head(a, sep) == a,
        tail(a, sep) is None,
{
    let s = a + seq![sep] + b;
    assert forall|j: int| 0 <= j < a.len() implies s[j] != sep by {
        assert(s[j] == a[j]);
    }
    assert(s[a.len() as int] == sep);
    lemma_first_index_is(s, sep, a.len() as int);
    assert(s.take(a.len() as int) =~= a);
    assert(s.skip(a.len() as int + 1) =~= b);
    lemma_first_index_is(a, sep, a.len() as int);
    assert(a.take(a.len() as int) =~= a);
}

/// A prefix that stands once at the front of a text is taken off once.
pub proof fn lemma_strip_prefix_once(p: Seq<char>, r: Seq<char>)
    requires
        p.len() > 0,
        !p.is_prefix_of(r),
    ensures
        strip_prefixes(p + r, p) == r,
{
    let s = p + r;
    assert(s.subrange(0, p.len() as int) =~= p);
    assert(p.is_prefix_of(s));
    assert(s.skip(p.len() as int) =~= r);
    assert(strip_prefixes(r, p) == r);
    assert(strip_prefixes(s, p) == strip_prefixes(s.skip(p.len() as int), p));
}


/// What [`trailing`] counts: it is in range, and the character before the
/// run, if there is one, is not of the class.
pub proof fn lemma_trailing(s: Seq<char>, k: Strip)
    ensures
        trailing(s, k) <= s.len(),
        trailing(s, k) < s.len() ==> !k.hits(s[s.len() - trailing(s, k) - 1]),
        forall|i: int| s.len() - trailing(s, k) <= i < s.len() ==> k.hits(#[trigger] s[i]),
    decreases s.len(),
{
    if s.len() > 0 && k.hits(s.last()) {
        let t = s.drop_last();
        lemma_trailing(t, k);
        assert forall|i: int| s.len() - trailing(s, k) <= i < s.len() implies k.hits(
            #[trigger] s[i],
        ) by {
            if i < t.len() {
                assert(s[i] == t[i]);
            }
        }
        if trailing(s, k) < s.len() {
            assert(s[s.len() - trailing(s, k) - 1] == t[t.len() - trailing(t, k) - 1]);
        }
    }
}

/// A text that ends in no character of the class has no trailing run of it.
pub proof fn lemma_no_trailing(s: Seq<char>, k: Strip)
    requires
        s.len() == 0 || !k.hits(s.last()),
    ensures
        trailing(s, k) == 0,
        strip_back(s, k) == s,
{
    assert(s.take(s.len() as int) =~= s);
}

/// What [`leading`] counts: it is in range, the characters of the run are
/// of the class, and the character behind the run, if there is one, is not.
pub proof fn lemma_leading(s: Seq<char>, k: Strip)
    ensures
        leading(s, k) <= s.len(),
        leading(s, k) < s.len() ==> !k.hits(s[leading(s, k) as int]),
        forall|i: int| 0 <= i < leading(s, k) ==> k.hits(#[trigger] s[i]),
    decreases s.len(),
{
    if s.len() > 0 && k.hits(s[0]) {
        let t = s.drop_first();
        lemma_leading(t, k);
        assert forall|i: int| 0 <= i < leading(s, k) implies k.hits(#[trigger] s[i]) by {
            if i > 0 {
                assert(s[i] == t[i - 1]);
            }
        }
        if leading(s, k) < s.len() {
            assert(s[leading(s, k) as int] == t[leading(t, k) as int]);
        }
    }
}

/// Whether a text has no white space at its front and none at its end.
pub open spec fn is_trimmed(s: Seq<char>) -> bool {
    s.len() == 0 || (!is_space(s[0]) && !is_space(s.last()))
}

/// A text without white space around it is left as it is.
pub proof fn lemma_trimmed_same(s: Seq<char>)
    requires
        is_trimmed(s),
    ensures
        trimmed(s) == s,
{
    assert(leading(s, Strip::Space) == 0);
    assert(s.skip(0) =~= s);
    lemma_no_trailing(s, Strip::Space);
}

/// What is left of a text without the white space around it has none
/// around it.
pub proof fn lemma_trimmed_is_trimmed(s: Seq<char>)
    ensures
        is_trimmed(trimmed(s)),
{
    lemma_leading(s, Strip::Space);
    let a = strip_front(s, Strip::Space);
    lemma_trailing(a, Strip::Space);
    let b = strip_back(a, Strip::Space);
    if b.len() > 0 {
        assert(b[0] == a[0]);
        assert(a[0] == s[leading(s, Strip::Space) as int]);
        assert(b.last() == a[a.len() - trailing(a, Strip::Space) - 1]);
    }
}

/// A line break behind a text without white space around it is taken off
/// with the white space.
pub proof fn lemma_trimmed_line(s: Seq<char>)
    requires
        is_trimmed(s),
    ensures
        trimmed(s + seq!['\r', '\n']) == s,
{
    let l = s + seq!['\r', '\n'];
    let k = Strip::Space;
    if s.len() == 0 {
        assert(l =~= seq!['\r', '\n']);
        assert(l.drop_first() =~= seq!['\n']);
        assert(l.drop_first().drop_first() =~= Seq::<char>::empty());
        assert(leading(l.drop_first().drop_first(), k) == 0);
        assert(leading(l.drop_first(), k) == 1);
        assert(leading(l, k) == 2);
        assert(strip_front(l, k) =~= Seq::<char>::empty());
        assert(trimmed(l) =~= s);
    } else {
        assert(l[0] == s[0]);
        assert(leading(l, k) == 0);
        assert(strip_front(l, k) =~= l);
        assert(l.drop_last() =~= s + seq!['\r']);
        assert(l.drop_last().drop_last() =~= s);
        lemma_no_trailing(s, k);
        assert(trailing(l.drop_last(), k) == 1);
        assert(trailing(l, k) == 2);
        assert(strip_back(l, k) =~= s);
    }
}

} // verus!
