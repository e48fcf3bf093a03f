//! Numbers with a fraction, as the devices write them: a finite decimal,
//! kept exactly.
//!
//! A number is a sign, a whole part and the digits of its fraction. Every
//! number has one form only: at least one digit behind the point, no zero
//! at the end of a longer fraction, and no negative zero.

use vstd::prelude::*;

use crate::digits::{
    all_digits, decimal, digit, digit_char, digit_of, digit_value, is_digit, lemma_decimal,
    integer, number, only_digits, push_decimal, read_integer, read_natural,
};
use crate::text::{
    chars_of, count_trailing, extend, find, first_index, lemma_first_index_is, slice_of, string_of,
    lemma_no_trailing, lemma_trailing, strip_back, trailing, Strip,
};

verus! {

/// A number as contracts speak of it.
pub ghost struct Decimal {
    pub negative: bool,
    pub whole: nat,
    pub digits: Seq<u8>,
}

/// The largest whole part that a number can have.
pub open spec fn whole_limit() -> nat {
    u128::MAX as nat
}

impl Decimal {
    /// Whether this is the one form of its number.
    pub open spec fn wf(self) -> bool {
        &&& self.whole <= whole_limit()
        &&& self.digits.len() >= 1
        &&& forall|i: int| 0 <= i < self.digits.len() ==> #[trigger] self.digits[i] <= 9
        &&& (self.digits.len() == 1 || self.digits.last() != 0)
        &&& !(self.negative && self.is_zero())
    }

    /// Whether the number is zero.
    pub open spec fn is_zero(self) -> bool {
        self.whole == 0 && self.digits == seq![0u8]
    }

    /// Whether the number has no fraction.
    pub open spec fn is_whole(self) -> bool {
        self.digits == seq![0u8]
    }

    /// The number in writing: `-` where it is negative, the whole part, a
    /// point, and the digits of the fraction.
    pub open spec fn text(self) -> Seq<char> {
        (if self.negative {
            seq!['-']
        } else {
            Seq::empty()
        }) + decimal(self.whole) + seq!['.'] + self.digits.map_values(|d: u8| digit(d as nat))
    }

    /// The number written as briefly as it can be: a whole number without
    /// point and fraction, any other as in [`Decimal::text`].
    pub open spec fn brief(self) -> Seq<char> {
        if self.is_whole() {
            (if self.negative {
                seq!['-']
            } else {
                Seq::empty()
            }) + decimal(self.whole)
        } else {
            self.text()
        }
    }
}

/// The digits of a fraction as it is written in `f`: without the zeros at
/// its end, and one zero where nothing is left.
pub open spec fn fraction_of(f: Seq<char>) -> Seq<u8> {
    let t = strip_back(f, Strip::Only('0'));
    if t.len() == 0 {
        seq![0u8]
    } else {
        t.map_values(|c: char| digit_value(c) as u8)
    }
}

/// The most places by which an exponent may move the point of a number.
pub open spec fn exponent_limit() -> nat {
    1000
}

/// `k` zeros in writing.
pub open spec fn zero_text(k: nat) -> Seq<char> {
    Seq::new(k, |i: int| '0')
}

/// Where the exponent of a number is marked in `s`: at the first `e` or `E`,
/// or at the end where there is neither.
pub open spec fn mark(s: Seq<char>) -> int {
    if first_index(s, 'e') <= first_index(s, 'E') {
        first_index(s, 'e')
    } else {
        first_index(s, 'E')
    }
}

/// The digits before and behind the point, once the point between `w` and
/// `f` has moved `e` places to the right, or to the left where `e` is
/// negative. Zeros fill the places that it passes beyond the digits.
pub open spec fn moved(w: Seq<char>, f: Seq<char>, e: int) -> (Seq<char>, Seq<char>) {
    if e == 0 {
        (w, f)
    } else if e > 0 {
        let g = f + zero_text(e as nat);
        (w + g.take(e), g.skip(e))
    } else {
        let v = zero_text((-e) as nat) + w;
        (v.take(v.len() + e), v.skip(v.len() + e) + f)
    }
}

/// The exponent of the number written in `body`: what follows the mark, an
/// optional sign and digits, which must not pass [`exponent_limit`] on
/// either side of zero. Where there is no mark, the exponent is zero.
pub open spec fn exponent(body: Seq<char>) -> Option<int> {
    if mark(body) < body.len() {
        integer(body.skip(mark(body) + 1), -(exponent_limit() as int), exponent_limit() as int)
    } else {
        Some(0)
    }
}

/// What a text without a sign denotes as a number, as its whole part and
/// the digits of its fraction: digits with or without a point among them,
/// before them or behind them, and then, if there is one, `e` or `E` and an
/// exponent of ten. At least one digit must stand before the exponent, and
/// the whole part of the number must not pass [`whole_limit`].
pub open spec fn magnitude(body: Seq<char>) -> Option<(nat, Seq<u8>)> {
    let mantissa = body.take(mark(body));
    let p = first_index(mantissa, '.');
    let w = mantissa.take(p);
    let f = if p < mantissa.len() {
        mantissa.skip(p + 1)
    } else {
        Seq::empty()
    };
    if all_digits(w) && all_digits(f) && w.len() + f.len() > 0 && exponent(body) is Some {
        let (whole, fraction) = moved(w, f, exponent(body)->0);
        if number(whole) <= whole_limit() {
            Some((number(whole), fraction_of(fraction)))
        } else {
            None
        }
    } else {
        None
    }
}

/// What a text denotes as a number: an optional sign, and then what
/// [`magnitude`] reads.
pub open spec fn parsed(s: Seq<char>) -> Option<Decimal> {
    let signed = s.len() > 0 && (s[0] == '+' || s[0] == '-');
    let body = if signed {
        s.skip(1)
    } else {
        s
    };
    match magnitude(body) {
        Some((whole, digits)) => {
            let d = Decimal { negative: false, whole, digits };
            Some(Decimal { negative: s.len() > 0 && s[0] == '-' && !d.is_zero(), ..d })
        },
        None => None,
    }
}

/// Moving the point leaves digits on both sides of it.
pub proof fn lemma_moved_digits(w: Seq<char>, f: Seq<char>, e: int)
    requires
        all_digits(w),
        all_digits(f),
    ensures
        all_digits(moved(w, f, e).0),
        all_digits(moved(w, f, e).1),
{
    let (a, b) = moved(w, f, e);
    if e > 0 {
        let g = f + zero_text(e as nat);
        assert forall|i: int| 0 <= i < g.len() implies is_digit(#[trigger] g[i]) by {
            if i < f.len() {
                assert(g[i] == f[i]);
            }
        }
        assert forall|i: int| 0 <= i < a.len() implies is_digit(#[trigger] a[i]) by {
            if i < w.len() {
                assert(a[i] == w[i]);
            } else {
                assert(a[i] == g[i - w.len()]);
            }
        }
        assert forall|i: int| 0 <= i < b.len() implies is_digit(#[trigger] b[i]) by {
            assert(b[i] == g[i + e]);
        }
    } else if e < 0 {
        let v = zero_text((-e) as nat) + w;
        assert forall|i: int| 0 <= i < v.len() implies is_digit(#[trigger] v[i]) by {
            if i >= -e {
                assert(v[i] == w[i + e]);
            }
        }
        assert forall|i: int| 0 <= i < a.len() implies is_digit(#[trigger] a[i]) by {
            assert(a[i] == v[i]);
        }
        assert forall|i: int| 0 <= i < b.len() implies is_digit(#[trigger] b[i]) by {
            if i < -e {
                assert(b[i] == v[i + w.len()]);
            } else {
                assert(b[i] == f[i + e]);
            }
        }
    }
}

/// What is read is in its one form.
pub proof fn lemma_parsed_wf(s: Seq<char>)
    requires
        parsed(s) is Some,
    ensures
        parsed(s)->0.wf(),
{
    let signed = s.len() > 0 && (s[0] == '+' || s[0] == '-');
    let body = if signed {
        s.skip(1)
    } else {
        s
    };
    let mantissa = body.take(mark(body));
    let p = first_index(mantissa, '.');
    let w = mantissa.take(p);
    let f = if p < mantissa.len() {
        mantissa.skip(p + 1)
    } else {
        Seq::empty()
    };
    lemma_moved_digits(w, f, exponent(body)->0);
    lemma_fraction_of(moved(w, f, exponent(body)->0).1);
}

/// The digits of a written fraction are digits, and end in no zero unless
/// they are the one zero.
pub proof fn lemma_fraction_of(f: Seq<char>)
    requires
        all_digits(f),
    ensures
        fraction_of(f).len() >= 1,
        forall|i: int| 0 <= i < fraction_of(f).len() ==> #[trigger] fraction_of(f)[i] <= 9,
        fraction_of(f).len() == 1 || fraction_of(f).last() != 0,
{
    let t = strip_back(f, Strip::Only('0'));
    lemma_trailing(f, Strip::Only('0'));
    if t.len() > 0 {
        assert(t.last() == f[t.len() - 1]);
        assert(is_digit(f[t.len() - 1]));
        assert forall|i: int| 0 <= i < fraction_of(f).len() implies #[trigger] fraction_of(f)[i]
            <= 9 by {
            assert(t[i] == f[i]);
            assert(is_digit(f[i]));
        }
    }
}

/// A text of digits and points marks no exponent.
pub proof fn lemma_no_mark(body: Seq<char>)
    requires
        forall|j: int| 0 <= j < body.len() ==> is_digit(#[trigger] body[j]) || body[j] == '.',
    ensures
        mark(body) == body.len(),
        exponent(body) == Some(0int),
        body.take(mark(body)) == body,
{
    lemma_first_index_is(body, 'e', body.len() as int);
    lemma_first_index_is(body, 'E', body.len() as int);
    assert(body.take(body.len() as int) =~= body);
}

/// Every number in its one form is read back from its own writing.
pub proof fn lemma_round_trip(d: Decimal)
    requires
        d.wf(),
    ensures
        parsed(d.text()) == Some(d),
{
    let s = d.text();
    let w = decimal(d.whole);
    let f = d.digits.map_values(|x: u8| digit(x as nat));
    lemma_decimal(d.whole);
    assert(is_digit(w[0]));
    let body = w + seq!['.'] + f;
    if d.negative {
        assert(s[0] == '-');
        assert(s.skip(1) =~= body);
    } else {
        assert(s =~= body);
        assert(s[0] == w[0]);
    }
    assert forall|j: int| 0 <= j < w.len() implies body[j] != '.' by {
        assert(body[j] == w[j]);
        assert(is_digit(w[j]));
    }
    assert forall|i: int| 0 <= i < f.len() implies is_digit(#[trigger] f[i]) by {
        assert(d.digits[i] <= 9);
    }
    assert forall|j: int| 0 <= j < body.len() implies is_digit(#[trigger] body[j]) || body[j]
        == '.' by {
        if j < w.len() {
            assert(body[j] == w[j]);
        } else if j > w.len() {
            assert(body[j] == f[j - w.len() - 1]);
        }
    }
    lemma_no_mark(body);
    assert(body[w.len() as int] == '.');
    lemma_first_index_is(body, '.', w.len() as int);
    assert(body.take(w.len() as int) =~= w);
    assert(body.skip(w.len() as int + 1) =~= f);
    if d.digits.len() == 1 && d.digits[0] == 0 {
        assert(d.digits =~= seq![0u8]);
        assert(f =~= seq!['0']);
        assert(f.drop_last() =~= Seq::<char>::empty());
        assert(trailing(f.drop_last(), Strip::Only('0')) == 0);
        assert(trailing(f, Strip::Only('0')) == 1);
        assert(strip_back(f, Strip::Only('0')).len() == 0);
        assert(fraction_of(f) =~= d.digits);
    } else {
        assert(d.digits.last() != 0);
        assert(f.last() == digit(d.digits.last() as nat));
        lemma_no_trailing(f, Strip::Only('0'));
        assert forall|i: int| 0 <= i < f.len() implies digit_value(f[i]) as u8 == d.digits[i] by {
            assert(d.digits[i] <= 9);
        }
        assert(fraction_of(f) =~= d.digits);
        assert(!(d.digits =~= seq![0u8]));
    }
}

/// Every number in its one form is read back from its briefest writing.
pub proof fn lemma_brief_round_trip(d: Decimal)
    requires
        d.wf(),
    ensures
        parsed(d.brief()) == Some(d),
{
    if d.is_whole() {
        let s = d.brief();
        let w = decimal(d.whole);
        lemma_decimal(d.whole);
        assert(is_digit(w[0]));
        if d.negative {
            assert(s[0] == '-');
            assert(s.skip(1) =~= w);
        } else {
            assert(s =~= w);
        }
        lemma_no_mark(w);
        lemma_first_index_is(w, '.', w.len() as int);
        assert(w.take(w.len() as int) =~= w);
        let f = Seq::<char>::empty();
        assert(trailing(f, Strip::Only('0')) == 0);
        assert(strip_back(f, Strip::Only('0')).len() == 0);
    } else {
        lemma_round_trip(d);
    }
}

/// A number in writing has a point in it.
pub proof fn lemma_text_has_point(d: Decimal)
    ensures
        d.text().contains('.'),
{
    let sign: Seq<char> = if d.negative {
        seq!['-']
    } else {
        Seq::empty()
    };
    let i = sign.len() + decimal(d.whole).len();
    assert(d.text()[i as int] == '.');
}

/// Appends `k` zeros to `out`.
fn push_zeros(out: &mut Vec<char>, k: usize)
    ensures
        final(out)@ == old(out)@ + zero_text(k as nat),
{
    let mut i: usize = 0;
    assert(out@ =~= old(out)@ + zero_text(0));
    while i < k
        invariant
            i <= k,
            out@ == old(out)@ + zero_text(i as nat),
        decreases k - i,
    {
        out.push('0');
        i += 1;
        assert(out@ =~= old(out)@ + zero_text(i as nat));
    }
}

/// Moves the point between the digits `w` and `f` by `e` places.
fn move_point(w: Vec<char>, f: Vec<char>, e: i64) -> (r: (Vec<char>, Vec<char>))
    requires
        -1000 <= e <= 1000,
    ensures
        r.0@ == moved(w@, f@, e as int).0,
        r.1@ == moved(w@, f@, e as int).1,
{
    if e == 0 {
        (w, f)
    } else if e > 0 {
        let k: usize = e as usize;
        let mut g = f;
        push_zeros(&mut g, k);
        let mut whole = w;
        let front = slice_of(&g, 0, k);
        extend(&mut whole, &front);
        let fraction = slice_of(&g, k, g.len());
        (whole, fraction)
    } else {
        let k: usize = (-e) as usize;
        let mut v: Vec<char> = Vec::new();
        push_zeros(&mut v, k);
        extend(&mut v, &w);
        let n: usize = v.len() - k;
        let whole = slice_of(&v, 0, n);
        let mut fraction = slice_of(&v, n, v.len());
        extend(&mut fraction, &f);
        (whole, fraction)
    }
}

/// The exponent that is written in `body`, and where it is marked.
fn read_exponent(body: &Vec<char>) -> (r: (usize, Option<i64>))
    ensures
        r.0 == mark(body@),
        r.0 <= body.len(),
        r.1 is Some <==> exponent(body@) is Some,
        r.1 is Some ==> r.1->0 == exponent(body@)->0 && -1000 <= r.1->0 <= 1000,
{
    let small = find(body, 'e');
    let large = find(body, 'E');
    let m = if small <= large {
        small
    } else {
        large
    };
    if m < body.len() {
        let x = slice_of(body, m + 1, body.len());
        assert(x@ =~= body@.skip(m + 1));
        (m, read_integer(&x, -1000, 1000))
    } else {
        (m, Some(0))
    }
}

/// Reads the whole part and the fraction of the number in `body`.
fn read_magnitude(body: &Vec<char>) -> (r: Option<(u128, Vec<u8>)>)
    ensures
        r is Some <==> magnitude(body@) is Some,
        r matches Some(m) ==> magnitude(body@) matches Some(n) && m.0 == n.0 && m.1@ == n.1
            && m.1@.len() >= 1 && (m.1@.len() == 1 || m.1@.last() != 0) && forall|i: int|
            0 <= i < m.1@.len() ==> #[trigger] m.1@[i] <= 9,
{
    let (m, exponent) = read_exponent(body);
    let e: i64 = match exponent {
        Some(e) => e,
        None => {
            return None;
        },
    };
    let mantissa = slice_of(body, 0, m);
    assert(mantissa@ =~= body@.take(m as int));
    let p = find(&mantissa, '.');
    let w = slice_of(&mantissa, 0, p);
    let f = if p < mantissa.len() {
        slice_of(&mantissa, p + 1, mantissa.len())
    } else {
        Vec::new()
    };
    assert(w@ =~= mantissa@.take(p as int));
    assert(f@ =~= if p < mantissa.len() {
        mantissa@.skip(p + 1)
    } else {
        Seq::empty()
    });
    if w.len() == 0 && f.len() == 0 {
        return None;
    }
    if !only_digits(&w) || !only_digits(&f) {
        return None;
    }
    proof {
        lemma_moved_digits(w@, f@, e as int);
    }
    let (whole_text, fraction_text) = move_point(w, f, e);
    let whole: u128 = if whole_text.len() == 0 {
        0
    } else {
        match read_natural(&whole_text, u128::MAX) {
            Some(n) => n,
            None => {
                return None;
            },
        }
    };
    let fraction = match read_fraction(&fraction_text) {
        Some(f) => f,
        None => {
            return None;
        },
    };
    proof {
        lemma_fraction_of(fraction_text@);
    }
    Some((whole, fraction))
}

/// The digits of a fraction as it is written in `text`, if it is written
/// in digits.
fn read_fraction(text: &Vec<char>) -> (r: Option<Vec<u8>>)
    ensures
        r is Some <==> all_digits(text@),
        r is Some ==> r->0@ == fraction_of(text@),
{
    let kept = text.len() - count_trailing(text, Strip::Only('0'));
    let mut fraction: Vec<u8> = Vec::new();
    let mut i: usize = 0;
    while i < text.len()
        invariant
            i <= text.len(),
            kept <= text.len(),
            forall|j: int| 0 <= j < i ==> is_digit(#[trigger] text@[j]),
            fraction@.len() == (if i <= kept {
                i
            } else {
                kept
            }),
            forall|j: int|
                0 <= j < fraction@.len() ==> #[trigger] fraction@[j] == digit_value(text@[j]) as u8,
        decreases text.len() - i,
    {
        match digit_of(text[i]) {
            Some(d) => {
                if i < kept {
                    fraction.push(d);
                }
            },
            None => {
                assert(!is_digit(text@[i as int]));
                return None;
            },
        }
        i += 1;
    }
    if fraction.len() == 0 {
        fraction.push(0);
    }
    proof {
        let t = strip_back(text@, Strip::Only('0'));
        assert(t.len() == kept);
        if kept > 0 {
            assert(fraction@ =~= t.map_values(|c: char| digit_value(c) as u8));
        }
        assert(fraction@ =~= fraction_of(text@));
    }
    Some(fraction)
}

/// A finite decimal number.
#[derive(PartialEq, Eq, Debug)]
pub struct Number {
    negative: bool,
    whole: u128,
    fraction: Vec<u8>,
}

impl View for Number {
    type V = Decimal;

    closed spec fn view(&self) -> Decimal {
        Decimal { negative: self.negative, whole: self.whole as nat, digits: self.fraction@ }
    }
}

impl Clone for Number {
    fn clone(&self) -> (r: Number)
        ensures
            r@ == self@,
    {
        self.copy()
    }
}

impl Number {
    #[verifier::type_invariant]
    closed spec fn canonical(self) -> bool {
        self@.wf()
    }

    /// A number is held in its one form.
    pub fn check(&self)
        ensures
            self@.wf(),
    {
        proof {
            use_type_invariant(self);
        }
    }

    /// The whole number `n`, negative or not.
    pub fn of_whole(negative: bool, n: u128) -> (r: Number)
        ensures
            r@ == (Decimal { negative: negative && n != 0, whole: n as nat, digits: seq![0u8] }),
    {
        let mut fraction: Vec<u8> = Vec::new();
        fraction.push(0);
        assert(fraction@ =~= seq![0u8]);
        Number { negative: negative && n != 0, whole: n, fraction }
    }

    /// Whether the number is negative.
    pub fn is_negative(&self) -> (r: bool)
        ensures
            r == self@.negative,
    {
        self.negative
    }

    /// The whole part of the number.
    pub fn whole_part(&self) -> (r: u128)
        ensures
            r == self@.whole,
    {
        self.whole
    }

    /// Whether the number has no fraction.
    pub fn is_whole(&self) -> (r: bool)
        ensures
            r == self@.is_whole(),
    {
        proof {
            use_type_invariant(self);
        }
        let r = self.fraction.len() == 1 && self.fraction[0] == 0;
        assert(r ==> self.fraction@ =~= seq![0u8]);
        r
    }

    /// How many digits the fraction has.
    pub fn fraction_len(&self) -> (n: usize)
        ensures
            n == self@.digits.len(),
    {
        self.fraction.len()
    }

    /// The digit of the fraction at `i`.
    pub fn fraction_digit(&self, i: usize) -> (d: u8)
        requires
            i < self@.digits.len(),
        ensures
            d == self@.digits[i as int],
    {
        self.fraction[i]
    }

    /// The number with the given sign, whole part and fraction digits, if
    /// these are the one form of a number.
    pub fn new(negative: bool, whole: u128, fraction: Vec<u8>) -> (r: Option<Number>)
        ensures
            r is Some <==> (Decimal { negative, whole: whole as nat, digits: fraction@ }).wf(),
            r is Some ==> r->0@ == (Decimal { negative, whole: whole as nat, digits: fraction@ }),
    {
        let n = fraction.len();
        if n == 0 {
            return None;
        }
        let mut i: usize = 0;
        while i < n
            invariant
                i <= n,
                n == fraction.len(),
                forall|j: int| 0 <= j < i ==> #[trigger] fraction@[j] <= 9,
            decreases n - i,
        {
            if fraction[i] > 9 {
                return None;
            }
            i += 1;
        }
        if n > 1 && fraction[n - 1] == 0 {
            return None;
        }
        if negative && whole == 0 && n == 1 && fraction[0] == 0 {
            assert(fraction@ =~= seq![0u8]);
            return None;
        }
        Some(Number { negative, whole, fraction })
    }

    /// A second number of the same value.
    pub fn copy(&self) -> (r: Number)
        ensures
            r@ == self@,
    {
        proof {
            use_type_invariant(self);
        }
        let mut fraction: Vec<u8> = Vec::new();
        let mut i: usize = 0;
        while i < self.fraction.len()
            invariant
                i <= self.fraction.len(),
                fraction@ == self.fraction@.take(i as int),
            decreases self.fraction.len() - i,
        {
            fraction.push(self.fraction[i]);
            i += 1;
        }
        assert(self.fraction@.take(self.fraction.len() as int) =~= self.fraction@);
        Number { negative: self.negative, whole: self.whole, fraction }
    }

    /// Whether two numbers are the same.
    pub fn same(&self, other: &Number) -> (r: bool)
        ensures
            r == (self@ == other@),
    {
        if self.negative != other.negative || self.whole != other.whole || self.fraction.len()
            != other.fraction.len() {
            return false;
        }
        let mut i: usize = 0;
        while i < self.fraction.len()
            invariant
                i <= self.fraction.len(),
                self.fraction.len() == other.fraction.len(),
                forall|j: int| 0 <= j < i ==> self.fraction@[j] == other.fraction@[j],
            decreases self.fraction.len() - i,
        {
            if self.fraction[i] != other.fraction[i] {
                return false;
            }
            i += 1;
        }
        assert(self.fraction@ =~= other.fraction@);
        true
    }

    /// Appends the number in writing to `out`.
    pub fn write(&self, out: &mut Vec<char>)
        ensures
            final(out)@ == old(out)@ + self@.text(),
    {
        proof {
            use_type_invariant(self);
        }
        if self.negative {
            out.push('-');
        }
        push_decimal(self.whole, out);
        out.push('.');
        let ghost head = out@;
        let mut i: usize = 0;
        while i < self.fraction.len()
            invariant
                i <= self.fraction.len(),
                self@.wf(),
                out@ == head + self@.digits.take(i as int).map_values(|d: u8| digit(d as nat)),
            decreases self.fraction.len() - i,
        {
            assert(self@.digits[i as int] <= 9);
            out.push(digit_char(self.fraction[i]));
            assert(out@ =~= head + self@.digits.take(i + 1).map_values(|d: u8| digit(d as nat)));
            i += 1;
        }
        assert(self@.digits.take(self.fraction.len() as int) =~= self@.digits);
        assert(out@ =~= old(out)@ + self@.text());
    }

    /// The number in writing.
    pub fn to_string(&self) -> (s: String)
        ensures
            s@ == self@.text(),
    {
        let mut out: Vec<char> = Vec::new();
        self.write(&mut out);
        string_of(&out)
    }

    /// Appends the number to `out`, written as briefly as it can be.
    pub fn write_brief(&self, out: &mut Vec<char>)
        ensures
            final(out)@ == old(out)@ + self@.brief(),
    {
        proof {
            use_type_invariant(self);
        }
        if self.is_whole() {
            if self.negative {
                out.push('-');
            }
            push_decimal(self.whole, out);
            assert(out@ =~= old(out)@ + self@.brief());
        } else {
            self.write(out);
        }
    }

    /// Reads a number from the characters `v`.
    pub fn read(v: &Vec<char>) -> (r: Option<Number>)
        ensures
            r is Some <==> parsed(v@) is Some,
            r is Some ==> r->0@ == parsed(v@)->0,
    {
        let signed = v.len() > 0 && (v[0] == '+' || v[0] == '-');
        let body = if signed {
            slice_of(v, 1, v.len())
        } else {
            slice_of(v, 0, v.len())
        };
        assert(body@ =~= if signed {
            v@.skip(1)
        } else {
            v@
        });
        match read_magnitude(&body) {
            Some((whole, fraction)) => {
                let zero = whole == 0 && fraction.len() == 1 && fraction[0] == 0;
                assert(zero ==> fraction@ =~= seq![0u8]);
                let negative = v.len() > 0 && v[0] == '-' && !zero;
                Some(Number { negative, whole, fraction })
            },
            None => None,
        }
    }

    /// Reads a number from a text.
    pub fn parse(s: &str) -> (r: Option<Number>)
        ensures
            r is Some <==> parsed(s@) is Some,
            r is Some ==> r->0@ == parsed(s@)->0,
    {
        Number::read(&chars_of(s))
    }
}


/// Ten to the power of `k`.
pub open spec fn pow10(k: nat) -> nat
    decreases k,
{
    if k == 0 {
        1
    } else {
        10 * pow10((k - 1) as nat)
    }
}

/// The number that the digits of a fraction denote when they are read as a
/// whole number.
pub open spec fn digits_value(d: Seq<u8>) -> nat
    decreases d.len(),
{
    if d.len() == 0 {
        0
    } else {
        digits_value(d.drop_last()) * 10 + d.last() as nat
    }
}

/// The digits that make up the difference to one: each digit taken from
/// nine, and the last from ten.
pub open spec fn complement(d: Seq<u8>) -> Seq<u8> {
    Seq::new(
        d.len(),
        |i: int|
            if i == d.len() - 1 {
                (10 - d[i]) as u8
            } else {
                (9 - d[i]) as u8
            },
    )
}

impl Decimal {
    /// How many digits the fraction has.
    pub open spec fn scale(self) -> nat {
        self.digits.len()
    }

    /// The number as a whole number of units of its last digit: the number
    /// times ten to the power of its scale.
    pub open spec fn scaled(self) -> int {
        let m = self.whole * pow10(self.scale()) + digits_value(self.digits);
        if self.negative {
            -m
        } else {
            m as int
        }
    }

    /// Whether the number is greater than the whole number `n`.
    pub open spec fn above(self, n: int) -> bool {
        self.scaled() > n * pow10(self.scale())
    }

    /// Whether the number is less than the whole number `n`.
    pub open spec fn below(self, n: int) -> bool {
        self.scaled() < n * pow10(self.scale())
    }

    /// The number less the whole number `n`, for a number that is not
    /// less than `n`.
    pub open spec fn less(self, n: nat) -> Decimal {
        Decimal { whole: (self.whole - n) as nat, ..self }
    }

    /// The whole number `n` less the number, for a number that is less
    /// than `n`.
    pub open spec fn taken_from(self, n: nat) -> Decimal {
        if self.negative {
            Decimal { negative: false, whole: self.whole + n, digits: self.digits }
        } else if self.is_whole() {
            Decimal { negative: false, whole: (n - self.whole) as nat, digits: seq![0u8] }
        } else {
            Decimal {
                negative: false,
                whole: (n - 1 - self.whole) as nat,
                digits: complement(self.digits),
            }
        }
    }
}

/// The digits of a fraction denote less than one, and nothing only where
/// all of them are zero.
pub proof fn lemma_digits_value(d: Seq<u8>)
    requires
        forall|i: int| 0 <= i < d.len() ==> #[trigger] d[i] <= 9,
    ensures
        digits_value(d) < pow10(d.len()),
        d.len() > 0 && d.last() != 0 ==> digits_value(d) > 0,
    decreases d.len(),
{
    if d.len() > 0 {
        let t = d.drop_last();
        assert forall|i: int| 0 <= i < t.len() implies #[trigger] t[i] <= 9 by {
            assert(t[i] == d[i]);
        }
        lemma_digits_value(t);
        assert(d.last() <= 9);
    }
}

/// Each digit taken from nine gives what is missing to the largest number
/// of as many digits.
proof fn lemma_nines(d: Seq<u8>)
    requires
        forall|i: int| 0 <= i < d.len() ==> #[trigger] d[i] <= 9,
    ensures
        digits_value(Seq::new(d.len(), |i: int| (9 - d[i]) as u8)) + digits_value(d) + 1
            == pow10(d.len()),
    decreases d.len(),
{
    let n = Seq::new(d.len(), |i: int| (9 - d[i]) as u8);
    if d.len() > 0 {
        let t = d.drop_last();
        assert forall|i: int| 0 <= i < t.len() implies #[trigger] t[i] <= 9 by {
            assert(t[i] == d[i]);
        }
        lemma_nines(t);
        assert(n.drop_last() =~= Seq::new(t.len(), |i: int| (9 - t[i]) as u8));
        assert(d.last() <= 9);
        assert(n.last() == 9 - d.last());
    }
}

/// A fraction and its complement make up one.
pub proof fn lemma_complement(d: Seq<u8>)
    requires
        d.len() > 0,
        forall|i: int| 0 <= i < d.len() ==> #[trigger] d[i] <= 9,
        d.last() != 0,
    ensures
        complement(d).len() == d.len(),
        forall|i: int| 0 <= i < d.len() ==> #[trigger] complement(d)[i] <= 9,
        complement(d).last() != 0,
        digits_value(complement(d)) + digits_value(d) == pow10(d.len()),
{
    let t = d.drop_last();
    let c = complement(d);
    assert forall|i: int| 0 <= i < t.len() implies #[trigger] t[i] <= 9 by {
        assert(t[i] == d[i]);
    }
    lemma_nines(t);
    assert(c.drop_last() =~= Seq::new(t.len(), |i: int| (9 - t[i]) as u8));
    assert(d.last() <= 9);
    assert(c.last() == 10 - d.last());
    assert forall|i: int| 0 <= i < d.len() implies #[trigger] c[i] <= 9 by {
        assert(d[i] <= 9);
    }
}

/// How a number stands to a whole number is seen from its sign, its whole
/// part, and whether it has a fraction.
pub proof fn lemma_order(d: Decimal, n: nat)
    requires
        d.wf(),
    ensures
        d.above(n as int) == (!d.negative && (d.whole > n || (d.whole == n && !d.is_whole()))),
        d.below(n as int) == (d.negative || d.whole < n),
{
    lemma_digits_value(d.digits);
    let p = pow10(d.scale()) as int;
    let w = d.whole as int;
    let f = digits_value(d.digits) as int;
    let m = n as int;
    assert(p > 0) by {
        lemma_pow10_positive(d.scale());
    }
    assert(d.whole * pow10(d.scale()) == w * p);
    assert(w >= m + 1 ==> w * p >= m * p + p) by (nonlinear_arith)
        requires
            p > 0,
    ;
    assert(w <= m - 1 ==> w * p + p <= m * p) by (nonlinear_arith)
        requires
            p > 0,
    ;
    assert(w == m ==> w * p == m * p);
    assert(w * p >= 0 && m * p >= 0) by (nonlinear_arith)
        requires
            p > 0,
            w >= 0,
            m >= 0,
    ;
    assert(w >= 1 ==> w * p >= p) by (nonlinear_arith)
        requires
            p > 0,
    ;
    if d.digits.len() == 1 && d.digits[0] == 0 {
        assert(d.digits =~= seq![0u8]);
        assert(d.digits.drop_last() =~= Seq::<u8>::empty());
        assert(digits_value(d.digits.drop_last()) == 0);
        assert(f == 0);
    } else {
        assert(d.digits.last() != 0);
        assert(!(d.digits =~= seq![0u8]));
        assert(f > 0);
    }
}

/// A power of ten is positive.
pub proof fn lemma_pow10_positive(k: nat)
    ensures
        pow10(k) > 0,
    decreases k,
{
    if k > 0 {
        lemma_pow10_positive((k - 1) as nat);
    }
}

impl Number {
    /// Whether the number is greater than the whole number `n`.
    pub fn above(&self, n: u128) -> (r: bool)
        ensures
            r == self@.above(n as int),
    {
        proof {
            use_type_invariant(self);
            lemma_order(self@, n as nat);
        }
        !self.negative && (self.whole > n || (self.whole == n && !self.is_whole()))
    }

    /// Whether the number is less than the whole number `n`.
    pub fn below(&self, n: u128) -> (r: bool)
        ensures
            r == self@.below(n as int),
    {
        proof {
            use_type_invariant(self);
            lemma_order(self@, n as nat);
        }
        self.negative || self.whole < n
    }

    /// The number less the whole number `n`, for a number that is not less
    /// than `n`.
    pub fn less(&self, n: u128) -> (r: Number)
        requires
            !self@.negative,
            self@.whole >= n,
        ensures
            r@ == self@.less(n as nat),
            r@.scale() == self@.scale(),
            r@.scaled() == self@.scaled() - n * pow10(self@.scale()),
    {
        proof {
            use_type_invariant(self);
            let p = pow10(self@.scale()) as int;
            let w = self@.whole as int;
            let m = n as int;
            assert((w - m) * p == w * p - m * p) by (nonlinear_arith);
        }
        let c = self.copy();
        Number { negative: false, whole: self.whole - n, fraction: c.fraction }
    }

    /// The whole number `n` less the number, for a number that is less
    /// than `n` and not so far below zero that the difference passes
    /// [`whole_limit`].
    pub fn taken_from(&self, n: u128) -> (r: Number)
        requires
            self@.below(n as int),
            self@.negative ==> self@.whole + n <= whole_limit(),
        ensures
            r@ == self@.taken_from(n as nat),
            r@.scale() == self@.scale(),
            r@.scaled() == n * pow10(self@.scale()) - self@.scaled(),
    {
        let ghost p = pow10(self@.scale()) as int;
        let ghost w = self@.whole as int;
        let ghost f = digits_value(self@.digits) as int;
        let ghost m = n as int;
        proof {
            use_type_invariant(self);
            lemma_order(self@, n as nat);
            lemma_digits_value(self@.digits);
            assert(self@.whole * pow10(self@.scale()) == w * p);
            assert(n * pow10(self@.scale()) == m * p);
            assert((w + m) * p == w * p + m * p) by (nonlinear_arith);
            assert((m - w) * p == m * p - w * p) by (nonlinear_arith);
            assert((m - 1 - w) * p == m * p - p - w * p) by (nonlinear_arith);
        }
        if self.negative {
            let c = self.copy();
            let r = Number { negative: false, whole: self.whole + n, fraction: c.fraction };
            assert(r@.whole * pow10(r@.scale()) == (w + m) * p);
            assert(r@.scaled() == (w + m) * p + f);
            r
        } else if self.is_whole() {
            assert(self@.digits =~= seq![0u8]);
            assert(self@.digits.drop_last() =~= Seq::<u8>::empty());
            assert(digits_value(self@.digits.drop_last()) == 0);
            assert(self@.digits.last() == 0);
            assert(f == 0);
            let r = Number::of_whole(false, n - self.whole);
            assert(r@.digits =~= self@.digits);
            assert(r@.whole * pow10(r@.scale()) == (m - w) * p);
            r
        } else {
            proof {
                if self@.digits.len() == 1 {
                    assert(!(self@.digits =~= seq![0u8]));
                    assert(self@.digits[0] != 0);
                }
                lemma_complement(self@.digits);
            }
            let k = self.fraction.len();
            let mut fraction: Vec<u8> = Vec::new();
            let mut i: usize = 0;
            while i < k
                invariant
                    i <= k,
                    k == self.fraction.len(),
                    self@.wf(),
                    fraction@ == complement(self@.digits).take(i as int),
                decreases k - i,
            {
                assert(self@.digits[i as int] <= 9);
                let d = self.fraction[i];
                let e = if i == k - 1 {
                    10 - d
                } else {
                    9 - d
                };
                fraction.push(e);
                assert(fraction@ =~= complement(self@.digits).take(i + 1));
                i += 1;
            }
            assert(complement(self@.digits).take(k as int) =~= complement(self@.digits));
            let r = Number { negative: false, whole: n - 1 - self.whole, fraction };
            assert(r@.whole * pow10(r@.scale()) == (m - 1 - w) * p);
            assert(digits_value(r@.digits) == p - f);
            r
        }
    }
}


/// What [`Decimal::less`] gives is a number in its one form, and it is the
/// difference.
pub proof fn lemma_less(d: Decimal, n: nat)
    requires
        d.wf(),
        !d.negative,
        d.whole >= n,
    ensures
        d.less(n).wf(),
        d.less(n).scale() == d.scale(),
        d.less(n).scaled() == d.scaled() - n * pow10(d.scale()),
{
    let p = pow10(d.scale()) as int;
    let w = d.whole as int;
    let m = n as int;
    assert((w - m) * p == w * p - m * p) by (nonlinear_arith);
    assert(d.less(n).whole * pow10(d.scale()) == (w - m) * p);
    assert(d.whole * pow10(d.scale()) == w * p);
    assert(n * pow10(d.scale()) == m * p);
}

/// What [`Decimal::taken_from`] gives is a number in its one form, and it
/// is the difference.
pub proof fn lemma_taken_from(d: Decimal, n: nat)
    requires
        d.wf(),
        n <= whole_limit(),
        d.below(n as int),
        d.negative ==> d.whole + n <= whole_limit(),
    ensures
        d.taken_from(n).wf(),
        d.taken_from(n).scale() == d.scale(),
        d.taken_from(n).scaled() == n * pow10(d.scale()) - d.scaled(),
{
    let r = d.taken_from(n);
    let p = pow10(d.scale()) as int;
    let w = d.whole as int;
    let f = digits_value(d.digits) as int;
    let m = n as int;
    lemma_order(d, n);
    lemma_digits_value(d.digits);
    assert(d.whole * pow10(d.scale()) == w * p);
    assert(n * pow10(d.scale()) == m * p);
    assert((w + m) * p == w * p + m * p) by (nonlinear_arith);
    assert((m - w) * p == m * p - w * p) by (nonlinear_arith);
    assert((m - 1 - w) * p == m * p - p - w * p) by (nonlinear_arith);
    if d.negative {
        assert(r.whole * pow10(r.scale()) == (w + m) * p);
    } else if d.is_whole() {
        assert(d.digits.drop_last() =~= Seq::<u8>::empty());
        assert(digits_value(d.digits.drop_last()) == 0);
        assert(d.digits.last() == 0);
        assert(f == 0);
        assert(r.digits =~= d.digits);
        assert(r.whole * pow10(r.scale()) == (m - w) * p);
    } else {
        if d.digits.len() == 1 {
            assert(!(d.digits =~= seq![0u8]));
            assert(d.digits[0] != 0);
        }
        lemma_complement(d.digits);
        assert(r.whole * pow10(r.scale()) == (m - 1 - w) * p);
        assert(digits_value(r.digits) == p - f);
    }
}

/// A power of ten to a sum is the product of the powers.
pub proof fn lemma_pow10_sum(a: nat, b: nat)
    ensures
        pow10(a + b) == pow10(a) * pow10(b),
    decreases a,
{
    if a > 0 {
        lemma_pow10_sum((a - 1) as nat, b);
        assert(pow10(a + b) == 10 * pow10((a + b - 1) as nat));
        assert(10 * (pow10((a - 1) as nat) * pow10(b)) == (10 * pow10((a - 1) as nat)) * pow10(b))
            by (nonlinear_arith);
    } else {
        assert(pow10(a) * pow10(b) == pow10(b)) by (nonlinear_arith)
            requires
                pow10(a) == 1,
        ;
    }
}

/// A digit before a run of digits counts as many times a power of ten as
/// the run is long.
pub proof fn lemma_digits_front(x: u8, d: Seq<u8>)
    ensures
        digits_value(seq![x] + d) == x * pow10(d.len()) + digits_value(d),
    decreases d.len(),
{
    let s = seq![x] + d;
    if d.len() == 0 {
        assert(s.drop_last() =~= Seq::<u8>::empty());
        assert(digits_value(s.drop_last()) == 0);
        assert(s.last() == x);
        assert(pow10(0) == 1);
        assert(digits_value(d) == 0);
        assert(digits_value(s) == x);
    } else {
        lemma_digits_front(x, d.drop_last());
        assert(s.drop_last() =~= seq![x] + d.drop_last());
        assert(s.last() == d.last());
        let p = pow10(d.drop_last().len()) as int;
        let v = digits_value(d.drop_last()) as int;
        let xi = x as int;
        assert(pow10(d.len()) == 10 * p);
        assert(digits_value(s.drop_last()) == xi * p + v);
        assert(digits_value(s) == (xi * p + v) * 10 + d.last());
        assert(digits_value(d) == v * 10 + d.last());
        assert((xi * p + v) * 10 == xi * (10 * p) + v * 10) by (nonlinear_arith);
    }
}

/// A run of digits counts as what stands before a place, as many times a
/// power of ten as what stands behind it is long, and what stands behind it.
pub proof fn lemma_digits_split(d: Seq<u8>, i: int)
    requires
        0 <= i <= d.len(),
    ensures
        digits_value(d) == digits_value(d.take(i)) * pow10((d.len() - i) as nat) + digits_value(
            d.skip(i),
        ),
    decreases d.len() - i,
{
    if i == d.len() {
        assert(d.take(i) =~= d);
        assert(d.skip(i) =~= Seq::<u8>::empty());
        assert(digits_value(d) * 1 == digits_value(d)) by (nonlinear_arith);
    } else {
        let t = d.drop_last();
        lemma_digits_split(t, i);
        assert(t.take(i) =~= d.take(i));
        assert(d.skip(i).drop_last() =~= t.skip(i));
        assert(d.skip(i).last() == d.last());
        let p = pow10((t.len() - i) as nat) as int;
        let a = digits_value(d.take(i)) as int;
        let b = digits_value(t.skip(i)) as int;
        assert(pow10((d.len() - i) as nat) == 10 * p);
        assert((a * p + b) * 10 == a * (10 * p) + b * 10) by (nonlinear_arith);
    }
}

/// As many zeros as `n` says.
pub open spec fn zeros(n: nat) -> Seq<u8> {
    Seq::new(n, |i: int| 0u8)
}

/// Zeros count for nothing.
pub proof fn lemma_zeros(n: nat)
    ensures
        digits_value(zeros(n)) == 0,
    decreases n,
{
    if n > 0 {
        lemma_zeros((n - 1) as nat);
        assert(zeros(n).drop_last() =~= zeros((n - 1) as nat));
    }
}

/// Zeros behind a run of digits make it count as many times a power of ten
/// as there are zeros.
pub proof fn lemma_digits_padded(d: Seq<u8>, n: nat)
    ensures
        digits_value(d + zeros(n)) == digits_value(d) * pow10(n),
{
    let s = d + zeros(n);
    lemma_digits_split(s, d.len() as int);
    lemma_zeros(n);
    assert(s.take(d.len() as int) =~= d);
    assert(s.skip(d.len() as int) =~= zeros(n));
}

/// Whether every one of `d` is a digit.
pub open spec fn are_digits(d: Seq<u8>) -> bool {
    forall|i: int| 0 <= i < d.len() ==> #[trigger] d[i] <= 9
}

/// The digits `d` with zeros behind them, `k` in all.
fn padded(d: &Vec<u8>, k: usize) -> (r: Vec<u8>)
    requires
        d.len() <= k,
    ensures
        r@ == d@ + zeros((k - d.len()) as nat),
{
    let mut r: Vec<u8> = Vec::new();
    let mut i: usize = 0;
    while i < k
        invariant
            i <= k,
            d.len() <= k,
            r@.len() == i,
            forall|j: int| 0 <= j < i ==> #[trigger] r@[j] == (if j < d.len() {
                d@[j]
            } else {
                0u8
            }),
        decreases k - i,
    {
        if i < d.len() {
            r.push(d[i]);
        } else {
            r.push(0);
        }
        i += 1;
    }
    assert(r@ =~= d@ + zeros((k - d.len()) as nat));
    r
}

/// As many zeros as `k` says.
fn blank(k: usize) -> (r: Vec<u8>)
    ensures
        r@ == zeros(k as nat),
{
    let empty: Vec<u8> = Vec::new();
    let r = padded(&empty, k);
    assert(r@ =~= zeros(k as nat));
    r
}

/// The digits of the sum of two runs of digits of one length, and whether
/// one is carried over.
fn sum_digits(a: &Vec<u8>, b: &Vec<u8>) -> (r: (Vec<u8>, u8))
    requires
        a.len() == b.len(),
        are_digits(a@),
        are_digits(b@),
    ensures
        r.0.len() == a.len(),
        are_digits(r.0@),
        r.1 <= 1,
        digits_value(a@) + digits_value(b@) == r.1 * pow10(a@.len()) + digits_value(r.0@),
{
    let k = a.len();
    let mut r = blank(k);
    let mut c: u8 = 0;
    let mut i: usize = k;
    proof {
        assert(a@.skip(k as int) =~= Seq::<u8>::empty());
        assert(b@.skip(k as int) =~= Seq::<u8>::empty());
        assert(r@.skip(k as int) =~= Seq::<u8>::empty());
        assert(pow10(0) == 1);
    }
    while i > 0
        invariant
            i <= k,
            k == a.len(),
            k == b.len(),
            r.len() == k,
            c <= 1,
            are_digits(a@),
            are_digits(b@),
            are_digits(r@),
            digits_value(a@.skip(i as int)) + digits_value(b@.skip(i as int)) == c * pow10(
                (k - i) as nat,
            ) + digits_value(r@.skip(i as int)),
        decreases i,
    {
        i -= 1;
        assert(a@[i as int] <= 9 && b@[i as int] <= 9);
        let s: u8 = a[i] + b[i] + c;
        let d: u8 = s % 10;
        let next: u8 = s / 10;
        let ghost before = r@;
        r.set(i, d);
        proof {
            let p = pow10((k - i - 1) as nat) as int;
            assert(pow10((k - i) as nat) == 10 * p);
            assert(a@.skip(i as int) =~= seq![a@[i as int]] + a@.skip(i + 1));
            assert(b@.skip(i as int) =~= seq![b@[i as int]] + b@.skip(i + 1));
            assert(r@.skip(i as int) =~= seq![d] + before.skip(i + 1));
            assert(r@.skip(i + 1) =~= before.skip(i + 1));
            lemma_digits_front(a@[i as int], a@.skip(i + 1));
            lemma_digits_front(b@[i as int], b@.skip(i + 1));
            lemma_digits_front(d, before.skip(i + 1));
            let x = a@[i as int] as int;
            let y = b@[i as int] as int;
            let ci = c as int;
            let di = d as int;
            let ni = next as int;
            assert(x + y + ci == 10 * ni + di);
            assert(x * p + y * p + ci * p == (10 * ni + di) * p) by (nonlinear_arith)
                requires
                    x + y + ci == 10 * ni + di,
            ;
            assert((10 * ni + di) * p == ni * (10 * p) + di * p) by (nonlinear_arith);
            assert forall|j: int| 0 <= j < r@.len() implies #[trigger] r@[j] <= 9 by {
                if j != i {
                    assert(r@[j] == before[j]);
                }
            }
        }
        c = next;
    }
    proof {
        assert(a@.skip(0) =~= a@);
        assert(b@.skip(0) =~= b@);
        assert(r@.skip(0) =~= r@);
    }
    (r, c)
}

/// The digits of the difference of two runs of digits of one length, and
/// whether one is borrowed: it is where the second run counts for more.
fn difference_digits(a: &Vec<u8>, b: &Vec<u8>) -> (r: (Vec<u8>, u8))
    requires
        a.len() == b.len(),
        are_digits(a@),
        are_digits(b@),
    ensures
        r.0.len() == a.len(),
        are_digits(r.0@),
        r.1 <= 1,
        digits_value(a@) - digits_value(b@) == digits_value(r.0@) - r.1 * pow10(a@.len()),
        r.1 == 1 <==> digits_value(a@) < digits_value(b@),
{
    let k = a.len();
    let mut r = blank(k);
    let mut c: u8 = 0;
    let mut i: usize = k;
    proof {
        assert(a@.skip(k as int) =~= Seq::<u8>::empty());
        assert(b@.skip(k as int) =~= Seq::<u8>::empty());
        assert(r@.skip(k as int) =~= Seq::<u8>::empty());
        assert(pow10(0) == 1);
    }
    while i > 0
        invariant
            i <= k,
            k == a.len(),
            k == b.len(),
            r.len() == k,
            c <= 1,
            are_digits(a@),
            are_digits(b@),
            are_digits(r@),
            digits_value(a@.skip(i as int)) - digits_value(b@.skip(i as int)) == digits_value(
                r@.skip(i as int),
            ) - c * pow10((k - i) as nat),
        decreases i,
    {
        i -= 1;
        assert(a@[i as int] <= 9 && b@[i as int] <= 9);
        let take: u8 = b[i] + c;
        let d: u8 = if a[i] >= take {
            a[i] - take
        } else {
            a[i] + 10 - take
        };
        let next: u8 = if a[i] >= take {
            0
        } else {
            1
        };
        let ghost before = r@;
        r.set(i, d);
        proof {
            let p = pow10((k - i - 1) as nat) as int;
            assert(pow10((k - i) as nat) == 10 * p);
            assert(a@.skip(i as int) =~= seq![a@[i as int]] + a@.skip(i + 1));
            assert(b@.skip(i as int) =~= seq![b@[i as int]] + b@.skip(i + 1));
            assert(r@.skip(i as int) =~= seq![d] + before.skip(i + 1));
            assert(r@.skip(i + 1) =~= before.skip(i + 1));
            lemma_digits_front(a@[i as int], a@.skip(i + 1));
            lemma_digits_front(b@[i as int], b@.skip(i + 1));
            lemma_digits_front(d, before.skip(i + 1));
            let x = a@[i as int] as int;
            let y = b@[i as int] as int;
            let ci = c as int;
            let di = d as int;
            let ni = next as int;
            assert(x - y - ci == di - 10 * ni);
            assert(x * p - y * p - ci * p == (di - 10 * ni) * p) by (nonlinear_arith)
                requires
                    x - y - ci == di - 10 * ni,
            ;
            assert((di - 10 * ni) * p == di * p - ni * (10 * p)) by (nonlinear_arith);
            assert forall|j: int| 0 <= j < r@.len() implies #[trigger] r@[j] <= 9 by {
                if j != i {
                    assert(r@[j] == before[j]);
                }
            }
        }
        c = next;
    }
    proof {
        assert(a@.skip(0) =~= a@);
        assert(b@.skip(0) =~= b@);
        assert(r@.skip(0) =~= r@);
        lemma_digits_value(r@);
        let p = pow10(k as nat) as int;
        let ci = c as int;
        assert(ci == 0 ==> ci * p == 0);
        assert(ci == 1 ==> ci * p == p);
    }
    (r, c)
}

/// The larger of two scales.
pub open spec fn larger(a: nat, b: nat) -> nat {
    if a >= b {
        a
    } else {
        b
    }
}

impl Decimal {
    /// The number as a whole number of units of the `k`-th place behind
    /// the point, for a `k` that is not less than the scale of the number.
    pub open spec fn at(self, k: nat) -> int {
        self.scaled() * pow10((k - self.scale()) as nat)
    }
}

/// What a sign, a whole part and digits behind the point count for, in
/// units of the last digit.
pub open spec fn counted(negative: bool, whole: nat, digits: Seq<u8>) -> int {
    let m = whole * pow10(digits.len()) + digits_value(digits);
    if negative {
        -m
    } else {
        m as int
    }
}

/// Zeros behind the digits of a number do not change what it counts for
/// at a finer scale.
pub proof fn lemma_at_padded(d: Decimal, k: nat)
    requires
        d.scale() <= k,
    ensures
        d.at(k) == counted(d.negative, d.whole, d.digits + zeros((k - d.scale()) as nat)),
{
    let j = (k - d.scale()) as nat;
    let p = pow10(d.scale()) as int;
    let q = pow10(j) as int;
    let w = d.whole as int;
    let f = digits_value(d.digits) as int;
    lemma_digits_padded(d.digits, j);
    lemma_pow10_sum(d.scale(), j);
    assert((d.digits + zeros(j)).len() == k);
    assert(pow10(k) == p * q);
    assert((w * p + f) * q == w * (p * q) + f * q) by (nonlinear_arith);
    assert((-(w * p + f)) * q == -(w * (p * q) + f * q)) by (nonlinear_arith);
    assert(d.whole * pow10(d.scale()) == w * p);
    assert(d.whole * pow10(k) == w * (p * q));
    assert(digits_value(d.digits) * pow10(j) == f * q);
}

impl Number {
    /// The number of the given sign, whole part and digits behind the
    /// point, in its one form: without the zeros at the end of the digits.
    fn settled(negative: bool, whole: u128, digits: Vec<u8>) -> (r: Number)
        requires
            digits.len() >= 1,
            are_digits(digits@),
        ensures
            r@.scale() <= digits.len(),
            r@.at(digits@.len()) == counted(negative, whole as nat, digits@),
    {
        let k = digits.len();
        let mut n: usize = k;
        while n > 1 && digits[n - 1] == 0
            invariant
                1 <= n <= k,
                k == digits.len(),
                forall|j: int| n <= j < k ==> digits@[j] == 0,
            decreases n,
        {
            n -= 1;
        }
        let mut kept = digits;
        kept.truncate(n);
        let zero = whole == 0 && n == 1 && kept[0] == 0;
        let ghost d = Decimal { negative: negative && !zero, whole: whole as nat, digits: kept@ };
        proof {
            assert(digits@ =~= kept@ + zeros((k - n) as nat));
            assert(zero ==> kept@ =~= seq![0u8]);
            assert forall|i: int| 0 <= i < kept@.len() implies #[trigger] kept@[i] <= 9 by {
                assert(kept@[i] == digits@[i]);
            }
            lemma_at_padded(d, k as nat);
            if zero {
                assert(kept@.drop_last() =~= Seq::<u8>::empty());
                assert(digits_value(kept@.drop_last()) == 0);
                assert(digits_value(kept@) == 0);
                lemma_digits_padded(kept@, (k - n) as nat);
                assert(0 * pow10(digits@.len()) == 0);
                assert(0 * pow10((k - n) as nat) == 0);
            }
        }
        Number { negative: negative && !zero, whole, fraction: kept }
    }

    /// The digits behind the point, with zeros behind them, `k` in all.
    fn fraction_padded(&self, k: usize) -> (r: Vec<u8>)
        requires
            self@.scale() <= k,
        ensures
            r@.len() == k,
            are_digits(r@),
            self@.at(k as nat) == counted(self@.negative, self@.whole, r@),
    {
        proof {
            use_type_invariant(self);
            lemma_at_padded(self@, k as nat);
        }
        let r = padded(&self.fraction, k);
        assert forall|i: int| 0 <= i < r@.len() implies #[trigger] r@[i] <= 9 by {
            if i < self.fraction@.len() {
                assert(r@[i] == self.fraction@[i]);
            }
        }
        r
    }

    /// The number with the other sign.
    pub fn negated(&self) -> (r: Number)
        ensures
            r@.scale() == self@.scale(),
            r@.scaled() == -self@.scaled(),
    {
        proof {
            use_type_invariant(self);
        }
        let c = self.copy();
        let zero = self.whole == 0 && self.is_whole();
        proof {
            if zero {
                assert(self@.digits.drop_last() =~= Seq::<u8>::empty());
                assert(digits_value(self@.digits.drop_last()) == 0);
                assert(digits_value(self@.digits) == 0);
                assert(0 * pow10(self@.scale()) == 0);
            }
        }
        Number { negative: !self.negative && !zero, whole: self.whole, fraction: c.fraction }
    }

    /// The sum of two numbers, if its whole part does not pass
    /// [`whole_limit`].
    pub fn plus(&self, other: &Number) -> (r: Option<Number>)
        ensures
            match r {
                Some(s) => {
                    let k = larger(self@.scale(), other@.scale());
                    s@.scale() <= k && s@.at(k) == self@.at(k) + other@.at(k)
                },
                None => {
                    let k = larger(self@.scale(), other@.scale());
                    let sum = self@.at(k) + other@.at(k);
                    sum >= (whole_limit() + 1) * pow10(k) || -sum >= (whole_limit() + 1) * pow10(k)
                },
            },
    {
        proof {
            use_type_invariant(self);
            use_type_invariant(other);
        }
        let k = if self.fraction.len() >= other.fraction.len() {
            self.fraction.len()
        } else {
            other.fraction.len()
        };
        let a = self.fraction_padded(k);
        let b = other.fraction_padded(k);
        let ghost p = pow10(k as nat) as int;
        let ghost aw = self.whole as int;
        let ghost bw = other.whole as int;
        let ghost av = digits_value(a@) as int;
        let ghost bv = digits_value(b@) as int;
        proof {
            lemma_pow10_positive(k as nat);
            lemma_digits_value(a@);
            lemma_digits_value(b@);
            assert(self.whole * pow10(a@.len()) == aw * p);
            assert(other.whole * pow10(b@.len()) == bw * p);
        }
        if self.negative == other.negative {
            let (f, c) = sum_digits(&a, &b);
            let ghost fv = digits_value(f@) as int;
            let ghost ci = c as int;
            proof {
                lemma_digits_value(f@);
                assert(c * pow10(a@.len()) == ci * p);
                assert((aw + bw + ci) * p == aw * p + bw * p + ci * p) by (nonlinear_arith);
                assert(aw + bw + ci >= whole_limit() + 1 ==> (aw + bw + ci) * p >= (whole_limit()
                    + 1) * p) by (nonlinear_arith)
                    requires
                        p > 0,
                ;
                assert((whole_limit() + 1) * pow10(k as nat) == (whole_limit() + 1) * p);
            }
            if self.whole > u128::MAX - other.whole {
                return None;
            }
            let w: u128 = self.whole + other.whole;
            if w > u128::MAX - c as u128 {
                return None;
            }
            let w: u128 = w + c as u128;
            assert(w * pow10(f@.len()) == (aw + bw + ci) * p);
            Some(Number::settled(self.negative, w, f))
        } else {
            let (f, c) = difference_digits(&a, &b);
            if self.whole > other.whole || (self.whole == other.whole && c == 0) {
                let w: u128 = self.whole - other.whole - c as u128;
                proof {
                    let ci = c as int;
                    assert(c * pow10(a@.len()) == ci * p);
                    assert((aw - bw - ci) * p == aw * p - bw * p - ci * p) by (nonlinear_arith);
                    assert(w * pow10(f@.len()) == (aw - bw - ci) * p);
                }
                Some(Number::settled(self.negative, w, f))
            } else {
                let (g, e) = difference_digits(&b, &a);
                let w: u128 = other.whole - self.whole - e as u128;
                proof {
                    let ei = e as int;
                    assert(e * pow10(b@.len()) == ei * p);
                    assert((bw - aw - ei) * p == bw * p - aw * p - ei * p) by (nonlinear_arith);
                    assert(w * pow10(g@.len()) == (bw - aw - ei) * p);
                }
                Some(Number::settled(other.negative, w, g))
            }
        }
    }

    /// The difference of two numbers, if its whole part does not pass
    /// [`whole_limit`].
    pub fn minus(&self, other: &Number) -> (r: Option<Number>)
        ensures
            match r {
                Some(s) => {
                    let k = larger(self@.scale(), other@.scale());
                    s@.scale() <= k && s@.at(k) == self@.at(k) - other@.at(k)
                },
                None => {
                    let k = larger(self@.scale(), other@.scale());
                    let difference = self@.at(k) - other@.at(k);
                    difference >= (whole_limit() + 1) * pow10(k) || -difference >= (whole_limit()
                        + 1) * pow10(k)
                },
            },
    {
        let o = other.negated();
        proof {
            let k = larger(self@.scale(), other@.scale());
            let q = pow10((k - other@.scale()) as nat) as int;
            let x = other@.scaled();
            assert((-x) * q == -(x * q)) by (nonlinear_arith);
        }
        self.plus(&o)
    }

    /// The hundredth part of the number.
    pub fn hundredth(&self) -> (r: Number)
        ensures
            r@.scale() <= self@.scale() + 2,
            r@.at(self@.scale() + 2) == self@.scaled(),
    {
        proof {
            use_type_invariant(self);
        }
        let w: u128 = self.whole / 100;
        let tens: u8 = ((self.whole / 10) % 10) as u8;
        let ones: u8 = (self.whole % 10) as u8;
        let mut digits: Vec<u8> = Vec::new();
        digits.push(tens);
        digits.push(ones);
        let mut i: usize = 0;
        while i < self.fraction.len()
            invariant
                i <= self.fraction.len(),
                digits@ == seq![tens, ones] + self.fraction@.take(i as int),
            decreases self.fraction.len() - i,
        {
            digits.push(self.fraction[i]);
            assert(digits@ =~= seq![tens, ones] + self.fraction@.take(i + 1));
            i += 1;
        }
        proof {
            let f = self.fraction@;
            assert(f.take(f.len() as int) =~= f);
            assert(digits@ =~= seq![tens] + (seq![ones] + f));
            lemma_digits_front(ones, f);
            lemma_digits_front(tens, seq![ones] + f);
            let p = pow10(f.len()) as int;
            assert(pow10((seq![ones] + f).len()) == 10 * p);
            assert(pow10(digits@.len()) == 100 * p);
            let wi = w as int;
            let t = tens as int;
            let o = ones as int;
            let whole = self.whole as int;
            assert(whole == 100 * wi + 10 * t + o);
            assert(wi * (100 * p) + t * (10 * p) + o * p == (100 * wi + 10 * t + o) * p)
                by (nonlinear_arith);
            assert(w * pow10(digits@.len()) == wi * (100 * p));
            assert(self.whole * pow10(f.len()) == whole * p);
            assert(tens * pow10((seq![ones] + f).len()) == t * (10 * p));
            assert(ones * pow10(f.len()) == o * p);
            assert forall|j: int| 0 <= j < digits@.len() implies #[trigger] digits@[j] <= 9 by {
                if j >= 2 {
                    assert(digits@[j] == f[j - 2]);
                }
            }
        }
        Number::settled(self.negative, w, digits)
    }
}

/// What a number counts for at a finer scale is what it counts for at a
/// coarser one, as many times a power of ten as the scales are apart.
pub proof fn lemma_at_finer(d: Decimal, k: nat, j: nat)
    requires
        d.scale() <= k <= j,
    ensures
        d.at(j) == d.at(k) * pow10((j - k) as nat),
{
    let a = (k - d.scale()) as nat;
    let b = (j - k) as nat;
    lemma_pow10_sum(a, b);
    let x = d.scaled();
    let p = pow10(a) as int;
    let q = pow10(b) as int;
    assert(a + b == (j - d.scale()) as nat);
    assert(x * (p * q) == (x * p) * q) by (nonlinear_arith);
    assert(pow10(a + b) == p * q);
}

/// A number in its one form counts for less than what passes the largest
/// whole part.
pub proof fn lemma_at_bound(d: Decimal, k: nat)
    requires
        d.wf(),
        d.scale() <= k,
    ensures
        -(whole_limit() + 1) * pow10(k) < d.at(k) < (whole_limit() + 1) * pow10(k),
{
    lemma_digits_value(d.digits);
    lemma_pow10_positive(d.scale());
    lemma_pow10_positive((k - d.scale()) as nat);
    lemma_pow10_sum(d.scale(), (k - d.scale()) as nat);
    let p = pow10(d.scale()) as int;
    let q = pow10((k - d.scale()) as nat) as int;
    let w = d.whole as int;
    let f = digits_value(d.digits) as int;
    let l = whole_limit() as int;
    assert(pow10(k) == p * q);
    assert(d.whole * pow10(d.scale()) == w * p);
    assert((w * p + f) * q < (l + 1) * (p * q)) by (nonlinear_arith)
        requires
            0 <= w <= l,
            0 <= f < p,
            q > 0,
    ;
    assert((w * p + f) * q >= 0) by (nonlinear_arith)
        requires
            0 <= w,
            0 <= f,
            p > 0,
            q > 0,
    ;
    assert((-(w * p + f)) * q == -((w * p + f) * q)) by (nonlinear_arith);
    assert((whole_limit() + 1) * pow10(k) == (l + 1) * (p * q));
    assert(-(whole_limit() + 1) * pow10(k) == -((l + 1) * (p * q))) by (nonlinear_arith)
        requires
            (whole_limit() + 1) * pow10(k) == (l + 1) * (p * q),
    ;
}

/// What `before` becomes when it is raised, or lowered, by the hundredth
/// part of `amount`, counted in units of a place that holds both.
pub open spec fn shift(before: Decimal, amount: Decimal, up: bool) -> int {
    let j = larger(before.scale(), amount.scale() + 2);
    if up {
        before.at(j) + amount.at((j - 2) as nat)
    } else {
        before.at(j) - amount.at((j - 2) as nat)
    }
}

/// Whether `before`, raised or lowered by the hundredth part of `amount`,
/// is still a number: its whole part does not pass [`whole_limit`].
pub open spec fn can_shift(before: Decimal, amount: Decimal, up: bool) -> bool {
    let j = larger(before.scale(), amount.scale() + 2);
    -(whole_limit() + 1) * pow10(j) < shift(before, amount, up) < (whole_limit() + 1) * pow10(j)
}

/// Whether `after` is `before`, raised or lowered by the hundredth part of
/// `amount`.
pub open spec fn is_shifted(before: Decimal, amount: Decimal, up: bool, after: Decimal) -> bool {
    let j = larger(before.scale(), amount.scale() + 2);
    after.wf() && after.scale() <= j && after.at(j) == shift(before, amount, up)
}

/// Whether `sum` is the sum of `a` and `b`.
pub open spec fn is_sum(a: Decimal, b: Decimal, sum: Decimal) -> bool {
    let k = larger(a.scale(), b.scale());
    sum.wf() && sum.scale() <= k && sum.at(k) == a.at(k) + b.at(k)
}

/// Whether the sum of `a` and `b` is still a number.
pub open spec fn can_add(a: Decimal, b: Decimal) -> bool {
    let k = larger(a.scale(), b.scale());
    -(whole_limit() + 1) * pow10(k) < a.at(k) + b.at(k) < (whole_limit() + 1) * pow10(k)
}

impl Number {
    /// The sum of two numbers, if it is still a number.
    pub fn sum(&self, other: &Number) -> (r: Option<Number>)
        ensures
            r is Some <==> can_add(self@, other@),
            r is Some ==> is_sum(self@, other@, r->0@),
    {
        let r = self.plus(other);
        proof {
            let k = larger(self@.scale(), other@.scale());
            match &r {
                Some(s) => {
                    use_type_invariant(s);
                    lemma_at_bound(s@, k);
                },
                None => {
                    let v = self@.at(k) + other@.at(k);
                    let m = (whole_limit() + 1) * pow10(k);
                    assert(-(whole_limit() + 1) * pow10(k) == -m) by (nonlinear_arith)
                        requires
                            m == (whole_limit() + 1) * pow10(k),
                    ;
                },
            }
        }
        r
    }

    /// The number raised, or lowered, by the hundredth part of `amount`,
    /// if that is still a number.
    pub fn shifted(&self, amount: &Number, up: bool) -> (r: Option<Number>)
        ensures
            r is Some <==> can_shift(self@, amount@, up),
            r is Some ==> is_shifted(self@, amount@, up, r->0@),
    {
        let h = amount.hundredth();
        let r = if up {
            self.plus(&h)
        } else {
            self.minus(&h)
        };
        proof {
            use_type_invariant(self);
            use_type_invariant(amount);
            use_type_invariant(&h);
            let j = larger(self@.scale(), amount@.scale() + 2);
            let k = larger(self@.scale(), h@.scale());
            let q = pow10((j - k) as nat) as int;
            lemma_pow10_positive((j - k) as nat);
            lemma_pow10_sum(k, (j - k) as nat);
            lemma_at_finer(self@, k, j);
            lemma_at_finer(h@, k, j);
            lemma_at_finer(h@, amount@.scale() + 2, j);
            // the hundredth part counts for as much two places further on
            assert(amount@.at((j - 2) as nat) == h@.at(j));
            let a = self@.at(k);
            let b = h@.at(k);
            assert((a + b) * q == a * q + b * q) by (nonlinear_arith);
            assert((a - b) * q == a * q - b * q) by (nonlinear_arith);
            let m = (whole_limit() + 1) * pow10(k);
            let mj = (whole_limit() + 1) * pow10(j);
            assert(mj == m * q) by (nonlinear_arith)
                requires
                    pow10(j) == pow10(k) * q,
                    m == (whole_limit() + 1) * pow10(k),
                    mj == (whole_limit() + 1) * pow10(j),
            ;
            assert(-(whole_limit() + 1) * pow10(j) == -mj) by (nonlinear_arith)
                requires
                    mj == (whole_limit() + 1) * pow10(j),
            ;
            match &r {
                Some(s) => {
                    use_type_invariant(s);
                    lemma_at_finer(s@, k, j);
                    lemma_at_bound(s@, j);
                },
                None => {
                    let v = if up {
                        a + b
                    } else {
                        a - b
                    };
                    assert(v >= m ==> v * q >= m * q) by (nonlinear_arith)
                        requires
                            q > 0,
                    ;
                    assert(-v >= m ==> -(v * q) >= m * q) by (nonlinear_arith)
                        requires
                            q > 0,
                    ;
                },
            }
        }
        r
    }
}

/// Runs of digits of one length that count for the same are the same.
pub proof fn lemma_digits_same(a: Seq<u8>, b: Seq<u8>)
    requires
        a.len() == b.len(),
        are_digits(a),
        are_digits(b),
        digits_value(a) == digits_value(b),
    ensures
        a == b,
    decreases a.len(),
{
    if a.len() > 0 {
        let x = a.drop_last();
        let y = b.drop_last();
        assert(a.last() <= 9 && b.last() <= 9);
        assert forall|i: int| 0 <= i < x.len() implies #[trigger] x[i] <= 9 by {
            assert(x[i] == a[i]);
        }
        assert forall|i: int| 0 <= i < y.len() implies #[trigger] y[i] <= 9 by {
            assert(y[i] == b[i]);
        }
        lemma_digits_same(x, y);
        assert(a =~= x.push(a.last()));
        assert(b =~= y.push(b.last()));
    } else {
        assert(a =~= b);
    }
}

/// What a number in its one form counts for is below zero just where the
/// number is negative, and a number with more than one digit behind the
/// point counts for no multiple of ten.
proof fn lemma_counts(d: Decimal)
    requires
        d.wf(),
    ensures
        d.negative <==> d.scaled() < 0,
        d.scale() > 1 ==> d.scaled() % 10 != 0,
{
    lemma_digits_value(d.digits);
    lemma_pow10_positive(d.scale());
    let p = pow10(d.scale()) as int;
    let w = d.whole as int;
    let f = digits_value(d.digits) as int;
    assert(d.whole * pow10(d.scale()) == w * p);
    assert(w * p >= 0) by (nonlinear_arith)
        requires
            w >= 0,
            p > 0,
    ;
    assert(w >= 1 ==> w * p >= p) by (nonlinear_arith)
        requires
            p > 0,
    ;
    if d.negative {
        if d.whole == 0 {
            if d.digits.len() == 1 && d.digits[0] == 0 {
                assert(d.digits =~= seq![0u8]);
            } else {
                assert(d.digits.last() != 0);
            }
        }
    }
    if d.scale() > 1 {
        let q = pow10((d.scale() - 1) as nat) as int;
        let v = digits_value(d.digits.drop_last()) as int;
        let last = d.digits.last() as int;
        assert(p == 10 * q);
        assert(f == v * 10 + last);
        assert(1 <= last <= 9);
        let m = w * (10 * q) + v * 10 + last;
        assert(m == (w * q + v) * 10 + last) by (nonlinear_arith)
            requires
                m == w * (10 * q) + v * 10 + last,
        ;
        assert(-m == (-(w * q + v) - 1) * 10 + (10 - last)) by (nonlinear_arith)
            requires
                m == (w * q + v) * 10 + last,
        ;
        vstd::arithmetic::div_mod::lemma_fundamental_div_mod_converse(m, 10, w * q + v, last);
        vstd::arithmetic::div_mod::lemma_fundamental_div_mod_converse(
            -m,
            10,
            -(w * q + v) - 1,
            10 - last,
        );
    }
}

/// A number has one form only: two numbers in their one form that count
/// for the same are the same number.
pub proof fn lemma_one_form(a: Decimal, b: Decimal, k: nat)
    requires
        a.wf(),
        b.wf(),
        a.scale() <= k,
        b.scale() <= k,
        a.at(k) == b.at(k),
    ensures
        a == b,
    decreases (if a.scale() <= b.scale() {
        0nat
    } else {
        1nat
    }),
{
    if a.scale() > b.scale() {
        lemma_one_form(b, a, k);
    } else {
        let ka = a.scale();
        let kb = b.scale();
        // both are taken back to the scale of `b`
        lemma_at_finer(a, kb, k);
        lemma_at_finer(b, kb, k);
        let c = pow10((k - kb) as nat) as int;
        lemma_pow10_positive((k - kb) as nat);
        let x = a.at(kb);
        let y = b.scaled();
        assert(pow10(0) == 1);
        assert(b.at(kb) == y * 1);
        assert(x == y) by (nonlinear_arith)
            requires
                x * c == y * c,
                c > 0,
        ;
        lemma_counts(a);
        lemma_counts(b);
        if ka < kb {
            let e = pow10((kb - ka - 1) as nat) as int;
            assert(pow10((kb - ka) as nat) == 10 * e);
            let z = a.scaled();
            assert(z * (10 * e) == (z * e) * 10 + 0) by (nonlinear_arith);
            vstd::arithmetic::div_mod::lemma_fundamental_div_mod_converse(
                z * (10 * e),
                10,
                z * e,
                0,
            );
            assert(false);
        }
        assert(a.at(kb) == a.scaled() * 1);
        lemma_digits_value(a.digits);
        lemma_digits_value(b.digits);
        let p = pow10(ka) as int;
        let wa = a.whole as int;
        let wb = b.whole as int;
        let fa = digits_value(a.digits) as int;
        let fb = digits_value(b.digits) as int;
        assert(a.whole * pow10(ka) == wa * p);
        assert(b.whole * pow10(kb) == wb * p);
        lemma_pow10_positive(ka);
        assert(a.negative == b.negative) by {
            assert(wa * p + fa >= 0 && wb * p + fb >= 0) by (nonlinear_arith)
                requires
                    wa >= 0,
                    wb >= 0,
                    fa >= 0,
                    fb >= 0,
                    p > 0,
            ;
        }
        assert(wa * p + fa == wb * p + fb);
        assert(wa == wb && fa == fb) by (nonlinear_arith)
            requires
                wa * p + fa == wb * p + fb,
                0 <= fa < p,
                0 <= fb < p,
        ;
        lemma_digits_same(a.digits, b.digits);
    }
}

} // verus!
