//! Whole numbers in decimal notation, read and written.

use vstd::prelude::*;

verus! {

/// The character of a decimal digit.
pub open spec fn digit(d: nat) -> char {
    if d == 0 {
        '0'
    } else if d == 1 {
        '1'
    } else if d == 2 {
        '2'
    } else if d == 3 {
        '3'
    } else if d == 4 {
        '4'
    } else if d == 5 {
        '5'
    } else if d == 6 {
        '6'
    } else if d == 7 {
        '7'
    } else if d == 8 {
        '8'
    } else {
        '9'
    }
}

/// Whether `c` is one of `0` to `9`.
pub open spec fn is_digit(c: char) -> bool {
    c == '0' || c == '1' || c == '2' || c == '3' || c == '4' || c == '5' || c == '6' || c == '7'
        || c == '8' || c == '9'
}

/// The number that a digit character stands for.
pub open spec fn digit_value(c: char) -> nat {
    if c == '0' {
        0
    } else if c == '1' {
        1
    } else if c == '2' {
        2
    } else if c == '3' {
        3
    } else if c == '4' {
        4
    } else if c == '5' {
        5
    } else if c == '6' {
        6
    } else if c == '7' {
        7
    } else if c == '8' {
        8
    } else {
        9
    }
}

/// Whether every character of `s` is a digit.
pub open spec fn all_digits(s: Seq<char>) -> bool {
    forall|i: int| 0 <= i < s.len() ==> is_digit(#[trigger] s[i])
}

/// `n` in decimal notation, without leading zeros.
pub open spec fn decimal(n: nat) -> Seq<char>
    decreases n,
{
    if n < 10 {
        seq![digit(n)]
    } else {
        decimal(n / 10).push(digit(n % 10))
    }
}

/// The number that a run of digits denotes; leading zeros count for nothing.
pub open spec fn number(s: Seq<char>) -> nat
    decreases s.len(),
{
    if s.len() == 0 {
        0
    } else {
        number(s.drop_last()) * 10 + digit_value(s.last())
    }
}

/// What a text denotes as a natural number of at most `limit`: it must be a
/// non-empty run of digits.
pub open spec fn natural(s: Seq<char>, limit: nat) -> Option<nat> {
    if s.len() > 0 && all_digits(s) && number(s) <= limit {
        Some(number(s))
    } else {
        None
    }
}

/// `i` in decimal notation, with `-` in front where it is negative.
pub open spec fn integer_text(i: int) -> Seq<char> {
    if i < 0 {
        seq!['-'] + decimal((-i) as nat)
    } else {
        decimal(i as nat)
    }
}

/// What a text denotes as an integer between `low` and `high`: an optional
/// sign, then a non-empty run of digits.
pub open spec fn integer(s: Seq<char>, low: int, high: int) -> Option<int> {
    let signed = s.len() > 0 && (s[0] == '-' || s[0] == '+');
    let body = if signed {
        s.skip(1)
    } else {
        s
    };
    let value = if s.len() > 0 && s[0] == '-' {
        -(number(body) as int)
    } else {
        number(body) as int
    };
    if body.len() > 0 && all_digits(body) && low <= value <= high {
        Some(value)
    } else {
        None
    }
}

/// Writing a number and reading it back gives the number.
pub proof fn lemma_decimal(n: nat)
    ensures
        decimal(n).len() >= 1,
        all_digits(decimal(n)),
        number(decimal(n)) == n,
    decreases n,
{
    if n < 10 {
        let s = decimal(n);
        assert(s.drop_last() =~= Seq::<char>::empty());
        assert(number(s.drop_last()) == 0);
    } else {
        lemma_decimal(n / 10);
        let s = decimal(n);
        assert(s.drop_last() =~= decimal(n / 10));
        assert(s.last() == digit(n % 10));
    }
}

/// A run of digits denotes at least what each of its prefixes denotes.
pub proof fn lemma_number_grows(s: Seq<char>, j: int)
    requires
        0 <= j <= s.len(),
    ensures
        number(s.take(j)) <= number(s),
    decreases s.len() - j,
{
    if j == s.len() {
        assert(s.take(j) =~= s);
    } else {
        lemma_number_grows(s.drop_last(), j);
        assert(s.drop_last().take(j) =~= s.take(j));
    }
}

/// Writing an integer and reading it back gives the integer.
pub proof fn lemma_integer_text(i: int, low: int, high: int)
    requires
        low <= i <= high,
    ensures
        integer(integer_text(i), low, high) == Some(i),
{
    let s = integer_text(i);
    if i < 0 {
        lemma_decimal((-i) as nat);
        assert(s.skip(1) =~= decimal((-i) as nat));
    } else {
        lemma_decimal(i as nat);
        assert(is_digit(s[0]));
    }
}

/// The character of the digit `d`.
pub fn digit_char(d: u8) -> (c: char)
    requires
        d < 10,
    ensures
        c == digit(d as nat),
{
    if d == 0 {
        '0'
    } else if d == 1 {
        '1'
    } else if d == 2 {
        '2'
    } else if d == 3 {
        '3'
    } else if d == 4 {
        '4'
    } else if d == 5 {
        '5'
    } else if d == 6 {
        '6'
    } else if d == 7 {
        '7'
    } else if d == 8 {
        '8'
    } else {
        '9'
    }
}

/// The value of the digit character `c`, if it is one.
pub fn digit_of(c: char) -> (r: Option<u8>)
    ensures
        r is Some <==> is_digit(c),
        r is Some ==> r->0 == digit_value(c),
{
    if c == '0' {
        Some(0)
    } else if c == '1' {
        Some(1)
    } else if c == '2' {
        Some(2)
    } else if c == '3' {
        Some(3)
    } else if c == '4' {
        Some(4)
    } else if c == '5' {
        Some(5)
    } else if c == '6' {
        Some(6)
    } else if c == '7' {
        Some(7)
    } else if c == '8' {
        Some(8)
    } else if c == '9' {
        Some(9)
    } else {
        None
    }
}

/// Whether every character of `v` is a digit.
pub fn only_digits(v: &Vec<char>) -> (r: bool)
    ensures
        r == all_digits(v@),
{
    let mut i: usize = 0;
    while i < v.len()
        invariant
            i <= v.len(),
            forall|j: int| 0 <= j < i ==> is_digit(#[trigger] v@[j]),
        decreases v.len() - i,
    {
        if digit_of(v[i]).is_none() {
            assert(!is_digit(v@[i as int]));
            return false;
        }
        i += 1;
    }
    true
}

/// Appends `n` in decimal notation to `out`.
pub fn push_decimal(n: u128, out: &mut Vec<char>)
    ensures
        final(out)@ == old(out)@ + decimal(n as nat),
    decreases n,
{
    if n >= 10 {
        push_decimal(n / 10, out);
    }
    let d: u8 = (n % 10) as u8;
    out.push(digit_char(d));
    assert(out@ =~= old(out)@ + decimal(n as nat));
}

/// Reads `v` as a natural number of at most `limit`.
pub fn read_natural(v: &Vec<char>, limit: u128) -> (r: Option<u128>)
    ensures
        r is Some <==> natural(v@, limit as nat) is Some,
        r is Some ==> r->0 == natural(v@, limit as nat)->0,
{
    if v.len() == 0 {
        return None;
    }
    let mut acc: u128 = 0;
    let mut i: usize = 0;
    assert(v@.take(0) =~= Seq::<char>::empty());
    while i < v.len()
        invariant
            i <= v.len(),
            all_digits(v@.take(i as int)),
            acc == number(v@.take(i as int)),
            acc <= limit,
        decreases v.len() - i,
    {
        let ghost next = v@.take(i + 1);
        assert(next.drop_last() =~= v@.take(i as int));
        assert(next.last() == v@[i as int]);
        match digit_of(v[i]) {
            None => {
                assert(!is_digit(v@[i as int]));
                return None;
            },
            Some(d) => {
                proof {
                    lemma_number_grows(v@, i + 1);
                    assert forall|j: int| 0 <= j < next.len() implies is_digit(
                        #[trigger] next[j],
                    ) by {
                        if j < i {
                            assert(next[j] == v@.take(i as int)[j]);
                        }
                    }
                }
                if acc > limit / 10 {
                    return None;
                }
                let t: u128 = acc * 10;
                if d as u128 > limit - t {
                    return None;
                }
                acc = t + d as u128;
            },
        }
        i += 1;
    }
    assert(v@.take(v.len() as int) =~= v@);
    Some(acc)
}

/// Appends `i` in decimal notation to `out`, with `-` in front where it is negative.
pub fn push_integer(i: i64, out: &mut Vec<char>)
    ensures
        final(out)@ == old(out)@ + integer_text(i as int),
{
    if i < 0 {
        out.push('-');
        let m: u128 = (-(i as i128)) as u128;
        push_decimal(m, out);
        assert(out@ =~= old(out)@ + integer_text(i as int));
    } else {
        push_decimal(i as u128, out);
    }
}

/// Reads `v` as an integer between `low` and `high`.
pub fn read_integer(v: &Vec<char>, low: i64, high: i64) -> (r: Option<i64>)
    requires
        low <= 0 <= high,
    ensures
        r is Some <==> integer(v@, low as int, high as int) is Some,
        r is Some ==> r->0 == integer(v@, low as int, high as int)->0,
{
    if v.len() == 0 {
        return None;
    }
    let negative = v[0] == '-';
    let signed = negative || v[0] == '+';
    let body = if signed {
        crate::text::slice_of(v, 1, v.len())
    } else {
        crate::text::slice_of(v, 0, v.len())
    };
    assert(body@ =~= if signed {
        v@.skip(1)
    } else {
        v@
    });
    if negative {
        let bound: u128 = (-(low as i128)) as u128;
        match read_natural(&body, bound) {
            Some(n) => Some((-(n as i128)) as i64),
            None => None,
        }
    } else {
        match read_natural(&body, high as u128) {
            Some(n) => Some(n as i64),
            None => None,
        }
    }
}


/// What a text denotes as an unsigned number of at most `limit`: a run of
/// digits, with or without `+` in front.
pub open spec fn unsigned(s: Seq<char>, limit: nat) -> Option<nat> {
    if s.len() > 0 && s[0] == '+' {
        natural(s.skip(1), limit)
    } else {
        natural(s, limit)
    }
}

/// Writing a number and reading it back as unsigned gives the number.
pub proof fn lemma_unsigned_decimal(n: nat, limit: nat)
    requires
        n <= limit,
    ensures
        unsigned(decimal(n), limit) == Some(n),
{
    lemma_decimal(n);
    assert(is_digit(decimal(n)[0]));
}

/// Reads `v` as an unsigned number of at most `limit`.
pub fn read_unsigned(v: &Vec<char>, limit: u128) -> (r: Option<u128>)
    ensures
        r is Some <==> unsigned(v@, limit as nat) is Some,
        r is Some ==> r->0 == unsigned(v@, limit as nat)->0,
{
    if v.len() > 0 && v[0] == '+' {
        let body = crate::text::slice_of(v, 1, v.len());
        assert(body@ =~= v@.skip(1));
        read_natural(&body, limit)
    } else {
        read_natural(v, limit)
    }
}

} // verus!
