//! The value that a datum holds.

use vstd::prelude::*;

use crate::digits::{integer, integer_text, push_integer, read_integer};
use crate::number::{parsed as number_parsed, Decimal, Number};
use crate::text::{chars_of, is_text, phrase, seen, string_of};

verus! {

/// A value as contracts speak of it.
pub ghost enum Scalar {
    Bool(bool),
    Float(Decimal),
    Int(int),
}

impl Scalar {
    /// Whether the value is one that a [`Value`] can hold.
    pub open spec fn wf(self) -> bool {
        match self {
            Scalar::Bool(_) => true,
            Scalar::Float(d) => d.wf(),
            Scalar::Int(i) => i32::MIN <= i <= i32::MAX,
        }
    }

    /// The value in writing: `true` or `false`, a number with a point, or
    /// a whole number.
    pub open spec fn text(self) -> Seq<char> {
        match self {
            Scalar::Bool(b) => if b {
                "true"@
            } else {
                "false"@
            },
            Scalar::Float(d) => d.text(),
            Scalar::Int(i) => integer_text(i),
        }
    }
}

/// What a text denotes as a value. It is a truth value if it can be, else
/// a whole number if it can be, else a number with a fraction; and if it is
/// none of these, an error that quotes the text.
pub open spec fn parsed(s: Seq<char>) -> Result<Scalar, Seq<char>> {
    if s == "true"@ {
        Ok(Scalar::Bool(true))
    } else if s == "false"@ {
        Ok(Scalar::Bool(false))
    } else if integer(s, i32::MIN as int, i32::MAX as int) is Some {
        Ok(Scalar::Int(integer(s, i32::MIN as int, i32::MAX as int)->0))
    } else if number_parsed(s) is Some {
        Ok(Scalar::Float(number_parsed(s)->0))
    } else {
        Err("cannot parse '"@ + s + "' as a Value"@)
    }
}

/// The value of a datum: a truth value, a number with a fraction, or a
/// whole number. The kind is kept with the value, so that data of several
/// kinds can stand in one collection.
#[derive(PartialEq, Debug, Clone)]
pub enum Value {
    Bool(bool),
    Float(Number),
    Int(i32),
}

impl View for Value {
    type V = Scalar;

    open spec fn view(&self) -> Scalar {
        match self {
            Value::Bool(b) => Scalar::Bool(*b),
            Value::Float(n) => Scalar::Float(n@),
            Value::Int(i) => Scalar::Int(*i as int),
        }
    }
}

impl Value {
    /// A value is one that its view says it can be.
    pub fn check(&self)
        ensures
            self@.wf(),
    {
        match self {
            Value::Float(n) => n.check(),
            _ => {},
        }
    }

    /// The value in writing. A number with a fraction is written with a
    /// point, which tells it from a whole number.
    pub fn to_string(&self) -> (s: String)
        ensures
            s@ == self@.text(),
            self is Float ==> s@.contains('.'),
    {
        proof {
            if self is Float {
                lemma_float_has_point(self@);
            }
        }
        match self {
            Value::Bool(b) => if *b {
                String::from_str("true")
            } else {
                String::from_str("false")
            },
            Value::Float(n) => n.to_string(),
            Value::Int(i) => {
                let mut out: Vec<char> = Vec::new();
                push_integer(*i as i64, &mut out);
                assert(out@ =~= integer_text(*i as int));
                string_of(&out)
            },
        }
    }

    /// A second value equal to this one.
    pub fn copy(&self) -> (r: Value)
        ensures
            r@ == self@,
    {
        match self {
            Value::Bool(b) => Value::Bool(*b),
            Value::Float(n) => Value::Float(n.copy()),
            Value::Int(i) => Value::Int(*i),
        }
    }

    /// Reads a value from its writing.
    pub fn parse(s: &str) -> (r: Result<Value, String>)
        ensures
            seen(r) == parsed(s@),
    {
        let v = chars_of(s);
        if is_text(&v, "true") {
            return Ok(Value::Bool(true));
        }
        if is_text(&v, "false") {
            return Ok(Value::Bool(false));
        }
        match read_integer(&v, i32::MIN as i64, i32::MAX as i64) {
            Some(i) => {
                return Ok(Value::Int(i as i32));
            },
            None => {},
        }
        match Number::read(&v) {
            Some(n) => Ok(Value::Float(n)),
            None => Err(phrase("cannot parse '", s, "' as a Value")),
        }
    }
}

impl From<bool> for Value {
    fn from(value: bool) -> (r: Value)
        ensures
            r == Value::Bool(value),
    {
        Value::Bool(value)
    }
}

impl vstd::std_specs::convert::FromSpecImpl<bool> for Value {
    open spec fn obeys_from_spec() -> bool {
        true
    }

    open spec fn from_spec(value: bool) -> Value {
        Value::Bool(value)
    }
}

impl From<i32> for Value {
    fn from(value: i32) -> (r: Value)
        ensures
            r == Value::Int(value),
    {
        Value::Int(value)
    }
}

impl vstd::std_specs::convert::FromSpecImpl<i32> for Value {
    open spec fn obeys_from_spec() -> bool {
        true
    }

    open spec fn from_spec(value: i32) -> Value {
        Value::Int(value)
    }
}

impl From<Number> for Value {
    fn from(value: Number) -> (r: Value)
        ensures
            r == Value::Float(value),
    {
        Value::Float(value)
    }
}

impl vstd::std_specs::convert::FromSpecImpl<Number> for Value {
    open spec fn obeys_from_spec() -> bool {
        true
    }

    open spec fn from_spec(value: Number) -> Value {
        Value::Float(value)
    }
}


/// A value in writing is not empty and holds plain characters only.
pub proof fn lemma_text_plain(v: Scalar)
    requires
        v.wf(),
    ensures
        v.text().len() > 0,
        crate::object::all_plain(v.text()),
{
    let s = v.text();
    match v {
        Scalar::Bool(b) => {
            reveal_strlit("true");
            reveal_strlit("false");
        },
        Scalar::Int(i) => {
            let n = if i < 0 {
                (-i) as nat
            } else {
                i as nat
            };
            crate::digits::lemma_decimal(n);
            assert forall|k: int| 0 <= k < s.len() implies crate::object::is_plain(
                #[trigger] s[k],
            ) by {
                if i < 0 {
                    if k > 0 {
                        assert(s[k] == crate::digits::decimal(n)[k - 1]);
                        assert(crate::digits::is_digit(crate::digits::decimal(n)[k - 1]));
                    }
                } else {
                    assert(crate::digits::is_digit(crate::digits::decimal(n)[k]));
                }
            }
        },
        Scalar::Float(d) => {
            lemma_number_plain(d);
        },
    }
}

/// A number in writing is not empty, holds plain characters only, and
/// starts with a digit or with the sign.
pub proof fn lemma_number_plain(d: Decimal)
    requires
        d.wf(),
    ensures
        d.text().len() > 0,
        crate::object::all_plain(d.text()),
        d.text()[0] == '-' || crate::digits::is_digit(d.text()[0]),
{
    let s = d.text();
    let sign: Seq<char> = if d.negative {
        seq!['-']
    } else {
        Seq::empty()
    };
    let w = crate::digits::decimal(d.whole);
    let f = d.digits.map_values(|x: u8| crate::digits::digit(x as nat));
    crate::digits::lemma_decimal(d.whole);
    assert(s =~= sign + w + seq!['.'] + f);
    assert forall|k: int| 0 <= k < s.len() implies crate::object::is_plain(#[trigger] s[k]) by {
        let a = sign.len() as int;
        let b = a + w.len();
        if k < a {
        } else if k < b {
            assert(s[k] == w[k - a]);
            assert(crate::digits::is_digit(w[k - a]));
        } else if k == b {
        } else {
            assert(s[k] == f[k - b - 1]);
            assert(d.digits[k - b - 1] <= 9);
        }
    }
    if !d.negative {
        assert(s[0] == w[0]);
        assert(crate::digits::is_digit(w[0]));
    }
}

/// Every value that a [`Value`] can hold is read back from its own writing.
pub proof fn lemma_round_trip(v: Scalar)
    requires
        v.wf(),
    ensures
        parsed(v.text()) == Ok::<Scalar, Seq<char>>(v),
{
    let s = v.text();
    reveal_strlit("true");
    reveal_strlit("false");
    match v {
        Scalar::Bool(b) => {
            assert("true"@.len() != "false"@.len());
        },
        Scalar::Int(i) => {
            lemma_text_plain(v);
            let n = if i < 0 {
                (-i) as nat
            } else {
                i as nat
            };
            crate::digits::lemma_decimal(n);
            assert(s[0] == '-' || crate::digits::is_digit(s[0]));
            assert("true"@[0] == 't' && "false"@[0] == 'f');
            crate::digits::lemma_integer_text(i, i32::MIN as int, i32::MAX as int);
        },
        Scalar::Float(d) => {
            lemma_number_plain(d);
            assert("true"@[0] == 't' && "false"@[0] == 'f');
            let sign: Seq<char> = if d.negative {
                seq!['-']
            } else {
                Seq::empty()
            };
            let w = crate::digits::decimal(d.whole);
            crate::digits::lemma_decimal(d.whole);
            let at = sign.len() + w.len();
            assert(s[at as int] == '.');
            let signed = s.len() > 0 && (s[0] == '-' || s[0] == '+');
            let body = if signed {
                s.skip(1)
            } else {
                s
            };
            if signed {
                assert(d.negative) by {
                    if !d.negative {
                        assert(s[0] == w[0]);
                        assert(crate::digits::is_digit(w[0]));
                    }
                }
                assert(body[at - 1] == '.');
            } else {
                assert(body[at as int] == '.');
            }
            assert(!crate::digits::all_digits(body));
            crate::number::lemma_round_trip(d);
        },
    }
}

/// A number with a fraction in writing has a point in it.
pub proof fn lemma_float_has_point(v: Scalar)
    requires
        v is Float,
    ensures
        v.text().contains('.'),
{
    crate::number::lemma_text_has_point(v->Float_0);
}

} // verus!
