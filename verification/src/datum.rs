//! A datum: one measurement of something in the environment.

use vstd::prelude::*;

use crate::number::Number;
use crate::object::{field, field_of, inner, inner_of};
use crate::text::{chars_of, extend_str, head, phrase, seen, split_first, string_of, tail};
use crate::timestamp::{
    is_moment, parsed as moment_parsed, rfc3339_text, Instant, Timestamp,
};
use crate::unit::Unit;
use crate::value::{parsed as value_parsed, Scalar, Value};

verus! {

/// A datum as contracts speak of it.
pub ghost struct Reading {
    pub value: Scalar,
    pub unit: Unit,
    pub time: Instant,
}

impl Reading {
    /// Whether the reading is one that a [`Datum`] can hold.
    pub open spec fn wf(self) -> bool {
        self.value.wf() && is_moment(self.time.secs, self.time.nanos)
    }

    /// The reading in writing: an object of the three fields `value`,
    /// `unit` and `timestamp`, in this order and without any space.
    pub open spec fn text(self) -> Seq<char> {
        "{\"value\":\""@ + self.value.text() + "\",\"unit\":\""@ + self.unit.text()
            + "\",\"timestamp\":\""@ + rfc3339_text(self.time.secs, self.time.nanos) + "\"}"@
    }
}

/// The error for a text that has not the three pieces of a datum.
pub open spec fn misformatted(s: Seq<char>) -> Seq<char> {
    "'"@ + s + "' is not formatted like a serialized Datum"@
}

/// What a text denotes as a datum. What stands between its braces is cut
/// at the commas; the first three pieces hold value, unit and timestamp,
/// and what follows them counts for nothing. With fewer than three pieces
/// the text is refused as a whole; else the first field that cannot be read
/// gives the error.
pub open spec fn parsed(s: Seq<char>) -> Result<Reading, Seq<char>> {
    let first = inner(s);
    match tail(first, ',') {
        None => Err(misformatted(s)),
        Some(second) => match tail(second, ',') {
            None => Err(misformatted(s)),
            Some(third) => {
                let value = value_parsed(field(head(first, ','), "\"value\":\""@));
                let unit = Unit::parsed(field(head(second, ','), "\"unit\":\""@));
                let time = moment_parsed(field(head(third, ','), "\"timestamp\":\""@));
                match value {
                    Err(m) => Err(m),
                    Ok(value) => match unit {
                        Err(m) => Err(m),
                        Ok(unit) => match time {
                            Err(m) => Err(m),
                            Ok(time) => Ok(Reading { value, unit, time }),
                        },
                    },
                }
            },
        },
    }
}

/// One measurement: a value, the unit that belongs to it, and the moment
/// at which it was taken.
#[derive(PartialEq, Debug, Clone)]
pub struct Datum {
    pub value: Value,
    pub unit: Unit,
    pub timestamp: Timestamp,
}

impl View for Datum {
    type V = Reading;

    open spec fn view(&self) -> Reading {
        Reading { value: self.value@, unit: self.unit, time: self.timestamp@ }
    }
}

impl Datum {
    /// The datum of the three given parts.
    pub fn new(value: Value, unit: Unit, timestamp: Timestamp) -> (d: Datum)
        ensures
            d.value == value,
            d.unit == unit,
            d.timestamp == timestamp,
    {
        Datum { value, unit, timestamp }
    }

    /// The datum of `value` and `unit`, taken at the present moment.
    pub fn new_now(value: Value, unit: Unit) -> (d: Datum)
        ensures
            d.value == value,
            d.unit == unit,
    {
        Datum::new(value, unit, Timestamp::now())
    }

    /// A datum holds what its view says it can.
    pub fn check(&self)
        ensures
            self@.wf(),
    {
        self.value.check();
        self.timestamp.check();
    }

    /// A second datum equal to this one.
    pub fn copy(&self) -> (d: Datum)
        ensures
            d@ == self@,
    {
        Datum { value: self.value.copy(), unit: self.unit, timestamp: self.timestamp }
    }

    /// The datum in writing.
    pub fn to_string(&self) -> (s: String)
        ensures
            s@ == self@.text(),
    {
        let mut out = chars_of("{\"value\":\"");
        extend_str(&mut out, self.value.to_string().as_str());
        extend_str(&mut out, "\",\"unit\":\"");
        extend_str(&mut out, self.unit.to_string().as_str());
        extend_str(&mut out, "\",\"timestamp\":\"");
        extend_str(&mut out, self.timestamp.to_rfc3339().as_str());
        extend_str(&mut out, "\"}");
        string_of(&out)
    }

    /// Reads a datum from its writing.
    pub fn parse(s: &str) -> (r: Result<Datum, String>)
        ensures
            seen(r) == parsed(s@),
    {
        let first = inner_of(&chars_of(s));
        let (a, rest) = split_first(&first, ',');
        let second = match rest {
            Some(x) => x,
            None => {
                return Err(phrase("'", s, "' is not formatted like a serialized Datum"));
            },
        };
        let (b, rest) = split_first(&second, ',');
        let third = match rest {
            Some(x) => x,
            None => {
                return Err(phrase("'", s, "' is not formatted like a serialized Datum"));
            },
        };
        let (c, _) = split_first(&third, ',');
        let value = Value::parse(field_of(&a, "\"value\":\"").as_str());
        let unit = Unit::parse(field_of(&b, "\"unit\":\"").as_str());
        let time = Timestamp::parse(field_of(&c, "\"timestamp\":\"").as_str());
        match value {
            Err(m) => Err(m),
            Ok(value) => match unit {
                Err(m) => Err(m),
                Ok(unit) => match time {
                    Err(m) => Err(m),
                    Ok(timestamp) => Ok(Datum { value, unit, timestamp }),
                },
            },
        }
    }

    /// The truth value that the datum holds, if it holds one.
    pub fn get_as_bool(&self) -> (r: Option<bool>)
        ensures
            r == (match self.value {
                Value::Bool(b) => Some(b),
                _ => None,
            }),
    {
        match self.value {
            Value::Bool(value) => Some(value),
            _ => None,
        }
    }

    /// The number with a fraction that the datum holds, if it holds one.
    pub fn get_as_float(&self) -> (r: Option<Number>)
        ensures
            match self.value {
                Value::Float(n) => r is Some && r->0@ == n@,
                _ => r is None,
            },
    {
        match &self.value {
            Value::Float(value) => Some(value.copy()),
            _ => None,
        }
    }

    /// The whole number that the datum holds, if it holds one.
    pub fn get_as_int(&self) -> (r: Option<i32>)
        ensures
            r == (match self.value {
                Value::Int(i) => Some(i),
                _ => None,
            }),
    {
        match self.value {
            Value::Int(value) => Some(value),
            _ => None,
        }
    }
}


/// Every datum is read back from its own writing, if its moment is. That
/// goes for its value, its unit and its moment alike.
pub proof fn lemma_round_trip(d: Reading)
    requires
        d.wf(),
        d.time.comes_back(),
    ensures
        parsed(d.text()) == Ok::<Reading, Seq<char>>(d),
{
    let v = d.value.text();
    let u = d.unit.text();
    let t = rfc3339_text(d.time.secs, d.time.nanos);
    let value_label = "\"value\":\""@;
    let unit_label = "\"unit\":\""@;
    let time_label = "\"timestamp\":\""@;
    let quote = seq!['"'];
    let comma = seq![','];
    let a = value_label + v + quote;
    let b = unit_label + u + quote;
    let c = time_label + t + quote;
    let body = a + comma + (b + comma + c);
    reveal_strlit("{\"value\":\"");
    reveal_strlit("\",\"unit\":\"");
    reveal_strlit("\",\"timestamp\":\"");
    reveal_strlit("\"}");
    reveal_strlit("\"value\":\"");
    reveal_strlit("\"unit\":\"");
    reveal_strlit("\"timestamp\":\"");
    assert("{\"value\":\""@ =~= seq!['{'] + value_label);
    assert("\",\"unit\":\""@ =~= quote + comma + unit_label);
    assert("\",\"timestamp\":\""@ =~= quote + comma + time_label);
    assert("\"}"@ =~= quote + seq!['}']);
    assert(d.text() =~= seq!['{'] + body + seq!['}']);

    crate::value::lemma_text_plain(d.value);
    d.unit.lemma_plain();
    assert(crate::object::all_plain(t)) by {
        assert forall|i: int| 0 <= i < t.len() implies crate::object::is_plain(
            #[trigger] t[i],
        ) by {
            assert(crate::timestamp::is_stamp_char(t[i]));
        }
    }
    // No part holds white space, and only the commas between the pieces are commas.
    assert forall|i: int| 0 <= i < a.len() implies !crate::text::is_space(#[trigger] a[i])
        && a[i] != ',' by {
        if value_label.len() <= i < value_label.len() + v.len() {
            assert(a[i] == v[i - value_label.len()]);
        }
    }
    assert forall|i: int| 0 <= i < b.len() implies !crate::text::is_space(#[trigger] b[i])
        && b[i] != ',' by {
        if unit_label.len() <= i < unit_label.len() + u.len() {
            assert(b[i] == u[i - unit_label.len()]);
        }
    }
    assert forall|i: int| 0 <= i < c.len() implies !crate::text::is_space(#[trigger] c[i])
        && c[i] != ',' by {
        if time_label.len() <= i < time_label.len() + t.len() {
            assert(c[i] == t[i - time_label.len()]);
        }
    }
    assert forall|i: int| 0 <= i < body.len() implies !crate::text::is_space(
        #[trigger] body[i],
    ) by {
        if i < a.len() {
            assert(body[i] == a[i]);
        } else if i == a.len() {
        } else if i < a.len() + 1 + b.len() {
            assert(body[i] == b[i - a.len() - 1]);
        } else if i == a.len() + 1 + b.len() {
        } else {
            assert(body[i] == c[i - a.len() - 1 - b.len() - 1]);
        }
    }
    assert(body[0] == a[0]);
    assert(body.last() == c.last());
    crate::object::lemma_inner(body);
    crate::text::lemma_split(a, b + comma + c, ',');
    crate::text::lemma_split(b, c, ',');
    crate::text::lemma_split(c, Seq::empty(), ',');

    // Each field is read back from behind its label.
    assert(!value_label.is_prefix_of(v + quote)) by {
        assert((v + quote)[0] == v[0]);
        assert(crate::object::is_plain(v[0]));
    }
    assert(!unit_label.is_prefix_of(u + quote)) by {
        if u.len() > 0 {
            assert((u + quote)[0] == u[0]);
            assert(crate::object::is_plain(u[0]));
        }
    }
    assert(!time_label.is_prefix_of(t + quote)) by {
        if t.len() > 0 {
            assert((t + quote)[0] == t[0]);
            assert(crate::object::is_plain(t[0]));
        }
    }
    assert(crate::object::is_plain(v.last()));
    if u.len() > 0 {
        assert(crate::object::is_plain(u.last()));
    }
    if t.len() > 0 {
        assert(crate::object::is_plain(t.last()));
    }
    crate::object::lemma_field(value_label, v);
    crate::object::lemma_field(unit_label, u);
    crate::object::lemma_field(time_label, t);

    crate::value::lemma_round_trip(d.value);
    d.unit.lemma_round_trip();
}

} // verus!
