//! The commands of the Thermo5000.

use vstd::prelude::*;

use crate::number::{parsed as number_parsed, Decimal, Number};
use crate::object::{field, field_of, inner, inner_of};
use crate::digits::{decimal, is_digit, lemma_decimal};
use crate::text::{
    chars_of, extend_str, head, lemma_first_index, phrase, same, seen, split_first, string_of,
    tail,
};

verus! {

/// A command as contracts speak of it.
pub ghost enum Order {
    CoolBy(Decimal),
    HeatBy(Decimal),
}

impl Order {
    /// Whether the order is one that a [`Command`] can hold.
    pub open spec fn wf(self) -> bool {
        self.amount().wf()
    }

    /// By how many degrees Celsius the environment is to change.
    pub open spec fn amount(self) -> Decimal {
        match self {
            Order::CoolBy(d) => d,
            Order::HeatBy(d) => d,
        }
    }

    /// The name of the command.
    pub open spec fn name(self) -> Seq<char> {
        match self {
            Order::CoolBy(_) => "CoolBy"@,
            Order::HeatBy(_) => "HeatBy"@,
        }
    }

    /// The order in writing: an object of the two fields `name` and
    /// `value`, in this order and without any space. The amount is written
    /// as briefly as it can be: a whole one without point and fraction.
    pub open spec fn text(self) -> Seq<char> {
        "{\"name\":\""@ + self.name() + "\",\"value\":\""@ + self.amount().brief() + "\"}"@
    }
}

/// The error for a text that is no command.
pub open spec fn no_command(s: Seq<char>) -> Seq<char> {
    "cannot parse '"@ + s + "' as Command"@
}

/// The error for an amount that is no number.
pub open spec fn no_amount(s: Seq<char>) -> Seq<char> {
    "cannot parse '"@ + s + "' as f32"@
}

/// What a text denotes as a command. What stands between its braces is cut
/// at the commas, and must fall into two pieces: the first holds the name
/// and the second the value. The name must be that of a command, and the
/// value a number.
pub open spec fn parsed(s: Seq<char>) -> Result<Order, Seq<char>> {
    let first = inner(s);
    match tail(first, ',') {
        None => Err(no_command(s)),
        Some(second) => {
            let name = field(head(first, ','), "\"name\":\""@);
            let value = field(second, "\"value\":\""@);
            if tail(second, ',') is Some {
                Err(no_command(s))
            } else if name == "CoolBy"@ {
                match number_parsed(value) {
                    Some(d) => Ok(Order::CoolBy(d)),
                    None => Err(no_amount(value)),
                }
            } else if name == "HeatBy"@ {
                match number_parsed(value) {
                    Some(d) => Ok(Order::HeatBy(d)),
                    None => Err(no_amount(value)),
                }
            } else {
                Err(no_command(s))
            }
        },
    }
}

/// What the controller can tell the actuator of a Thermo5000: to cool the
/// environment, or to heat it, by so many degrees Celsius.
#[derive(PartialEq, Debug, Clone)]
pub enum Command {
    CoolBy(Number),
    HeatBy(Number),
}

impl View for Command {
    type V = Order;

    open spec fn view(&self) -> Order {
        match self {
            Command::CoolBy(n) => Order::CoolBy(n@),
            Command::HeatBy(n) => Order::HeatBy(n@),
        }
    }
}

impl Command {
    /// A command holds what its view says it can.
    pub fn check(&self)
        ensures
            self@.wf(),
    {
        match self {
            Command::CoolBy(n) => n.check(),
            Command::HeatBy(n) => n.check(),
        }
    }

    /// The command in writing.
    pub fn to_string(&self) -> (s: String)
        ensures
            s@ == self@.text(),
    {
        let mut out = chars_of("{\"name\":\"");
        match self {
            Command::CoolBy(n) => {
                extend_str(&mut out, "CoolBy");
                extend_str(&mut out, "\",\"value\":\"");
                n.write_brief(&mut out);
            },
            Command::HeatBy(n) => {
                extend_str(&mut out, "HeatBy");
                extend_str(&mut out, "\",\"value\":\"");
                n.write_brief(&mut out);
            },
        }
        extend_str(&mut out, "\"}");
        string_of(&out)
    }

    /// Reads a command from its writing.
    pub fn parse(s: &str) -> (r: Result<Command, String>)
        ensures
            seen(r) == parsed(s@),
    {
        let first = inner_of(&chars_of(s));
        let (a, rest) = split_first(&first, ',');
        let second = match rest {
            Some(x) => x,
            None => {
                return Err(phrase("cannot parse '", s, "' as Command"));
            },
        };
        let (b, third) = split_first(&second, ',');
        if third.is_some() {
            return Err(phrase("cannot parse '", s, "' as Command"));
        }
        proof {
            lemma_first_index(second@, ',');
            assert(b@ =~= second@);
        }
        let name = field_of(&a, "\"name\":\"");
        let value = field_of(&b, "\"value\":\"");
        if same(name.as_str(), "CoolBy") {
            match Number::parse(value.as_str()) {
                Some(n) => Ok(Command::CoolBy(n)),
                None => Err(phrase("cannot parse '", value.as_str(), "' as f32")),
            }
        } else if same(name.as_str(), "HeatBy") {
            match Number::parse(value.as_str()) {
                Some(n) => Ok(Command::HeatBy(n)),
                None => Err(phrase("cannot parse '", value.as_str(), "' as f32")),
            }
        } else {
            Err(phrase("cannot parse '", s, "' as Command"))
        }
    }
}


/// A number in its briefest writing is not empty, holds plain characters
/// only, and starts with a digit or with the sign.
pub proof fn lemma_brief_plain(d: Decimal)
    requires
        d.wf(),
    ensures
        d.brief().len() > 0,
        crate::object::all_plain(d.brief()),
        d.brief()[0] == '-' || is_digit(d.brief()[0]),
{
    if d.is_whole() {
        let s = d.brief();
        let sign: Seq<char> = if d.negative {
            seq!['-']
        } else {
            Seq::empty()
        };
        let w = decimal(d.whole);
        lemma_decimal(d.whole);
        assert(s =~= sign + w);
        assert forall|k: int| 0 <= k < s.len() implies crate::object::is_plain(#[trigger] s[k]) by {
            if k >= sign.len() {
                assert(s[k] == w[k - sign.len()]);
                assert(is_digit(w[k - sign.len()]));
            }
        }
        if !d.negative {
            assert(s[0] == w[0]);
            assert(is_digit(w[0]));
        }
    } else {
        crate::value::lemma_number_plain(d);
    }
}

/// Every command is read back from its own writing.
pub proof fn lemma_round_trip(o: Order)
    requires
        o.wf(),
    ensures
        parsed(o.text()) == Ok::<Order, Seq<char>>(o),
{
    let n = o.name();
    let v = o.amount().brief();
    let name_label = "\"name\":\""@;
    let value_label = "\"value\":\""@;
    let quote = seq!['"'];
    let comma = seq![','];
    let a = name_label + n + quote;
    let b = value_label + v + quote;
    let body = a + comma + b;
    reveal_strlit("{\"name\":\"");
    reveal_strlit("\",\"value\":\"");
    reveal_strlit("\"}");
    reveal_strlit("\"name\":\"");
    reveal_strlit("\"value\":\"");
    reveal_strlit("CoolBy");
    reveal_strlit("HeatBy");
    assert("{\"name\":\""@ =~= seq!['{'] + name_label);
    assert("\",\"value\":\""@ =~= quote + comma + value_label);
    assert("\"}"@ =~= quote + seq!['}']);
    assert(o.text() =~= seq!['{'] + body + seq!['}']);
    lemma_brief_plain(o.amount());
    assert forall|i: int| 0 <= i < a.len() implies !crate::text::is_space(#[trigger] a[i])
        && a[i] != ',' by {
        if name_label.len() <= i < name_label.len() + n.len() {
            assert(a[i] == n[i - name_label.len()]);
        }
    }
    assert forall|i: int| 0 <= i < b.len() implies !crate::text::is_space(#[trigger] b[i])
        && b[i] != ',' by {
        if value_label.len() <= i < value_label.len() + v.len() {
            assert(b[i] == v[i - value_label.len()]);
            assert(crate::object::is_plain(v[i - value_label.len()]));
        }
    }
    assert forall|i: int| 0 <= i < body.len() implies !crate::text::is_space(
        #[trigger] body[i],
    ) by {
        if i < a.len() {
            assert(body[i] == a[i]);
        } else if i > a.len() {
            assert(body[i] == b[i - a.len() - 1]);
        }
    }
    assert(body[0] == a[0]);
    assert(body.last() == b.last());
    crate::object::lemma_inner(body);
    crate::text::lemma_split(a, b, ',');
    crate::text::lemma_split(b, Seq::empty(), ',');
    assert(!name_label.is_prefix_of(n + quote)) by {
        assert((n + quote)[0] == n[0]);
    }
    assert(!value_label.is_prefix_of(v + quote)) by {
        assert((v + quote)[0] == v[0]);
        assert(crate::object::is_plain(v[0]));
    }
    assert(crate::object::is_plain(v.last()));
    crate::object::lemma_field(name_label, n);
    crate::object::lemma_field(value_label, v);
    crate::number::lemma_brief_round_trip(o.amount());
    assert("CoolBy"@[0] == 'C' && "HeatBy"@[0] == 'H');
}

} // verus!
