//! The rules by which the controller decides on a command.

use vstd::prelude::*;

use crate::command::{Command, Order};
use crate::datum::{Datum, Reading};
use crate::model::Model;
use crate::number::{pow10, whole_limit, Decimal, Number};
use crate::unit::Unit;
use crate::value::{Scalar, Value};

verus! {

/// The temperature at which the Thermo5000 aims, in whole degrees Celsius.
pub open spec fn target() -> int {
    25
}

/// The temperature above which the Thermo5000 is told to cool.
pub open spec fn warmest() -> int {
    28
}

/// The temperature below which the Thermo5000 is told to heat.
pub open spec fn coldest() -> int {
    22
}

/// The temperature that a datum gives, where it gives one: the number that
/// it holds in degrees Celsius.
pub open spec fn temperature(d: Reading) -> Option<Decimal> {
    match d.value {
        Scalar::Float(t) => if d.unit == Unit::DegreesC {
            Some(t)
        } else {
            None
        },
        _ => None,
    }
}

/// Whether the rule can be asked about a datum: it must give a
/// temperature.
pub open spec fn assessable(d: Reading) -> bool {
    temperature(d) is Some
}

/// The largest amount that a command can name: the whole number at the
/// limit of the numbers.
pub open spec fn largest() -> Decimal {
    Decimal { negative: false, whole: whole_limit(), digits: seq![0u8] }
}

/// Whether `t` lies so far below zero that its distance to the target
/// passes the largest number.
pub open spec fn out_of_reach(t: Decimal) -> bool {
    t.negative && t.whole + target() > whole_limit()
}

/// By how much to heat at the temperature `t`, which is below the target:
/// by what `t` is below the target, or by the largest amount where `t` is
/// out of reach.
pub open spec fn shortfall(t: Decimal) -> Decimal {
    if out_of_reach(t) {
        largest()
    } else {
        t.taken_from(target() as nat)
    }
}

/// What the rule of the Thermo5000 says of the temperature `t`: to cool by
/// what `t` is above the target where it is above the warmest, to heat by
/// what it is below the target where it is below the coldest, and nothing
/// in between, the two bounds included.
pub open spec fn ruling(t: Decimal) -> Option<Order> {
    if t.above(warmest()) {
        Some(Order::CoolBy(t.less(target() as nat)))
    } else if t.below(coldest()) {
        Some(Order::HeatBy(shortfall(t)))
    } else {
        None
    }
}

/// What a rule says of a datum, if the rule can be asked about it.
pub open spec fn verdict(assessor: Option<Assessor>, d: Reading) -> Option<Order> {
    if assessor is Some && assessable(d) {
        ruling(temperature(d)->0)
    } else {
        None
    }
}

/// A rule that looks at one datum and says which command, if any, it calls
/// for. Each model has its rule; a device may be given another.
#[derive(PartialEq, Eq, Debug, Clone, Copy, Structural)]
pub enum Assessor {
    Thermo5000,
}

impl Assessor {
    /// The rule that a model has unless a device is given another: one for
    /// the Thermo5000, none for the others.
    pub open spec fn default_of(model: Model) -> Option<Assessor> {
        match model {
            Model::Thermo5000 => Some(Assessor::Thermo5000),
            _ => None,
        }
    }

    /// The rule of `model`, if it has one.
    pub fn default_for(model: Model) -> (r: Option<Assessor>)
        ensures
            r == Assessor::default_of(model),
    {
        match model {
            Model::Thermo5000 => Some(Assessor::Thermo5000),
            _ => None,
        }
    }

    /// Whether the rule can be asked about `datum`.
    pub fn takes(&self, datum: &Datum) -> (r: bool)
        ensures
            r == assessable(datum@),
    {
        match &datum.value {
            Value::Float(_) => {
                match datum.unit {
                    Unit::DegreesC => true,
                    _ => false,
                }
            },
            _ => false,
        }
    }

    /// What the rule says of `datum`. Outside the band from the coldest to
    /// the warmest temperature it calls for a command, inside it and on its
    /// bounds for none.
    pub fn assess(&self, datum: &Datum) -> (r: Option<Command>)
        requires
            assessable(datum@),
        ensures
            r is Some <==> ruling(temperature(datum@)->0) is Some,
            r is Some ==> r->0@ == ruling(temperature(datum@)->0)->0,
            r is None <==> !temperature(datum@)->0.above(warmest()) && !temperature(
                datum@,
            )->0.below(coldest()),
    {
        match &datum.value {
            Value::Float(t) => {
                t.check();
                proof {
                    crate::number::lemma_order(t@, 28);
                    crate::number::lemma_order(t@, 22);
                    crate::number::lemma_order(t@, 25);
                }
                if t.above(28) {
                    Some(Command::CoolBy(t.less(25)))
                } else if t.below(22) {
                    if t.is_negative() && t.whole_part() > u128::MAX - 25 {
                        Some(Command::HeatBy(Number::of_whole(false, u128::MAX)))
                    } else {
                        Some(Command::HeatBy(t.taken_from(25)))
                    }
                } else {
                    None
                }
            },
            _ => None,
        }
    }
}


/// Outside the band from the coldest to the warmest temperature the rule
/// of the Thermo5000 calls for a command, and inside it, the two bounds
/// included, for none. The command cools by exactly what the temperature
/// is above the target, or heats by exactly what it is below, or by the
/// largest amount where the temperature is out of reach; and the amount is
/// a number in its one form.
pub proof fn lemma_ruling(t: Decimal)
    requires
        t.wf(),
    ensures
        ruling(t) is None <==> !t.above(warmest()) && !t.below(coldest()),
        t.above(warmest()) ==> (ruling(t) matches Some(Order::CoolBy(a)) && a.wf() && a.scale()
            == t.scale() && a.scaled() == t.scaled() - target() * pow10(t.scale())),
        t.below(coldest()) ==> (ruling(t) matches Some(Order::HeatBy(a)) && a.wf()),
        t.below(coldest()) && !out_of_reach(t) ==> (ruling(t) matches Some(Order::HeatBy(a))
            && a.scale() == t.scale() && a.scaled() == target() * pow10(t.scale()) - t.scaled()),
        out_of_reach(t) ==> t.below(coldest()) && ruling(t) == Some(Order::HeatBy(largest())),
        !(t.above(warmest()) && t.below(coldest())),
{
    crate::number::lemma_order(t, 28);
    crate::number::lemma_order(t, 22);
    crate::number::lemma_order(t, 25);
    if t.above(warmest()) {
        crate::number::lemma_less(t, 25);
    } else if t.below(coldest()) {
        if !out_of_reach(t) {
            crate::number::lemma_taken_from(t, 25);
        }
    }
}

} // verus!
