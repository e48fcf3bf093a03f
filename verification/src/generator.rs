//! What makes up the data of the environment.
//!
//! A generator makes the data of one sensor: truth values that alternate,
//! whole numbers that rise or fall with time, or numbers with a fraction.
//! Of a number with a fraction the generator holds the constant part, which
//! commands raise and lower; what changes with time is made outside, by the
//! program around the library, and added here.

use vstd::prelude::*;

use crate::command::{Command, Order};
use crate::datum::{Datum, Reading};
use crate::kind::Kind;
use crate::number::{can_add, can_shift, is_shifted, is_sum, Decimal, Number};
use crate::timestamp::{Instant, Timestamp};
use crate::unit::Unit;
use crate::value::{Scalar, Value};

verus! {

/// The milliseconds from the moment `t0` to the moment `now`, a part of a
/// millisecond counting for nothing.
pub open spec fn since(t0: Instant, now: Instant) -> int {
    let d = (now.secs - t0.secs) * 1_000_000_000 + (now.nanos - t0.nanos);
    if d >= 0 {
        d / 1_000_000
    } else {
        -((-d) / 1_000_000)
    }
}

/// The whole number between `-noise` and `noise` that the chance `chance`
/// stands for.
pub open spec fn jitter(noise: u32, chance: u32) -> int {
    (chance as int) % (2 * noise + 1) - noise
}

/// `v` where it is a value of 32 bits, and else the nearest such value.
pub open spec fn clamped(v: int) -> int {
    if v < i32::MIN {
        i32::MIN as int
    } else if v > i32::MAX {
        i32::MAX as int
    } else {
        v
    }
}

/// The whole number that rises by `slope` in every millisecond, after `t`
/// milliseconds and off by `noise`.
pub open spec fn linear(slope: i32, t: int, noise: int) -> int {
    clamped(slope * t + noise)
}

/// With a slope above zero and without noise, a later value is never below
/// an earlier one, and it is above it as long as both are values of 32 bits.
pub proof fn lemma_linear_rises(slope: i32, t1: int, t2: int)
    requires
        slope > 0,
        t1 < t2,
    ensures
        linear(slope, t1, 0) <= linear(slope, t2, 0),
        i32::MIN <= slope * t1 && slope * t2 <= i32::MAX ==> linear(slope, t1, 0) < linear(
            slope,
            t2,
            0,
        ),
{
    let s = slope as int;
    assert(s * t1 < s * t2) by (nonlinear_arith)
        requires
            s > 0,
            t1 < t2,
    ;
}

/// A generator of whole numbers: they start at nothing at the moment `t0`
/// and change by `slope` in every millisecond, off by no more than `noise`.
#[derive(Debug, PartialEq, Clone, Copy)]
pub struct Linear {
    pub t0: Timestamp,
    pub slope: i32,
    pub noise: u32,
}

/// Where the values of a generator come from.
#[derive(Debug, PartialEq)]
pub enum Source {
    /// Truth values that alternate; this one is the next.
    Bool(bool),
    /// Whole numbers that change with time.
    Int(Linear),
    /// Numbers with a fraction: this constant, and what is made outside.
    Float(Number),
}

/// The generator of the data of one sensor.
#[derive(Debug, PartialEq)]
pub struct DatumGenerator {
    pub unit: Unit,
    pub source: Source,
}

/// The source of a generator as contracts speak of it.
pub ghost enum Origin {
    Bool(bool),
    Int(Linear),
    Float(Decimal),
}

/// A generator as contracts speak of it.
pub ghost struct Making {
    pub unit: Unit,
    pub source: Origin,
}

impl View for Source {
    type V = Origin;

    open spec fn view(&self) -> Origin {
        match self {
            Source::Bool(b) => Origin::Bool(*b),
            Source::Int(l) => Origin::Int(*l),
            Source::Float(c) => Origin::Float(c@),
        }
    }
}

impl View for DatumGenerator {
    type V = Making;

    open spec fn view(&self) -> Making {
        Making { unit: self.unit, source: self.source@ }
    }
}

/// Nothing, as a number.
pub open spec fn nothing() -> Decimal {
    Decimal { negative: false, whole: 0, digits: seq![0u8] }
}

/// The whole number that the generator `l` makes at the moment `now` with
/// the chance `chance`.
pub open spec fn whole(l: Linear, now: Instant, chance: u32) -> int {
    linear(l.slope, since(l.t0@, now), jitter(l.noise, chance))
}

/// The datum that the generator `g` makes at the moment `now` with the
/// chance `chance`, if it makes its data all by itself.
pub open spec fn made(g: Making, now: Instant, chance: u32) -> Option<Reading> {
    match g.source {
        Origin::Bool(b) => Some(Reading { value: Scalar::Bool(b), unit: g.unit, time: now }),
        Origin::Int(l) => Some(
            Reading { value: Scalar::Int(whole(l, now, chance)), unit: g.unit, time: now },
        ),
        Origin::Float(_) => None,
    }
}

/// The generator `g` after it has made a datum: truth values alternate,
/// and nothing else changes.
pub open spec fn advanced(g: Making) -> Making {
    match g.source {
        Origin::Bool(b) => Making { source: Origin::Bool(!b), ..g },
        _ => g,
    }
}

/// The generator that a sensor of `kind` and `unit` is given when it is
/// first met, at the moment `now`.
pub open spec fn first_met(kind: Kind, unit: Unit, now: Timestamp) -> Making {
    Making {
        unit,
        source: match kind {
            Kind::Bool => Origin::Bool(false),
            Kind::Int => Origin::Int(Linear { t0: now, slope: 1, noise: 1 }),
            Kind::Float => Origin::Float(nothing()),
        },
    }
}

/// Whether the generator `g` can be changed as `order` says: it must make
/// numbers with a fraction, and its constant must stay a number.
pub open spec fn can_adjust(g: Making, order: Order) -> bool {
    g.source matches Origin::Float(c) && can_shift(c, order.amount(), order is HeatBy)
}

/// Whether `after` is the generator `g` changed as `order` says: its
/// constant is raised by the hundredth part of what the order says to heat
/// by, or lowered by the hundredth part of what it says to cool by.
pub open spec fn is_adjusted(g: Making, order: Order, after: Making) -> bool {
    &&& after.unit == g.unit
    &&& g.source matches Origin::Float(c)
    &&& after.source matches Origin::Float(c2)
    &&& is_shifted(c, order.amount(), order is HeatBy, c2)
}

/// A generator of whole numbers with a slope above zero and without noise
/// makes a greater number at a later millisecond, as long as its numbers
/// are of 32 bits, and never a smaller one.
pub proof fn lemma_generator_rises(
    l: Linear,
    earlier: Instant,
    later: Instant,
    chance1: u32,
    chance2: u32,
)
    requires
        l.slope > 0,
        l.noise == 0,
        since(l.t0@, earlier) < since(l.t0@, later),
    ensures
        whole(l, earlier, chance1) <= whole(l, later, chance2),
        i32::MIN <= l.slope * since(l.t0@, earlier) && l.slope * since(l.t0@, later) <= i32::MAX
            ==> whole(l, earlier, chance1) < whole(l, later, chance2),
{
    lemma_linear_rises(l.slope, since(l.t0@, earlier), since(l.t0@, later));
}

/// `rand::random` for a number of 32 bits: any such number may come.
#[verifier::external_body]
pub(crate) fn chance() -> (r: u32) {
    rand::random::<u32>()
}

/// The milliseconds from `t0` to `now`.
pub fn elapsed(t0: &Timestamp, now: &Timestamp) -> (r: i128)
    ensures
        r == since(t0@, now@),
        -20_000_000_000_000_000_000_000 <= r <= 20_000_000_000_000_000_000_000,
{
    let secs: i128 = now.secs() as i128 - t0.secs() as i128;
    let nanos: i128 = now.nanos() as i128 - t0.nanos() as i128;
    let d: i128 = secs * 1_000_000_000 + nanos;
    if d >= 0 {
        d / 1_000_000
    } else {
        -((-d) / 1_000_000)
    }
}

/// [`jitter`], executable.
pub fn jitter_of(noise: u32, chance: u32) -> (r: i64)
    ensures
        r == jitter(noise, chance),
        -(noise as int) <= r <= noise as int,
{
    let span: u64 = 2 * (noise as u64) + 1;
    let k: u64 = (chance as u64) % span;
    k as i64 - noise as i64
}

impl DatumGenerator {
    /// A generator of truth values that alternate, `first` being the first.
    pub fn alternating(first: bool, unit: Unit) -> (g: DatumGenerator)
        ensures
            g@ == (Making { unit, source: Origin::Bool(first) }),
    {
        DatumGenerator { unit, source: Source::Bool(first) }
    }

    /// A generator of whole numbers that start at the moment `t0`.
    pub fn rising(slope: i32, noise: u32, unit: Unit, t0: Timestamp) -> (g: DatumGenerator)
        ensures
            g@ == (Making { unit, source: Origin::Int(Linear { t0, slope, noise }) }),
    {
        DatumGenerator { unit, source: Source::Int(Linear { t0, slope, noise }) }
    }

    /// A generator of numbers with a fraction around `constant`.
    pub fn around(constant: Number, unit: Unit) -> (g: DatumGenerator)
        ensures
            g@ == (Making { unit, source: Origin::Float(constant@) }),
    {
        DatumGenerator { unit, source: Source::Float(constant) }
    }

    /// The generator for a sensor of `kind` and `unit` that is first met at
    /// the moment `now`.
    pub fn new(kind: Kind, unit: Unit, now: Timestamp) -> (g: DatumGenerator)
        ensures
            g@ == first_met(kind, unit, now),
    {
        match kind {
            Kind::Bool => DatumGenerator::alternating(false, unit),
            Kind::Int => DatumGenerator::rising(1, 1, unit, now),
            Kind::Float => DatumGenerator::around(Number::of_whole(false, 0), unit),
        }
    }

    /// A second generator equal to this one.
    pub fn copy(&self) -> (g: DatumGenerator)
        ensures
            g@ == self@,
    {
        let source = match &self.source {
            Source::Bool(b) => Source::Bool(*b),
            Source::Int(l) => Source::Int(*l),
            Source::Float(c) => Source::Float(c.copy()),
        };
        DatumGenerator { unit: self.unit, source }
    }

    /// The datum that the generator makes at the moment `now` with the
    /// chance `chance`, and the generator after it. A generator of numbers
    /// with a fraction makes none by itself.
    pub fn generate_at(&self, now: Timestamp, chance: u32) -> (r: (DatumGenerator, Option<Datum>))
        ensures
            r.0@ == advanced(self@),
            r.1 is Some <==> made(self@, now@, chance) is Some,
            r.1 is Some ==> r.1->0@ == made(self@, now@, chance)->0,
    {
        match &self.source {
            Source::Bool(b) => (
                DatumGenerator { unit: self.unit, source: Source::Bool(!*b) },
                Some(Datum::new(Value::Bool(*b), self.unit, now)),
            ),
            Source::Int(l) => {
                let t = elapsed(&l.t0, &now);
                let j = jitter_of(l.noise, chance);
                assert(-43_000_000_000_000_000_000_000_000_000_000 <= l.slope * t
                    <= 43_000_000_000_000_000_000_000_000_000_000) by (nonlinear_arith)
                    requires
                        -20_000_000_000_000_000_000_000 <= t <= 20_000_000_000_000_000_000_000,
                        -2147483648 <= l.slope <= 2147483647,
                ;
                let raw: i128 = (l.slope as i128) * t + j as i128;
                let v: i32 = if raw < i32::MIN as i128 {
                    i32::MIN
                } else if raw > i32::MAX as i128 {
                    i32::MAX
                } else {
                    raw as i32
                };
                (self.copy(), Some(Datum::new(Value::Int(v), self.unit, now)))
            },
            Source::Float(_) => (self.copy(), None),
        }
    }

    /// The datum that the generator makes now, and the generator after it:
    /// what [`DatumGenerator::generate_at`] gives for the present moment
    /// and some chance.
    pub fn generate(&self) -> (r: (DatumGenerator, Option<Datum>))
        ensures
            r.0@ == advanced(self@),
            r.1 is Some <==> !(self@.source is Float),
            r.1 is Some ==> exists|chance: u32|
                r.1->0@ == #[trigger] made(self@, r.1->0.timestamp@, chance)->0,
    {
        let now = Timestamp::now();
        let c = chance();
        let r = self.generate_at(now, c);
        assert(r.1 is Some ==> r.1->0@ == made(self@, r.1->0.timestamp@, c)->0);
        r
    }

    /// The datum of a generator of numbers with a fraction at the moment
    /// `now`: the sum of its constant and of `wave`, which was made outside.
    /// There is none where the generator makes no such numbers, and where
    /// the sum is no number any more.
    pub fn sample(&self, wave: &Number, now: Timestamp) -> (r: Option<Datum>)
        ensures
            r is Some <==> (self@.source matches Origin::Float(c) && can_add(c, wave@)),
            r is Some ==> r->0@.unit == self.unit && r->0@.time == now@ && (
            r->0@.value matches Scalar::Float(v) && is_sum(self@.source->Float_0, wave@, v)),
    {
        match &self.source {
            Source::Float(c) => match c.sum(wave) {
                Some(v) => Some(Datum::new(Value::Float(v), self.unit, now)),
                None => None,
            },
            _ => None,
        }
    }

    /// The generator changed as `command` says, if it can be.
    pub fn adjusted(&self, command: &Command) -> (r: Option<DatumGenerator>)
        ensures
            r is Some <==> can_adjust(self@, command@),
            r is Some ==> is_adjusted(self@, command@, r->0@),
    {
        match &self.source {
            Source::Float(c) => {
                let next = match command {
                    Command::HeatBy(amount) => c.shifted(amount, true),
                    Command::CoolBy(amount) => c.shifted(amount, false),
                };
                match next {
                    Some(constant) => Some(DatumGenerator::around(constant, self.unit)),
                    None => None,
                }
            },
            _ => None,
        }
    }
}

} // verus!
