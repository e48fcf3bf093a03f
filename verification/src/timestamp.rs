//! The moment at which a datum was taken.

use vstd::prelude::*;

use crate::text::seen;

verus! {

/// A moment as contracts speak of it: whole seconds since the start of
/// 1970 in UTC, and the nanoseconds behind them.
pub ghost struct Instant {
    pub secs: int,
    pub nanos: int,
}

/// The first second that the calendar has: the one with which the year
/// -262143 begins.
pub open spec fn first_second() -> int {
    -8_334_601_228_800
}

/// The last second that the calendar has: the one with which the year
/// 262142 ends.
pub open spec fn last_second() -> int {
    8_210_266_876_799
}

/// Whether the calendar has a moment for these seconds and nanoseconds.
/// The seconds must lie within the years of the calendar. The nanoseconds
/// stay below a second, but in the last second of a minute, where they may
/// count on through a leap second.
pub open spec fn is_moment(secs: int, nanos: int) -> bool {
    &&& first_second() <= secs <= last_second()
    &&& 0 <= nanos
    &&& (nanos < 1_000_000_000 || (nanos < 2_000_000_000 && secs % 60 == 59))
}

/// The moment of these seconds and nanoseconds as RFC 3339 writes it in
/// UTC: what `chrono::DateTime::to_rfc3339` gives.
pub uninterp spec fn rfc3339_text(secs: int, nanos: int) -> Seq<char>;

/// The moment that a text denotes, or the words of the error with which
/// the text is refused: what parsing a `chrono::DateTime<Utc>` from it gives.
pub uninterp spec fn rfc3339_parsed(text: Seq<char>) -> Result<(int, int), Seq<char>>;

/// Whether `c` is a character that a moment is written with.
pub open spec fn is_stamp_char(c: char) -> bool {
    crate::digits::is_digit(c) || c == '+' || c == '-' || c == ':' || c == '.' || c == 'T'
}

impl Instant {
    /// Whether the moment is read back from its own writing, which is made
    /// of the characters that moments are written with.
    pub open spec fn comes_back(self) -> bool {
        &&& forall|i: int|
            0 <= i < rfc3339_text(self.secs, self.nanos).len() ==> is_stamp_char(
                #[trigger] rfc3339_text(self.secs, self.nanos)[i],
            )
        &&& rfc3339_parsed(rfc3339_text(self.secs, self.nanos)) == Ok::<(int, int), Seq<char>>(
            (self.secs, self.nanos),
        )
    }
}

/// What a text denotes as a moment.
pub open spec fn parsed(text: Seq<char>) -> Result<Instant, Seq<char>> {
    match rfc3339_parsed(text) {
        Ok((secs, nanos)) => Ok(Instant { secs, nanos }),
        Err(m) => Err(m),
    }
}

/// `chrono::DateTime::from_timestamp`, asked only whether it gives a
/// moment. It gives one for the seconds of the days from the first of
/// January -262143 to the last of December 262142, and for nanoseconds
/// below a second, or below two where a minute ends.
#[verifier::external_body]
fn moment_exists(secs: i64, nanos: u32) -> (r: bool)
    ensures
        r == is_moment(secs as int, nanos as int),
{
    chrono::DateTime::from_timestamp(secs, nanos).is_some()
}

/// `chrono::DateTime::to_rfc3339` on the moment of `secs` and `nanos`. The
/// text is made of digits, signs, colons, a point and the letter `T` only.
#[verifier::external_body]
fn moment_text(secs: i64, nanos: u32) -> (r: String)
    requires
        is_moment(secs as int, nanos as int),
    ensures
        r@ == rfc3339_text(secs as int, nanos as int),
        forall|i: int| 0 <= i < r@.len() ==> is_stamp_char(#[trigger] r@[i]),
{
    match chrono::DateTime::from_timestamp(secs, nanos) {
        Some(t) => t.to_rfc3339(),
        None => String::new(),
    }
}

/// `str::parse` to a `chrono::DateTime<Utc>`: the seconds and nanoseconds
/// of the moment that the text denotes, which the calendar has, or the
/// words of chrono's error.
#[verifier::external_body]
fn moment_parsed(text: &str) -> (r: Result<(i64, u32), String>)
    ensures
        match r {
            Ok((secs, nanos)) => rfc3339_parsed(text@) == Ok::<(int, int), Seq<char>>(
                (secs as int, nanos as int),
            ) && is_moment(secs as int, nanos as int),
            Err(m) => rfc3339_parsed(text@) == Err::<(int, int), Seq<char>>(m@),
        },
{
    match text.parse::<chrono::DateTime<chrono::Utc>>() {
        Ok(t) => Ok((t.timestamp(), t.timestamp_subsec_nanos())),
        Err(e) => Err(e.to_string()),
    }
}

/// `chrono::Utc::now`: the seconds and nanoseconds of the present moment,
/// which the calendar has. It does not return on a machine whose clock
/// stands before 1970.
#[verifier::external_body]
fn moment_now() -> (r: (i64, u32))
    ensures
        is_moment(r.0 as int, r.1 as int),
{
    let t = chrono::Utc::now();
    (t.timestamp(), t.timestamp_subsec_nanos())
}

/// A moment in time.
#[derive(PartialEq, Eq, Debug, Copy)]
pub struct Timestamp {
    secs: i64,
    nanos: u32,
}

impl View for Timestamp {
    type V = Instant;

    closed spec fn view(&self) -> Instant {
        Instant { secs: self.secs as int, nanos: self.nanos as int }
    }
}

impl Clone for Timestamp {
    fn clone(&self) -> (r: Timestamp)
        ensures
            r == *self,
    {
        *self
    }
}

impl Timestamp {
    #[verifier::type_invariant]
    closed spec fn on_calendar(self) -> bool {
        is_moment(self.secs as int, self.nanos as int)
    }

    /// A timestamp is a moment that the calendar has.
    pub fn check(&self)
        ensures
            is_moment(self@.secs, self@.nanos),
    {
        proof {
            use_type_invariant(self);
        }
    }

    /// The moment `nanos` nanoseconds behind `secs` seconds since the start
    /// of 1970, if the calendar has it.
    pub fn new(secs: i64, nanos: u32) -> (r: Option<Timestamp>)
        ensures
            r is Some <==> is_moment(secs as int, nanos as int),
            r is Some ==> r->0@ == (Instant { secs: secs as int, nanos: nanos as int }),
    {
        if moment_exists(secs, nanos) {
            Some(Timestamp { secs, nanos })
        } else {
            None
        }
    }

    /// The present moment.
    pub fn now() -> (r: Timestamp)
        ensures
            is_moment(r@.secs, r@.nanos),
    {
        let (secs, nanos) = moment_now();
        Timestamp { secs, nanos }
    }

    /// The whole seconds since the start of 1970.
    pub fn secs(&self) -> (r: i64)
        ensures
            r == self@.secs,
    {
        self.secs
    }

    /// The nanoseconds behind the whole seconds.
    pub fn nanos(&self) -> (r: u32)
        ensures
            r == self@.nanos,
    {
        self.nanos
    }

    /// Whether this moment is earlier than `other`.
    pub fn is_before(&self, other: &Timestamp) -> (r: bool)
        ensures
            r == (self@.secs < other@.secs || (self@.secs == other@.secs && self@.nanos
                < other@.nanos)),
    {
        self.secs < other.secs || (self.secs == other.secs && self.nanos < other.nanos)
    }

    /// The moment as RFC 3339 writes it.
    pub fn to_rfc3339(&self) -> (s: String)
        ensures
            s@ == rfc3339_text(self@.secs, self@.nanos),
            forall|i: int| 0 <= i < s@.len() ==> is_stamp_char(#[trigger] s@[i]),
    {
        proof {
            use_type_invariant(self);
        }
        moment_text(self.secs, self.nanos)
    }

    /// Whether the moment is read back from its own writing.
    pub fn comes_back(&self) -> (r: bool)
        ensures
            r == self@.comes_back(),
    {
        let text = self.to_rfc3339();
        match moment_parsed(text.as_str()) {
            Ok((secs, nanos)) => secs == self.secs && nanos == self.nanos,
            Err(_) => false,
        }
    }

    /// Reads a moment from its writing.
    pub fn parse(s: &str) -> (r: Result<Timestamp, String>)
        ensures
            seen(r) == parsed(s@),
    {
        match moment_parsed(s) {
            Ok((secs, nanos)) => Ok(Timestamp { secs, nanos }),
            Err(m) => Err(m),
        }
    }
}

} // verus!
