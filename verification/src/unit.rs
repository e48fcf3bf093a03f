//! The unit that belongs to a measured value.

use vstd::prelude::*;

use crate::text::{phrase, outcome, same};

verus! {

/// The unit of a value. On the wire it is its glyph: nothing for a value
/// without unit, `⏼` for a power state, `°C` for degrees Celsius.
#[derive(PartialEq, Eq, Debug, Clone, Copy, Structural)]
pub enum Unit {
    Unitless,
    PoweredOn,
    DegreesC,
}

impl Unit {
    /// The glyph of the unit.
    pub open spec fn text(self) -> Seq<char> {
        match self {
            Unit::Unitless => Seq::empty(),
            Unit::PoweredOn => seq!['⏼'],
            Unit::DegreesC => seq!['°', 'C'],
        }
    }

    /// What a text denotes: the unit whose glyph it is, or else an error
    /// that quotes the text.
    pub open spec fn parsed(s: Seq<char>) -> Result<Unit, Seq<char>> {
        if s == Unit::Unitless.text() {
            Ok(Unit::Unitless)
        } else if s == Unit::PoweredOn.text() {
            Ok(Unit::PoweredOn)
        } else if s == Unit::DegreesC.text() {
            Ok(Unit::DegreesC)
        } else {
            Err("cannot parse '"@ + s + "' as a Unit"@)
        }
    }

    /// The glyph of the unit, as a string.
    pub fn to_string(&self) -> (s: String)
        ensures
            s@ == self.text(),
    {
        proof {
            reveal_strlit("");
            reveal_strlit("⏼");
            reveal_strlit("°C");
        }
        let s = match self {
            Unit::Unitless => String::from_str(""),
            Unit::PoweredOn => String::from_str("⏼"),
            Unit::DegreesC => String::from_str("°C"),
        };
        assert(s@ =~= self.text());
        s
    }

    /// Reads a unit from its glyph.
    pub fn parse(s: &str) -> (r: Result<Unit, String>)
        ensures
            outcome(r) == Unit::parsed(s@),
    {
        proof {
            reveal_strlit("");
            reveal_strlit("⏼");
            reveal_strlit("°C");
            assert(""@ =~= Unit::Unitless.text());
            assert("⏼"@ =~= Unit::PoweredOn.text());
            assert("°C"@ =~= Unit::DegreesC.text());
        }
        if same(s, "") {
            Ok(Unit::Unitless)
        } else if same(s, "⏼") {
            Ok(Unit::PoweredOn)
        } else if same(s, "°C") {
            Ok(Unit::DegreesC)
        } else {
            Err(phrase("cannot parse '", s, "' as a Unit"))
        }
    }

    /// The glyph of a unit holds plain characters only.
    pub proof fn lemma_plain(self)
        ensures
            crate::object::all_plain(self.text()),
    {
    }

    /// Every unit is read back from its own glyph.
    pub proof fn lemma_round_trip(self)
        ensures
            Unit::parsed(self.text()) == Ok::<Unit, Seq<char>>(self),
    {
        assert(Unit::PoweredOn.text()[0] == '⏼');
        assert(Unit::DegreesC.text().len() == 2);
        assert(Unit::PoweredOn.text().len() == 1);
    }
}

} // verus!
