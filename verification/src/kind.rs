//! The kind of value that a datum holds.

use vstd::prelude::*;

use crate::text::{phrase, outcome, same};

verus! {

/// Which kind of value a device measures: a truth value, a number with a
/// fraction, or a whole number.
#[derive(PartialEq, Eq, Debug, Clone, Copy, Structural)]
pub enum Kind {
    Bool,
    Float,
    Int,
}

impl Kind {
    /// The lower-case token of the kind.
    pub open spec fn text(self) -> Seq<char> {
        match self {
            Kind::Bool => "bool"@,
            Kind::Float => "float"@,
            Kind::Int => "int"@,
        }
    }

    /// What a text denotes: the kind whose token it is, or else an error
    /// that quotes the text.
    pub open spec fn parsed(s: Seq<char>) -> Result<Kind, Seq<char>> {
        if s == "bool"@ {
            Ok(Kind::Bool)
        } else if s == "float"@ {
            Ok(Kind::Float)
        } else if s == "int"@ {
            Ok(Kind::Int)
        } else {
            Err("cannot parse DatumValueType from: "@ + s)
        }
    }

    /// The token of the kind, as a string.
    pub fn to_string(&self) -> (s: String)
        ensures
            s@ == self.text(),
    {
        match self {
            Kind::Bool => String::from_str("bool"),
            Kind::Float => String::from_str("float"),
            Kind::Int => String::from_str("int"),
        }
    }

    /// Reads a kind from its token.
    pub fn parse(s: &str) -> (r: Result<Kind, String>)
        ensures
            outcome(r) == Kind::parsed(s@),
    {
        if same(s, "bool") {
            Ok(Kind::Bool)
        } else if same(s, "float") {
            Ok(Kind::Float)
        } else if same(s, "int") {
            Ok(Kind::Int)
        } else {
            let m = phrase("cannot parse DatumValueType from: ", s, "");
            proof {
                reveal_strlit("");
                assert(m@ =~= "cannot parse DatumValueType from: "@ + s@);
            }
            Err(m)
        }
    }

    /// Every kind is read back from its own token.
    pub proof fn lemma_round_trip(self)
        ensures
            Kind::parsed(self.text()) == Ok::<Kind, Seq<char>>(self),
    {
        reveal_strlit("bool");
        reveal_strlit("float");
        reveal_strlit("int");
        assert("bool"@.len() == 4 && "float"@.len() == 5 && "int"@.len() == 3);
    }
}

} // verus!
