//! The model of a device: what kind of device it is.

use vstd::prelude::*;

use crate::text::{phrase, outcome, same};

verus! {

/// The model names a kind of device. Many devices may share one model; the
/// controller picks its rule by it, and the environment the commands it
/// understands.
#[derive(PartialEq, Eq, Debug, Clone, Copy, Structural)]
pub enum Model {
    Controller,
    Environment,
    Unsupported,
    Thermo5000,
}

impl Model {
    /// The stable lower-case token of the model.
    pub open spec fn text(self) -> Seq<char> {
        match self {
            Model::Controller => "controller"@,
            Model::Environment => "environment"@,
            Model::Unsupported => "unsupported"@,
            Model::Thermo5000 => "thermo5000"@,
        }
    }

    /// What a text denotes: the model whose token it is, or else an error
    /// that quotes the text.
    pub open spec fn parsed(s: Seq<char>) -> Result<Model, Seq<char>> {
        if s == "controller"@ {
            Ok(Model::Controller)
        } else if s == "environment"@ {
            Ok(Model::Environment)
        } else if s == "unsupported"@ {
            Ok(Model::Unsupported)
        } else if s == "thermo5000"@ {
            Ok(Model::Thermo5000)
        } else {
            Err("unknown Model '"@ + s + "'"@)
        }
    }

    /// The token of the model, as a string.
    pub fn to_string(&self) -> (s: String)
        ensures
            s@ == self.text(),
    {
        match self {
            Model::Controller => String::from_str("controller"),
            Model::Environment => String::from_str("environment"),
            Model::Unsupported => String::from_str("unsupported"),
            Model::Thermo5000 => String::from_str("thermo5000"),
        }
    }

    /// Reads a model from its token.
    pub fn parse(s: &str) -> (r: Result<Model, String>)
        ensures
            outcome(r) == Model::parsed(s@),
    {
        if same(s, "controller") {
            Ok(Model::Controller)
        } else if same(s, "environment") {
            Ok(Model::Environment)
        } else if same(s, "unsupported") {
            Ok(Model::Unsupported)
        } else if same(s, "thermo5000") {
            Ok(Model::Thermo5000)
        } else {
            Err(phrase("unknown Model '", s, "'"))
        }
    }

    /// Every model is read back from its own token.
    pub proof fn lemma_round_trip(self)
        ensures
            Model::parsed(self.text()) == Ok::<Model, Seq<char>>(self),
    {
        reveal_strlit("controller");
        reveal_strlit("environment");
        reveal_strlit("unsupported");
        reveal_strlit("thermo5000");
        assert("controller"@[0] == 'c' && "environment"@[0] == 'e' && "unsupported"@[0] == 'u'
            && "thermo5000"@[0] == 't');
    }
}

} // verus!
