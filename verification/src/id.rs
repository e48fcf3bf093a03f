//! The identifier of a device.

use vstd::prelude::*;

verus! {

/// The unique, unchanging identifier of a logical device. A sensor and the
/// actuator that belongs to it share one.
#[derive(PartialEq, Eq, Debug, Clone, Hash)]
pub struct Id(pub String);

impl View for Id {
    type V = Seq<char>;

    open spec fn view(&self) -> Seq<char> {
        self.0@
    }
}

impl Id {
    /// The identifier with the characters of `s`.
    pub fn new(s: &str) -> (id: Id)
        ensures
            id@ == s@,
    {
        Id(String::from_str(s))
    }

    /// The identifier, as a string.
    pub fn to_string(&self) -> (s: String)
        ensures
            s@ == self@,
    {
        self.0.clone()
    }

    /// A second identifier with the same characters.
    pub fn copy(&self) -> (id: Id)
        ensures
            id@ == self@,
    {
        Id(self.0.clone())
    }

    /// Whether two identifiers hold the same characters.
    pub fn same(&self, other: &Id) -> (r: bool)
        ensures
            r == (self@ == other@),
    {
        self.0 == other.0
    }
}

} // verus!
