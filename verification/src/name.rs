//! The name that a user gives to a device.

use vstd::prelude::*;

verus! {

/// The friendly name of a device. Unlike the identifier it may change and
/// need not be unique.
#[derive(PartialEq, Debug, Clone)]
pub struct Name(pub String);

impl View for Name {
    type V = Seq<char>;

    open spec fn view(&self) -> Seq<char> {
        self.0@
    }
}

impl Name {
    /// The name with the characters of `s`.
    pub fn new(s: &str) -> (name: Name)
        ensures
            name@ == s@,
    {
        Name(String::from_str(s))
    }

    /// The name, as a string.
    pub fn to_string(&self) -> (s: String)
        ensures
            s@ == self@,
    {
        self.0.clone()
    }

    /// A second name with the same characters.
    pub fn copy(&self) -> (name: Name)
        ensures
            name@ == self@,
    {
        Name(self.0.clone())
    }
}

} // verus!
