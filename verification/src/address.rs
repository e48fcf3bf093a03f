//! Where a device can be reached.

use vstd::prelude::*;

use crate::digits::{decimal, push_decimal};
use crate::text::{chars_of, string_of};

verus! {

/// The host and port at which a device listens. The host is held in its
/// written form, an IPv4 or IPv6 address.
#[derive(PartialEq, Debug, Clone)]
pub struct Address {
    pub host: String,
    pub port: u16,
}

impl Address {
    /// The written form: host, colon, port.
    pub open spec fn text(self) -> Seq<char> {
        self.host@ + seq![':'] + decimal(self.port as nat)
    }

    /// The address of `port` on `host`.
    pub fn new(host: &str, port: u16) -> (a: Address)
        ensures
            a.host@ == host@,
            a.port == port,
    {
        Address { host: String::from_str(host), port }
    }

    /// The address as `host:port`.
    pub fn to_string(&self) -> (s: String)
        ensures
            s@ == self.text(),
    {
        let mut v = chars_of(self.host.as_str());
        v.push(':');
        push_decimal(self.port as u128, &mut v);
        string_of(&v)
    }

    /// A second address with the same host and port.
    pub fn copy(&self) -> (a: Address)
        ensures
            a.host@ == self.host@,
            a.port == self.port,
    {
        Address { host: self.host.clone(), port: self.port }
    }
}

} // verus!
