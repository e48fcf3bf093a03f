//! What a device makes known of itself for others to find it.

use vstd::prelude::*;

use crate::headers::{Entry, Headers};

verus! {

/// A service record as contracts speak of it.
pub ghost struct Service {
    pub kind: Seq<char>,
    pub instance: Seq<char>,
    pub host: Seq<char>,
    pub port: u16,
    pub properties: Seq<Entry>,
}

/// The record under which a device is advertised and found: the type of
/// service, the name of the instance, the host and port at which the
/// device listens, and the properties that it gives of itself.
#[derive(Debug, PartialEq)]
pub struct ServiceRecord {
    pub kind: String,
    pub instance: String,
    pub host: String,
    pub port: u16,
    pub properties: Headers,
}

impl View for ServiceRecord {
    type V = Service;

    open spec fn view(&self) -> Service {
        Service {
            kind: self.kind@,
            instance: self.instance@,
            host: self.host@,
            port: self.port,
            properties: self.properties@,
        }
    }
}

impl ServiceRecord {
    /// The record of the given parts.
    pub fn new(kind: &str, instance: &str, host: &str, port: u16, properties: Headers) -> (r:
        ServiceRecord)
        ensures
            r@ == (Service {
                kind: kind@,
                instance: instance@,
                host: host@,
                port,
                properties: properties@,
            }),
    {
        ServiceRecord {
            kind: String::from_str(kind),
            instance: String::from_str(instance),
            host: String::from_str(host),
            port,
            properties,
        }
    }

    /// A second record equal to this one.
    pub fn copy(&self) -> (r: ServiceRecord)
        ensures
            r@ == self@,
    {
        ServiceRecord {
            kind: self.kind.clone(),
            instance: self.instance.clone(),
            host: self.host.clone(),
            port: self.port,
            properties: self.properties.copy(),
        }
    }
}

} // verus!
