//! The sensor of the Thermo5000, which measures a temperature.

use vstd::prelude::*;

use crate::buffer::Buffer;
use crate::datum::Reading;
use crate::device::Device;
use crate::id::Id;
use crate::kind::Kind;
use crate::message::Message;
use crate::model::Model;
use crate::name::Name;
use crate::sensor::{heard, kept, Sensor};
use crate::service::ServiceRecord;
use crate::unit::Unit;

verus! {

/// A sensor of temperature: numbers with a fraction, in degrees Celsius.
#[derive(Debug, PartialEq)]
pub struct TemperatureSensor {
    id: Id,
    name: Name,
    environment: Option<ServiceRecord>,
    controller: Option<ServiceRecord>,
    data: Buffer,
}

impl TemperatureSensor {
    #[verifier::type_invariant]
    closed spec fn sized(self) -> bool {
        self.data.limit() == kept()
    }

    /// The sensor after the environment has answered with `response`.
    pub fn heard(self, response: &Message) -> (s: TemperatureSensor)
        ensures
            s.data() == heard(self.data(), response@, kept()),
            s.data().len() <= kept(),
            s.id() == self.id(),
            s.name() == self.name(),
            s.environment() == self.environment(),
            s.controller() == self.controller(),
    {
        proof {
            use_type_invariant(&self);
        }
        let data = <TemperatureSensor as Sensor>::record(self.data, response);
        data.check();
        TemperatureSensor {
            id: self.id,
            name: self.name,
            environment: self.environment,
            controller: self.controller,
            data,
        }
    }

    /// The sensor after the environment has been found.
    pub fn found_environment(self, info: ServiceRecord) -> (s: TemperatureSensor)
        ensures
            s.environment() == Some(info),
            s.controller() == self.controller(),
            s.data() == self.data(),
            s.id() == self.id(),
            s.name() == self.name(),
    {
        proof {
            use_type_invariant(&self);
        }
        TemperatureSensor {
            id: self.id,
            name: self.name,
            environment: Some(info),
            controller: self.controller,
            data: self.data,
        }
    }

    /// The sensor after the controller has been found.
    pub fn found_controller(self, info: ServiceRecord) -> (s: TemperatureSensor)
        ensures
            s.controller() == Some(info),
            s.environment() == self.environment(),
            s.data() == self.data(),
            s.id() == self.id(),
            s.name() == self.name(),
    {
        proof {
            use_type_invariant(&self);
        }
        TemperatureSensor {
            id: self.id,
            name: self.name,
            environment: self.environment,
            controller: Some(info),
            data: self.data,
        }
    }
}

impl Device for TemperatureSensor {
    closed spec fn name(&self) -> Seq<char> {
        self.name@
    }

    closed spec fn id(&self) -> Seq<char> {
        self.id@
    }

    open spec fn model() -> Model {
        Model::Thermo5000
    }

    fn get_name(&self) -> (r: &Name) {
        &self.name
    }

    fn get_id(&self) -> (r: &Id) {
        &self.id
    }

    fn get_model() -> (m: Model) {
        Model::Thermo5000
    }
}

impl Sensor for TemperatureSensor {
    open spec fn kind() -> Kind {
        Kind::Float
    }

    open spec fn unit() -> Unit {
        Unit::DegreesC
    }

    closed spec fn environment(&self) -> Option<ServiceRecord> {
        self.environment
    }

    closed spec fn controller(&self) -> Option<ServiceRecord> {
        self.controller
    }

    closed spec fn data(&self) -> Seq<Reading> {
        self.data@
    }

    fn new(id: Id, name: Name) -> (s: TemperatureSensor) {
        TemperatureSensor { id, name, environment: None, controller: None, data: Buffer::new(10) }
    }


    fn get_environment(&self) -> (r: &Option<ServiceRecord>) {
        &self.environment
    }

    fn get_controller(&self) -> (r: &Option<ServiceRecord>) {
        &self.controller
    }

    fn get_datum_value_type() -> (k: Kind) {
        Kind::Float
    }

    fn get_datum_unit() -> (u: Unit) {
        Unit::DegreesC
    }

    fn get_data(&self) -> (b: &Buffer) {
        proof {
            use_type_invariant(self);
        }
        self.data.check();
        &self.data
    }
}

} // verus!
