//! The actuator of the Thermo5000, which heats and cools.

use vstd::prelude::*;

use crate::actuator::Actuator;
use crate::device::Device;
use crate::id::Id;
use crate::model::Model;
use crate::name::Name;
use crate::service::ServiceRecord;

verus! {

/// An actuator of temperature.
#[derive(Debug, PartialEq)]
pub struct TemperatureActuator {
    id: Id,
    name: Name,
    environment: Option<ServiceRecord>,
}

impl TemperatureActuator {
    /// The actuator after the environment has been found.
    pub fn found_environment(self, info: ServiceRecord) -> (a: TemperatureActuator)
        ensures
            a.id() == self.id(),
            a.name() == self.name(),
            a.environment() == Some(info),
    {
        TemperatureActuator { id: self.id, name: self.name, environment: Some(info) }
    }
}

impl Device for TemperatureActuator {
    closed spec fn name(&self) -> Seq<char> {
        self.name@
    }

    closed spec fn id(&self) -> Seq<char> {
        self.id@
    }

    open spec fn model() -> Model {
        Model::Thermo5000
    }

    fn get_name(&self) -> (r: &Name) {
        &self.name
    }

    fn get_id(&self) -> (r: &Id) {
        &self.id
    }

    fn get_model() -> (m: Model) {
        Model::Thermo5000
    }
}

impl Actuator for TemperatureActuator {
    closed spec fn environment(&self) -> Option<ServiceRecord> {
        self.environment
    }

    fn new(id: Id, name: Name) -> (a: TemperatureActuator) {
        TemperatureActuator { id, name, environment: None }
    }

    fn get_environment(&self) -> (r: &Option<ServiceRecord>) {
        &self.environment
    }
}

} // verus!
