//! What every device has and does, whatever its role: an identity, a
//! record under which it is advertised, the reading of the records of
//! others, and the answer to a request that it cannot handle.

use vstd::prelude::*;
use vstd::utf8::encode_utf8;

use crate::address::Address;
use crate::headers::{inserted, value_of, Entry, Headers};
use crate::id::Id;
use crate::message::{response, written, Message, Parts};
use crate::model::Model;
use crate::name::Name;
use crate::service::{Service, ServiceRecord};
use crate::table::{put_key, put_value, Table};
use crate::text::{chars_of, string_of, strip_prefix_run, strip_prefixes};

verus! {

/// The answer to a request that a device cannot handle: `400 Bad Request`
/// with the reason as its body.
pub open spec fn failure(msg: Seq<char>) -> Parts {
    response(400).with_body(msg)
}

/// The record under which a device advertises itself in `group`.
pub open spec fn advertised(
    id: Seq<char>,
    name: Seq<char>,
    model: Model,
    host: Seq<char>,
    port: u16,
    group: Seq<char>,
) -> Service {
    Service {
        kind: group + "._tcp.local."@,
        instance: id + "."@ + model.text(),
        host,
        port,
        properties: inserted(
            inserted(inserted(Seq::<Entry>::empty(), "id"@, id), "name"@, name),
            "model"@,
            model.text(),
        ),
    }
}

/// What a record gives for the property `key`: its value, without `key=`
/// at its front, as often as that stands there.
pub open spec fn property(s: Service, key: Seq<char>) -> Option<Seq<char>> {
    match value_of(s.properties, key) {
        Some(v) => Some(strip_prefixes(v, key + "="@)),
        None => None,
    }
}

/// What a record gives for the property `key`.
pub fn property_of(info: &ServiceRecord, key: &str) -> (r: Option<String>)
    ensures
        r is Some <==> property(info@, key@) is Some,
        r is Some ==> r->0@ == property(info@, key@)->0,
{
    match info.properties.get(key) {
        Some(v) => {
            let mut label = chars_of(key);
            label.push('=');
            assert(label@ =~= key@ + "="@) by {
                reveal_strlit("=");
            }
            Some(string_of(&strip_prefix_run(&chars_of(v.as_str()), &label)))
        },
        None => None,
    }
}

/// A device: something with a name, an identifier and a model that is
/// advertised on the network and answers requests.
pub trait Device: Sized {
    /// The name of the device, by its characters.
    spec fn name(&self) -> Seq<char>;

    /// The identifier of the device, by its characters.
    spec fn id(&self) -> Seq<char>;

    /// The model of devices of this type.
    spec fn model() -> Model;

    /// The name that the user gave to this device.
    fn get_name(&self) -> (r: &Name)
        ensures
            r@ == self.name(),
    ;

    /// The unique identifier of this device.
    fn get_id(&self) -> (r: &Id)
        ensures
            r@ == self.id(),
    ;

    /// The model of this device.
    fn get_model() -> (m: Model)
        ensures
            m == Self::model(),
    ;

    /// Answers a request that cannot be handled: writes `400 Bad Request`
    /// with `msg` as its body to `tcp_stream`.
    fn handler_failure(self_name: Name, tcp_stream: &mut Vec<u8>, msg: &str)
        ensures
            final(tcp_stream)@ == old(tcp_stream)@ + encode_utf8(written(failure(msg@))),
    {
        let response = Message::respond_bad_request().with_body(msg);
        response.write(tcp_stream)
    }

    /// The record under which this device is advertised in `group` when it
    /// listens at `port` on `host`.
    fn get_service_info(&self, host: &str, port: u16, group: &str) -> (r: ServiceRecord)
        ensures
            r@ == advertised(self.id(), self.name(), Self::model(), host@, port, group@),
    {
        let mut instance = self.get_id().to_string();
        instance.append(".");
        instance.append(Self::get_model().to_string().as_str());
        let mut kind = String::from_str(group);
        kind.append("._tcp.local.");
        let properties = Headers::new();
        let properties = properties.insert(String::from_str("id"), self.get_id().to_string());
        let properties = properties.insert(String::from_str("name"), self.get_name().to_string());
        let properties = properties.insert(
            String::from_str("model"),
            Self::get_model().to_string(),
        );
        ServiceRecord::new(kind.as_str(), instance.as_str(), host, port, properties)
    }

    /// The address at which the device of a record listens.
    fn extract_address(info: &ServiceRecord) -> (a: Address)
        ensures
            a.host@ == info@.host,
            a.port == info@.port,
    {
        Address::new(info.host.as_str(), info.port)
    }

    /// The identifier that a record gives, if it gives one.
    fn extract_id(info: &ServiceRecord) -> (r: Option<Id>)
        ensures
            r is Some <==> property(info@, "id"@) is Some,
            r is Some ==> r->0@ == property(info@, "id"@)->0,
    {
        match property_of(info, "id") {
            Some(s) => Some(Id::new(s.as_str())),
            None => None,
        }
    }

    /// The model that a record gives, if it gives one: the model, or the
    /// error with which what it gives is refused as a model.
    fn extract_model(info: &ServiceRecord) -> (r: Option<Result<Model, String>>)
        ensures
            r is Some <==> property(info@, "model"@) is Some,
            r is Some ==> crate::text::outcome(r->0) == Model::parsed(
                property(info@, "model"@)->0,
            ),
    {
        match property_of(info, "model") {
            Some(s) => Some(Model::parse(s.as_str())),
            None => None,
        }
    }

    /// The name that a record gives, if it gives one.
    fn extract_name(info: &ServiceRecord) -> (r: Option<Name>)
        ensures
            r is Some <==> property(info@, "name"@) is Some,
            r is Some ==> r->0@ == property(info@, "name"@)->0,
    {
        match property_of(info, "name") {
            Some(s) => Some(Name::new(s.as_str())),
            None => None,
        }
    }

    /// Takes the record of a device that was found into `map`, under the
    /// identifier that the record gives: in the place of an earlier record
    /// of that identifier, if there is one. A record that gives no
    /// identifier is not taken in. No record is ever taken out.
    fn save_device(info: ServiceRecord, self_name: &String, map: Table<ServiceRecord>) -> (r:
        Table<ServiceRecord>)
        ensures
            match property(info@, "id"@) {
                Some(id) => r.keys() == put_key(map.keys(), id) && r.values() == put_value(
                    map.keys(),
                    map.values(),
                    id,
                    info,
                ),
                None => r == map,
            },
    {
        match Self::extract_id(&info) {
            Some(id) => map.insert(id, info),
            None => map,
        }
    }

    /// Takes the record of the one device that was looked for into
    /// `container`, in the place of what it held.
    fn save_unique_device(
        info: ServiceRecord,
        self_name: &String,
        container: &mut Option<ServiceRecord>,
    )
        ensures
            *final(container) == Some(info),
    {
        *container = Some(info);
    }
}


/// A device of no model that the controller knows: it has its identity,
/// is advertised and found like every device, and that is all.
#[derive(Debug, PartialEq)]
pub struct UnsupportedDevice {
    pub name: Name,
    pub id: Id,
}

impl UnsupportedDevice {
    /// The device of this name and identifier.
    pub fn new(name: &str, id: &str) -> (d: UnsupportedDevice)
        ensures
            d.name@ == name@,
            d.id@ == id@,
    {
        UnsupportedDevice { name: Name::new(name), id: Id::new(id) }
    }
}

impl Device for UnsupportedDevice {
    open spec fn name(&self) -> Seq<char> {
        self.name@
    }

    open spec fn id(&self) -> Seq<char> {
        self.id@
    }

    open spec fn model() -> Model {
        Model::Unsupported
    }

    fn get_name(&self) -> (r: &Name) {
        &self.name
    }

    fn get_id(&self) -> (r: &Id) {
        &self.id
    }

    fn get_model() -> (m: Model) {
        Model::Unsupported
    }
}

} // verus!
