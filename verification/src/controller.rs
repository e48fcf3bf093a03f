//! The role of the controller: it asks every sensor for its newest datum
//! at a steady pace, keeps the newest data of each, decides by the rule of
//! the sensor whether a command is called for, and sends the command to
//! the actuator of the same identifier.

use vstd::prelude::*;
use vstd::utf8::encode_utf8;

use crate::actuator::sent;
use crate::address::Address;
use crate::assessor::{verdict, Assessor};
use crate::buffer::{least, list_text, pushed, Buffer};
use crate::command::Order;
use crate::datum::{parsed as datum_parsed, Datum, Reading};
use crate::device::{failure, property, Device};
use crate::dispatch::Dispatch;
use crate::id::Id;
use crate::message::{content_type, read, request, response, written, Message, Parts};
use crate::model::Model;
use crate::name::Name;
use crate::service::{Service, ServiceRecord};
use crate::table::{put_key, put_value, Table};
use crate::text::{
    chars_of, extend_str, first_index, phrase, replace, replaced, same, string_of, strip_back,
    strip_end, strip_front, strip_start, Strip,
};

verus! {

/// How many data the controller keeps of each sensor.
pub open spec fn kept() -> int {
    500
}

/// The address that stands in the page of the user interface where the
/// address of the controller belongs.
pub open spec fn placeholder() -> Seq<char> {
    "192.168.2.16:6565"@
}

/// The address under which the controller is reached from outside when it
/// runs in a container.
pub open spec fn container_address() -> Seq<char> {
    "localhost:6565"@
}

/// The data of each store.
pub open spec fn views(stores: Seq<Buffer>) -> Seq<Seq<Reading>> {
    stores.map_values(|b: Buffer| b@)
}

/// Of the data `data`, those that are shown: all of them, or the newest only.
pub open spec fn shown(data: Seq<Reading>, newest_only: bool) -> Seq<Reading> {
    if newest_only {
        data.take(least(1, data.len() as int))
    } else {
        data
    }
}

/// The data of one sensor in writing: an object of the identifier of the
/// sensor and the list of its data, under `datum` where only the newest is
/// shown and under `data` otherwise.
pub open spec fn entry(id: Seq<char>, data: Seq<Reading>, newest_only: bool) -> Seq<char> {
    "{\"id\":\""@ + id + (if newest_only {
        "\",\"datum\":"@
    } else {
        "\",\"data\":"@
    }) + list_text(shown(data, newest_only)) + "}"@
}

/// The data of the sensors in writing, with commas between the sensors.
pub open spec fn entries(keys: Seq<Seq<char>>, stores: Seq<Seq<Reading>>, newest_only: bool) -> Seq<
    char,
>
    decreases keys.len(),
{
    if keys.len() == 0 || stores.len() != keys.len() {
        Seq::empty()
    } else if keys.len() == 1 {
        entry(keys[0], stores[0], newest_only)
    } else {
        entries(keys.drop_last(), stores.drop_last(), newest_only) + seq![','] + entry(
            keys.last(),
            stores.last(),
            newest_only,
        )
    }
}

/// The data of the sensors in writing as a list in square brackets, in
/// the order in which the sensors became known.
pub open spec fn table_text(keys: Seq<Seq<char>>, stores: Seq<Seq<Reading>>, newest_only: bool) -> Seq<
    char,
> {
    seq!['['] + entries(keys, stores, newest_only) + seq![']']
}

/// The answer of the controller to `GET /data`.
pub open spec fn all_data(keys: Seq<Seq<char>>, stores: Seq<Seq<Reading>>) -> Parts {
    response(200).with_body(table_text(keys, stores, false))
}

/// The answer of the controller to `GET /datum`.
pub open spec fn newest_data(keys: Seq<Seq<char>>, stores: Seq<Seq<Reading>>) -> Parts {
    response(200).with_body(table_text(keys, stores, true))
}

/// The answer of the controller to `GET /ui`: the page, as a page, with
/// the address of the controller in every place of the placeholder. In a
/// container that address is [`container_address`].
pub open spec fn user_interface(container_mode: bool, address: Seq<char>, page: Seq<char>) -> Parts {
    response(200).with_body(
        replaced(
            page,
            placeholder(),
            if container_mode {
                container_address()
            } else {
                address
            },
        ),
    ).with_headers(seq![(content_type(), "text/html; charset=utf-8"@)])
}

/// The answer of the controller to the request in `bytes`.
pub open spec fn answer(
    bytes: Seq<u8>,
    keys: Seq<Seq<char>>,
    stores: Seq<Seq<Reading>>,
    container_mode: bool,
    address: Seq<char>,
    page: Seq<char>,
) -> Parts {
    match read(bytes) {
        None => failure("unable to read Message from stream"@),
        Some(m) => if m.start_line == "GET /data HTTP/1.1"@ {
            all_data(keys, stores)
        } else if m.start_line == "GET /datum HTTP/1.1"@ {
            newest_data(keys, stores)
        } else if m.start_line == "GET /ui HTTP/1.1"@ {
            user_interface(container_mode, address, page)
        } else {
            failure("cannot parse request: "@ + m.start_line)
        },
    }
}

/// The datum that a sensor has answered with: what stands in the body of
/// its answer between the square brackets, if that is a datum.
pub open spec fn reading_in(m: Parts) -> Option<Reading> {
    match m.body {
        Some(b) => match datum_parsed(
            strip_back(strip_front(b, Strip::Only('[')), Strip::Only(']')),
        ) {
            Ok(d) => Some(d),
            Err(_) => None,
        },
        None => None,
    }
}

/// The data that are kept of the sensor `id`: none where it is not known.
pub open spec fn data_of(keys: Seq<Seq<char>>, stores: Seq<Seq<Reading>>, id: Seq<char>) -> Seq<
    Reading,
> {
    if first_index(keys, id) < keys.len() && stores.len() == keys.len() {
        stores[first_index(keys, id)]
    } else {
        Seq::empty()
    }
}

/// The rule for the sensor `id` of the model `model`: the one that the
/// device was given, or else the one of its model.
pub open spec fn rule_for(
    keys: Seq<Seq<char>>,
    rules: Seq<Assessor>,
    id: Seq<char>,
    model: Option<Model>,
) -> Option<Assessor> {
    if first_index(keys, id) < keys.len() && rules.len() == keys.len() {
        Some(rules[first_index(keys, id)])
    } else {
        match model {
            Some(m) => Assessor::default_of(m),
            None => None,
        }
    }
}

/// The model that the record of a sensor gives, if it gives one.
pub open spec fn model_of(info: Service) -> Option<Model> {
    match property(info, "model"@) {
        Some(t) => match Model::parsed(t) {
            Ok(m) => Some(m),
            Err(_) => None,
        },
        None => None,
    }
}

/// The command `order` as it is sent to the actuator.
pub open spec fn commanded(order: Order) -> Parts {
    request("POST"@, "/command"@).with_body(order.text())
}

/// What is sent for the command that a datum calls for, and where to: the
/// command goes to the actuator of the identifier `id`, if one is known.
pub open spec fn dispatched(
    order: Option<Order>,
    keys: Seq<Seq<char>>,
    actuators: Seq<ServiceRecord>,
    id: Seq<char>,
) -> Option<(Seq<char>, u16, Parts)> {
    match order {
        Some(o) => if first_index(keys, id) < keys.len() && actuators.len() == keys.len() {
            let a = actuators[first_index(keys, id)]@;
            Some((a.host, a.port, commanded(o)))
        } else {
            None
        },
        None => None,
    }
}

/// The controller.
#[derive(Debug, PartialEq)]
pub struct Controller {
    name: Name,
    id: Id,
    address: Address,
    container_mode: bool,
    sensors: Table<ServiceRecord>,
    actuators: Table<ServiceRecord>,
    assessors: Table<Assessor>,
    data: Table<Buffer>,
}

impl Device for Controller {
    closed spec fn name(&self) -> Seq<char> {
        self.name@
    }

    closed spec fn id(&self) -> Seq<char> {
        self.id@
    }

    open spec fn model() -> Model {
        Model::Controller
    }

    fn get_name(&self) -> (r: &Name) {
        &self.name
    }

    fn get_id(&self) -> (r: &Id) {
        &self.id
    }

    fn get_model() -> (m: Model) {
        Model::Controller
    }
}

/// Whether every store keeps no more than [`kept`] data and has that bound.
pub open spec fn well_kept(stores: Seq<Buffer>) -> bool {
    forall|i: int|
        0 <= i < stores.len() ==> (#[trigger] stores[i]).limit() == kept() && stores[i]@.len()
            <= kept()
}

impl Controller {
    #[verifier::type_invariant]
    closed spec fn bounded(self) -> bool {
        well_kept(self.data.values())
    }

    /// The address at which the controller listens.
    pub closed spec fn address(&self) -> Address {
        self.address
    }

    /// Whether the controller runs in a container.
    pub closed spec fn container_mode(&self) -> bool {
        self.container_mode
    }

    /// The sensors that the controller has found.
    pub closed spec fn sensors(&self) -> Table<ServiceRecord> {
        self.sensors
    }

    /// The actuators that the controller has found.
    pub closed spec fn actuators(&self) -> Table<ServiceRecord> {
        self.actuators
    }

    /// The rules that were given to single devices.
    pub closed spec fn assessors(&self) -> Table<Assessor> {
        self.assessors
    }

    /// The data that the controller keeps, by sensor.
    pub closed spec fn data(&self) -> Table<Buffer> {
        self.data
    }

    /// The controller of this identifier and name, which listens at
    /// `address`, knows no device and keeps no data yet.
    pub fn new(id: Id, name: Name, address: Address, container_mode: bool) -> (c: Controller)
        ensures
            c.id() == id@,
            c.name() == name@,
            c.address() == address,
            c.container_mode() == container_mode,
            c.data().keys().len() == 0,
            c.sensors().keys().len() == 0,
            c.actuators().keys().len() == 0,
            c.assessors().keys().len() == 0,
    {
        Controller {
            name,
            id,
            address,
            container_mode,
            sensors: Table::new(),
            actuators: Table::new(),
            assessors: Table::new(),
            data: Table::new(),
        }
    }

    /// Of every sensor the controller keeps no more than [`kept`] data.
    pub fn check(&self)
        ensures
            well_kept(self.data().values()),
    {
        proof {
            use_type_invariant(self);
        }
    }

    /// The sensors that the controller has found.
    pub fn get_sensors(&self) -> (r: &Table<ServiceRecord>)
        ensures
            *r == self.sensors(),
    {
        &self.sensors
    }

    /// The actuators that the controller has found.
    pub fn get_actuators(&self) -> (r: &Table<ServiceRecord>)
        ensures
            *r == self.actuators(),
    {
        &self.actuators
    }

    /// The rules that were given to single devices.
    pub fn get_assessors(&self) -> (r: &Table<Assessor>)
        ensures
            *r == self.assessors(),
    {
        &self.assessors
    }

    /// The data that the controller keeps, by sensor.
    pub fn get_data(&self) -> (r: &Table<Buffer>)
        ensures
            *r == self.data(),
            well_kept(r.values()),
    {
        proof {
            use_type_invariant(self);
        }
        &self.data
    }

    /// The controller after a sensor was found.
    pub fn found_sensor(self, info: ServiceRecord) -> (c: Controller)
        ensures
            c.data() == self.data(),
            c.actuators() == self.actuators(),
            c.assessors() == self.assessors(),
            c.id() == self.id(),
            c.name() == self.name(),
            c.address() == self.address(),
            c.container_mode() == self.container_mode(),
            match property(info@, "id"@) {
                Some(id) => c.sensors().keys() == put_key(self.sensors().keys(), id)
                    && c.sensors().values() == put_value(
                    self.sensors().keys(),
                    self.sensors().values(),
                    id,
                    info,
                ),
                None => c.sensors() == self.sensors(),
            },
    {
        proof {
            use_type_invariant(&self);
        }
        let label = self.name.to_string();
        let sensors = Self::save_device(info, &label, self.sensors);
        Controller {
            name: self.name,
            id: self.id,
            address: self.address,
            container_mode: self.container_mode,
            sensors,
            actuators: self.actuators,
            assessors: self.assessors,
            data: self.data,
        }
    }

    /// The controller after an actuator was found.
    pub fn found_actuator(self, info: ServiceRecord) -> (c: Controller)
        ensures
            c.data() == self.data(),
            c.sensors() == self.sensors(),
            c.assessors() == self.assessors(),
            c.id() == self.id(),
            c.name() == self.name(),
            c.address() == self.address(),
            c.container_mode() == self.container_mode(),
            match property(info@, "id"@) {
                Some(id) => c.actuators().keys() == put_key(self.actuators().keys(), id)
                    && c.actuators().values() == put_value(
                    self.actuators().keys(),
                    self.actuators().values(),
                    id,
                    info,
                ),
                None => c.actuators() == self.actuators(),
            },
    {
        proof {
            use_type_invariant(&self);
        }
        let label = self.name.to_string();
        let actuators = Self::save_device(info, &label, self.actuators);
        Controller {
            name: self.name,
            id: self.id,
            address: self.address,
            container_mode: self.container_mode,
            sensors: self.sensors,
            actuators,
            assessors: self.assessors,
            data: self.data,
        }
    }

    /// The controller after the device `id` was given the rule `assessor`
    /// in the place of the rule of its model.
    pub fn with_assessor(self, id: Id, assessor: Assessor) -> (c: Controller)
        ensures
            c.data() == self.data(),
            c.sensors() == self.sensors(),
            c.actuators() == self.actuators(),
            c.id() == self.id(),
            c.name() == self.name(),
            c.address() == self.address(),
            c.container_mode() == self.container_mode(),
            c.assessors().keys() == put_key(self.assessors().keys(), id@),
            c.assessors().values() == put_value(
                self.assessors().keys(),
                self.assessors().values(),
                id@,
                assessor,
            ),
    {
        proof {
            use_type_invariant(&self);
        }
        let assessors = self.assessors.insert(id, assessor);
        Controller {
            name: self.name,
            id: self.id,
            address: self.address,
            container_mode: self.container_mode,
            sensors: self.sensors,
            actuators: self.actuators,
            assessors,
            data: self.data,
        }
    }

    /// The question that the controller puts to every sensor at every tick.
    pub fn query() -> (m: Message)
        ensures
            m@ == request("GET"@, "/datum"@),
    {
        Message::request_get("/datum")
    }

    /// Appends the data of one sensor in writing to `out`.
    fn write_entry(out: &mut Vec<char>, id: &Id, store: &Buffer, newest_only: bool)
        ensures
            final(out)@ == old(out)@ + entry(id@, store@, newest_only),
    {
        extend_str(out, "{\"id\":\"");
        extend_str(out, id.to_string().as_str());
        if newest_only {
            extend_str(out, "\",\"datum\":");
            extend_str(out, store.newest_to_string().as_str());
        } else {
            extend_str(out, "\",\"data\":");
            extend_str(out, store.to_string().as_str());
        }
        extend_str(out, "}");
        assert(out@ =~= old(out)@ + entry(id@, store@, newest_only));
    }

    /// The data of the sensors in writing.
    fn write_table(data: &Table<Buffer>, newest_only: bool) -> (s: String)
        ensures
            s@ == table_text(data.keys(), views(data.values()), newest_only),
    {
        let n = data.len();
        let ghost keys = data.keys();
        let ghost stores = views(data.values());
        let mut out: Vec<char> = Vec::new();
        out.push('[');
        let mut i: usize = 0;
        assert(keys.take(0) =~= Seq::<Seq<char>>::empty());
        while i < n
            invariant
                i <= n,
                n == keys.len(),
                n == stores.len(),
                keys == data.keys(),
                stores == views(data.values()),
                out@ == seq!['['] + entries(keys.take(i as int), stores.take(i as int), newest_only),
            decreases n - i,
        {
            let ghost before = entries(keys.take(i as int), stores.take(i as int), newest_only);
            if i > 0 {
                out.push(',');
            }
            let ghost middle = out@;
            Controller::write_entry(&mut out, data.id(i), data.value(i), newest_only);
            proof {
                let k = keys.take(i + 1);
                let s = stores.take(i + 1);
                let e = entry(keys[i as int], stores[i as int], newest_only);
                assert(k.drop_last() =~= keys.take(i as int));
                assert(s.drop_last() =~= stores.take(i as int));
                assert(k.last() == keys[i as int]);
                assert(s.last() == stores[i as int]);
                assert(out@ == middle + e);
                if i == 0 {
                    assert(entries(k, s, newest_only) == e);
                    assert(middle =~= seq!['[']);
                } else {
                    assert(entries(k, s, newest_only) == before + seq![','] + e);
                    assert(middle =~= seq!['['] + before + seq![',']);
                }
                assert(out@ =~= seq!['['] + entries(k, s, newest_only));
            }
            i += 1;
        }
        assert(keys.take(n as int) =~= keys);
        assert(stores.take(n as int) =~= stores);
        out.push(']');
        string_of(&out)
    }

    /// Answers `GET /data`: writes all data of all sensors to `tcp_stream`.
    pub fn handle_get_data(tcp_stream: &mut Vec<u8>, data: &Table<Buffer>)
        ensures
            final(tcp_stream)@ == old(tcp_stream)@ + encode_utf8(
                written(all_data(data.keys(), views(data.values()))),
            ),
    {
        let body = Controller::write_table(data, false);
        let response = Message::respond_ok().with_body(body.as_str());
        response.write(tcp_stream)
    }

    /// Answers `GET /datum`: writes the newest datum of every sensor to
    /// `tcp_stream`.
    pub fn handle_get_datum(tcp_stream: &mut Vec<u8>, data: &Table<Buffer>)
        ensures
            final(tcp_stream)@ == old(tcp_stream)@ + encode_utf8(
                written(newest_data(data.keys(), views(data.values()))),
            ),
    {
        let body = Controller::write_table(data, true);
        let response = Message::respond_ok().with_body(body.as_str());
        response.write(tcp_stream)
    }

    /// Answers `GET /ui`: writes the page of the user interface to
    /// `tcp_stream`, with the address under which the controller is reached
    /// in the place of the placeholder.
    pub fn handle_get_ui(
        tcp_stream: &mut Vec<u8>,
        container_mode: bool,
        self_address: String,
        page: &str,
    )
        ensures
            final(tcp_stream)@ == old(tcp_stream)@ + encode_utf8(
                written(user_interface(container_mode, self_address@, page@)),
            ),
    {
        let html = chars_of(page);
        let pattern = chars_of("192.168.2.16:6565");
        let html = if container_mode {
            replace(&html, &pattern, &chars_of("localhost:6565"))
        } else {
            replace(&html, &pattern, &chars_of(self_address.as_str()))
        };
        let mut headers: Vec<(String, String)> = Vec::new();
        headers.push(
            (String::from_str("Content-Type"), String::from_str("text/html; charset=utf-8")),
        );
        proof {
            assert(crate::message::entries_of(headers@) =~= seq![
                (content_type(), "text/html; charset=utf-8"@),
            ]);
        }
        let response = Message::respond_ok().with_body(string_of(&html).as_str()).with_headers(
            headers,
        );
        response.write(tcp_stream)
    }

    /// Answers the request in `request`: writes the answer to `tcp_stream`.
    pub fn handle(&self, request: &[u8], tcp_stream: &mut Vec<u8>, page: &str)
        ensures
            final(tcp_stream)@ == old(tcp_stream)@ + encode_utf8(
                written(
                    answer(
                        request@,
                        self.data().keys(),
                        views(self.data().values()),
                        self.container_mode(),
                        self.address().text(),
                        page@,
                    ),
                ),
            ),
    {
        match Message::read_from_buffer(request) {
            Ok(m) => {
                if same(m.line(), "GET /data HTTP/1.1") {
                    Controller::handle_get_data(tcp_stream, &self.data)
                } else if same(m.line(), "GET /datum HTTP/1.1") {
                    Controller::handle_get_datum(tcp_stream, &self.data)
                } else if same(m.line(), "GET /ui HTTP/1.1") {
                    Controller::handle_get_ui(
                        tcp_stream,
                        self.container_mode,
                        self.address.to_string(),
                        page,
                    )
                } else {
                    let msg = phrase("cannot parse request: ", m.line(), "");
                    proof {
                        reveal_strlit("");
                        assert(msg@ =~= "cannot parse request: "@ + m@.start_line);
                    }
                    Self::handler_failure(self.name.copy(), tcp_stream, msg.as_str())
                }
            },
            Err(_) => {
                Self::handler_failure(
                    self.name.copy(),
                    tcp_stream,
                    "unable to read Message from stream",
                )
            },
        }
    }

    /// The datum that a sensor has answered with, if it has.
    pub fn datum_in(response: &Message) -> (r: Option<Datum>)
        ensures
            r is Some <==> reading_in(response@) is Some,
            r is Some ==> r->0@ == reading_in(response@)->0,
    {
        match response.content() {
            Some(b) => {
                let t = strip_start(&chars_of(b.as_str()), Strip::Only('['));
                let t = strip_end(&t, Strip::Only(']'));
                match Datum::parse(string_of(&t).as_str()) {
                    Ok(d) => Some(d),
                    Err(_) => None,
                }
            },
            None => None,
        }
    }

    /// The data after `datum` has come in from the sensor `id`: it is the
    /// newest of that sensor, whose store is made where the sensor is new,
    /// and the oldest has left where the store was full.
    pub fn store(data: Table<Buffer>, id: &Id, datum: Datum) -> (r: Table<Buffer>)
        requires
            well_kept(data.values()),
        ensures
            r.keys() == put_key(data.keys(), id@),
            views(r.values()) == put_value(
                data.keys(),
                views(data.values()),
                id@,
                pushed(data_of(data.keys(), views(data.values()), id@), datum@, kept()),
            ),
            well_kept(r.values()),
    {
        data.check();
        let ghost keys = data.keys();
        let ghost old_values = data.values();
        let ghost stores = views(data.values());
        proof {
            crate::text::lemma_first_index(keys, id@);
        }
        match data.position(id) {
            Some(i) => {
                // the store is taken out of the table, with an empty one in its place for the moment
                let (data, before) = data.replace(i, Buffer::new(0));
                let after = before.push(datum);
                after.check();
                let (data, _) = data.replace(i, after);
                assert(data.values() =~= old_values.update(i as int, after));
                assert(views(data.values()) =~= stores.update(
                    i as int,
                    pushed(stores[i as int], datum@, kept()),
                ));
                assert forall|j: int| 0 <= j < data.values().len() implies (
                #[trigger] data.values()[j]).limit() == kept() && data.values()[j]@.len()
                    <= kept() by {
                    if j != i {
                        assert(data.values()[j] == old_values[j]);
                    }
                }
                data
            },
            None => {
                let after = Buffer::new(500).push(datum);
                after.check();
                let data = data.insert(id.copy(), after);
                assert(data.values() =~= old_values.push(after));
                assert(views(data.values()) =~= stores.push(
                    pushed(Seq::empty(), datum@, kept()),
                ));
                assert forall|j: int| 0 <= j < data.values().len() implies (
                #[trigger] data.values()[j]).limit() == kept() && data.values()[j]@.len()
                    <= kept() by {
                    if j < old_values.len() {
                        assert(data.values()[j] == old_values[j]);
                    }
                }
                data
            },
        }
    }

    /// The rule for the sensor `id` whose record is `info`.
    pub fn assessor_for(assessors: &Table<Assessor>, id: &Id, info: &ServiceRecord) -> (r: Option<
        Assessor,
    >)
        ensures
            r == rule_for(assessors.keys(), assessors.values(), id@, model_of(info@)),
    {
        assessors.check();
        match assessors.get(id) {
            Some(a) => Some(*a),
            None => match Self::extract_model(info) {
                Some(Ok(model)) => Assessor::default_for(model),
                _ => None,
            },
        }
    }

    /// What is to be sent, and where, for the command that `datum` calls
    /// for by the rule `assessor`: nothing where there is no rule, where
    /// the rule cannot be asked about the datum, where it calls for
    /// nothing, and where no actuator of the identifier `id` is known.
    pub fn decide(
        assessor: Option<Assessor>,
        datum: &Datum,
        actuators: &Table<ServiceRecord>,
        id: &Id,
    ) -> (r: Option<Dispatch>)
        ensures
            sent(r) == dispatched(
                verdict(assessor, datum@),
                actuators.keys(),
                actuators.values(),
                id@,
            ),
    {
        actuators.check();
        let rule = match assessor {
            Some(a) => a,
            None => {
                return None;
            },
        };
        if !rule.takes(datum) {
            return None;
        }
        match rule.assess(datum) {
            None => None,
            Some(command) => match actuators.get(id) {
                None => None,
                Some(actuator) => {
                    let address = Self::extract_address(actuator);
                    let message = Message::request_post("/command").with_body(
                        command.to_string().as_str(),
                    );
                    Some(Dispatch { address, message })
                },
            },
        }
    }

    /// The controller after the sensor `id`, whose record is `info`, has
    /// answered with `response`, and what is to be sent on account of it.
    ///
    /// An answer that holds no datum changes nothing and sends nothing.
    /// Else the datum is kept as the newest of that sensor, and the command
    /// that its rule calls for goes to the actuator of the same identifier.
    pub fn step(self, id: &Id, info: &ServiceRecord, response: &Message) -> (r: (
        Controller,
        Option<Dispatch>,
    ))
        ensures
            r.0.id() == self.id(),
            r.0.name() == self.name(),
            r.0.address() == self.address(),
            r.0.container_mode() == self.container_mode(),
            r.0.sensors() == self.sensors(),
            r.0.actuators() == self.actuators(),
            r.0.assessors() == self.assessors(),
            match reading_in(response@) {
                None => r.0.data() == self.data() && r.1 is None,
                Some(d) => {
                    &&& r.0.data().keys() == put_key(self.data().keys(), id@)
                    &&& views(r.0.data().values()) == put_value(
                        self.data().keys(),
                        views(self.data().values()),
                        id@,
                        pushed(
                            data_of(self.data().keys(), views(self.data().values()), id@),
                            d,
                            kept(),
                        ),
                    )
                    &&& sent(r.1) == dispatched(
                        verdict(
                            rule_for(
                                self.assessors().keys(),
                                self.assessors().values(),
                                id@,
                                model_of(info@),
                            ),
                            d,
                        ),
                        self.actuators().keys(),
                        self.actuators().values(),
                        id@,
                    )
                },
            },
    {
        proof {
            use_type_invariant(&self);
        }
        let datum = match Controller::datum_in(response) {
            Some(d) => d,
            None => {
                return (self, None);
            },
        };
        let assessor = Controller::assessor_for(&self.assessors, id, info);
        let dispatch = Controller::decide(assessor, &datum, &self.actuators, id);
        let data = Controller::store(self.data, id, datum);
        (
            Controller {
                name: self.name,
                id: self.id,
                address: self.address,
                container_mode: self.container_mode,
                sensors: self.sensors,
                actuators: self.actuators,
                assessors: self.assessors,
                data,
            },
            dispatch,
        )
    }
}


/// What a controller knows of the devices around it: the sensors and the
/// actuators that it has found, and the rules that were given to single
/// devices.
#[derive(Debug, PartialEq)]
pub struct State {
    pub sensors: Table<ServiceRecord>,
    pub actuators: Table<ServiceRecord>,
    pub assessors: Table<Assessor>,
}

impl State {
    /// The state in which nothing is known yet.
    pub fn new() -> (s: State)
        ensures
            s.sensors.keys().len() == 0,
            s.actuators.keys().len() == 0,
            s.assessors.keys().len() == 0,
    {
        State { sensors: Table::new(), actuators: Table::new(), assessors: Table::new() }
    }
}

} // verus!
