//! The role of a sensor: it asks the environment for data at a steady
//! pace, keeps the newest of them, and hands them to whoever asks.

use vstd::prelude::*;
use vstd::utf8::encode_utf8;

use crate::address::Address;
use crate::buffer::{least, list_text, pushed, Buffer};
use crate::datum::{parsed as datum_parsed, Datum, Reading};
use crate::device::{failure, Device};
use crate::id::Id;
use crate::kind::Kind;
use crate::message::{read, request, response, written, Message, Parts};
use crate::name::Name;
use crate::service::ServiceRecord;
use crate::text::{phrase, same};
use crate::unit::Unit;

verus! {

/// How many data a sensor keeps.
pub open spec fn kept() -> int {
    10
}

/// The answer of a sensor to `GET /data`: all data that it keeps, the
/// newest first.
pub open spec fn all_data(data: Seq<Reading>) -> Parts {
    response(200).with_body(list_text(data))
}

/// The answer of a sensor to `GET /datum`: the newest datum, if it keeps one.
pub open spec fn newest_datum(data: Seq<Reading>) -> Parts {
    response(200).with_body(list_text(data.take(least(1, data.len() as int))))
}

/// The answer of a sensor that keeps `data` to the request in `bytes`.
pub open spec fn answer(bytes: Seq<u8>, data: Seq<Reading>) -> Parts {
    match read(bytes) {
        None => failure("unable to read Message from stream"@),
        Some(m) => if m.start_line == "GET /data HTTP/1.1"@ {
            all_data(data)
        } else if m.start_line == "GET /datum HTTP/1.1"@ {
            newest_datum(data)
        } else {
            failure("cannot parse request: "@ + m.start_line)
        },
    }
}

/// The question that a sensor of the identifier `id` puts to the
/// environment: for a datum of its own, with the kind and the unit that it
/// measures, so that the environment can make up data for a sensor that it
/// has not met.
pub open spec fn question(id: Seq<char>, kind: Kind, unit: Unit) -> Parts {
    request("GET"@, "/datum/"@ + id).with_headers(
        seq![("kind"@, kind.text()), ("unit"@, unit.text())],
    )
}

/// The data that a sensor keeps after the environment has answered with
/// `m`: the datum in the body of `m` has come in, if there is one.
pub open spec fn heard(data: Seq<Reading>, m: Parts, limit: int) -> Seq<Reading> {
    match m.body {
        Some(b) => match datum_parsed(b) {
            Ok(d) => pushed(data, d, limit),
            Err(_) => data,
        },
        None => data,
    }
}

/// A sensor takes data from the environment.
pub trait Sensor: Device {
    /// The kind of value that sensors of this type measure.
    spec fn kind() -> Kind;

    /// The unit in which sensors of this type measure.
    spec fn unit() -> Unit;

    /// The record of the environment, once it has been found.
    spec fn environment(&self) -> Option<ServiceRecord>;

    /// The record of the controller, once it has been found.
    spec fn controller(&self) -> Option<ServiceRecord>;

    /// The data that the sensor keeps, the newest first.
    spec fn data(&self) -> Seq<Reading>;

    /// The sensor of this identifier and name, which has found no other
    /// device and keeps no data yet.
    fn new(id: Id, name: Name) -> (s: Self)
        ensures
            s.id() == id@,
            s.name() == name@,
            s.environment() is None,
            s.controller() is None,
            s.data().len() == 0,
    ;

    /// The environment, once it has been found.
    fn get_environment(&self) -> (r: &Option<ServiceRecord>)
        ensures
            *r == self.environment(),
    ;

    /// The controller, once it has been found.
    fn get_controller(&self) -> (r: &Option<ServiceRecord>)
        ensures
            *r == self.controller(),
    ;

    /// The kind of value that this sensor measures.
    fn get_datum_value_type() -> (k: Kind)
        ensures
            k == Self::kind(),
    ;

    /// The unit in which this sensor measures.
    fn get_datum_unit() -> (u: Unit)
        ensures
            u == Self::unit(),
    ;

    /// The data that the sensor keeps, the newest first: never more than
    /// [`kept`].
    fn get_data(&self) -> (b: &Buffer)
        ensures
            b@ == self.data(),
            b.limit() == kept(),
            b@.len() <= kept(),
    ;

    /// Answers the request in `request`: writes the answer to `tcp_stream`.
    fn handle(request: &[u8], tcp_stream: &mut Vec<u8>, self_name: &Name, data: &Buffer)
        ensures
            final(tcp_stream)@ == old(tcp_stream)@ + encode_utf8(
                written(answer(request@, data@)),
            ),
    {
        match Message::read_from_buffer(request) {
            Ok(m) => {
                if same(m.line(), "GET /data HTTP/1.1") {
                    Self::handle_get_data(tcp_stream, data)
                } else if same(m.line(), "GET /datum HTTP/1.1") {
                    Self::handle_get_datum(tcp_stream, data)
                } else {
                    let msg = phrase("cannot parse request: ", m.line(), "");
                    proof {
                        reveal_strlit("");
                        assert(msg@ =~= "cannot parse request: "@ + m@.start_line);
                    }
                    Self::handler_failure(self_name.copy(), tcp_stream, msg.as_str())
                }
            },
            Err(_) => {
                Self::handler_failure(
                    self_name.copy(),
                    tcp_stream,
                    "unable to read Message from stream",
                )
            },
        }
    }

    /// Answers `GET /data`: writes all data, the newest first, to `tcp_stream`.
    fn handle_get_data(tcp_stream: &mut Vec<u8>, data: &Buffer)
        ensures
            final(tcp_stream)@ == old(tcp_stream)@ + encode_utf8(written(all_data(data@))),
    {
        let response = Message::respond_ok().with_body(data.to_string().as_str());
        response.write(tcp_stream)
    }

    /// Answers `GET /datum`: writes the newest datum to `tcp_stream`.
    fn handle_get_datum(tcp_stream: &mut Vec<u8>, data: &Buffer)
        ensures
            final(tcp_stream)@ == old(tcp_stream)@ + encode_utf8(written(newest_datum(data@))),
    {
        let response = Message::respond_ok().with_body(data.newest_to_string().as_str());
        response.write(tcp_stream)
    }

    /// The question that the sensor `id` puts to the environment at every tick.
    fn query(id: &Id) -> (m: Message)
        ensures
            m@ == question(id@, Self::kind(), Self::unit()),
    {
        let mut url = String::from_str("/datum/");
        url.append(id.to_string().as_str());
        let mut headers: Vec<(String, String)> = Vec::new();
        headers.push((String::from_str("kind"), Self::get_datum_value_type().to_string()));
        headers.push((String::from_str("unit"), Self::get_datum_unit().to_string()));
        proof {
            assert(crate::message::entries_of(headers@) =~= seq![
                ("kind"@, Self::kind().text()),
                ("unit"@, Self::unit().text()),
            ]);
        }
        Message::request_get(url.as_str()).with_headers(headers)
    }

    /// Where the sensor sends its question: to the environment, once it has
    /// been found.
    fn target(environment: &Option<ServiceRecord>) -> (r: Option<Address>)
        ensures
            r is Some <==> environment is Some,
            r is Some ==> r->0.host@ == environment->0@.host && r->0.port == environment->0@.port,
    {
        match environment {
            Some(info) => Some(Self::extract_address(info)),
            None => None,
        }
    }

    /// The data after the environment has answered with `response`: the
    /// datum that it holds has come in as the newest, and the oldest has
    /// left where the store was full. An answer without a datum changes
    /// nothing.
    fn record(data: Buffer, response: &Message) -> (r: Buffer)
        ensures
            r@ == heard(data@, response@, data.limit()),
            r.limit() == data.limit(),
    {
        match response.content() {
            Some(b) => match Datum::parse(b.as_str()) {
                Ok(d) => data.push(d),
                Err(_) => data,
            },
            None => data,
        }
    }
}

} // verus!
