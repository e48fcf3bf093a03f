//! The role of an actuator: it passes the commands of the controller on to
//! the environment, under its own identity.

use vstd::prelude::*;
use vstd::utf8::encode_utf8;

use crate::device::{failure, Device};
use crate::dispatch::Dispatch;
use crate::id::Id;
use crate::message::{read, response, written, Message, Parts};
use crate::model::Model;
use crate::name::Name;
use crate::service::{Service, ServiceRecord};
use crate::text::{phrase, same};

verus! {

/// What an actuator can be told to do: something that can be written down.
pub trait Command {
    /// The command in writing, by its characters.
    spec fn text(&self) -> Seq<char>;

    /// The command in writing.
    fn to_string(&self) -> (s: String)
        ensures
            s@ == self.text(),
    ;
}

impl Command for crate::command::Command {
    open spec fn text(&self) -> Seq<char> {
        self@.text()
    }

    fn to_string(&self) -> (s: String) {
        crate::command::Command::to_string(self)
    }
}

/// The command `m` as the actuator of the identifier `id` and of `model`
/// passes it on: the same message, with the identity of the actuator among
/// its headers.
pub open spec fn forwarded(m: Parts, id: Seq<char>, model: Model) -> Parts {
    m.with_headers(seq![("id"@, id), ("model"@, model.text())])
}

/// What an actuator writes back to a command: `200 OK` once it knows the
/// environment, and before that a refusal.
pub open spec fn acknowledged(environment: Option<Service>) -> Parts {
    if environment is Some {
        response(200)
    } else {
        failure("could not find environment"@)
    }
}

/// What an actuator writes back to the request in `bytes`.
pub open spec fn answer(bytes: Seq<u8>, environment: Option<Service>) -> Parts {
    match read(bytes) {
        None => failure("unable to read Message from stream"@),
        Some(m) => if m.start_line == "POST /command HTTP/1.1"@ {
            acknowledged(environment)
        } else {
            failure("cannot parse request: "@ + m.start_line)
        },
    }
}

/// What an actuator passes on, and where to, for the request in `bytes`.
pub open spec fn passed_on(
    bytes: Seq<u8>,
    environment: Option<Service>,
    id: Seq<char>,
    model: Model,
) -> Option<(Seq<char>, u16, Parts)> {
    match read(bytes) {
        Some(m) => if m.start_line == "POST /command HTTP/1.1"@ && environment is Some {
            Some((environment->0.host, environment->0.port, forwarded(m, id, model)))
        } else {
            None
        },
        None => None,
    }
}

/// The view of a record that may be there.
pub open spec fn found(r: Option<ServiceRecord>) -> Option<Service> {
    match r {
        Some(s) => Some(s@),
        None => None,
    }
}

/// What is to be sent and where, as contracts speak of it.
pub open spec fn sent(d: Option<Dispatch>) -> Option<(Seq<char>, u16, Parts)> {
    match d {
        Some(d) => Some((d.address.host@, d.address.port, d.message@)),
        None => None,
    }
}

/// An actuator changes the environment.
pub trait Actuator: Device {
    /// The record of the environment, once it has been found.
    spec fn environment(&self) -> Option<ServiceRecord>;

    /// The actuator of this identifier and name, which has not found the
    /// environment yet.
    fn new(id: Id, name: Name) -> (a: Self)
        ensures
            a.id() == id@,
            a.name() == name@,
            a.environment() is None,
    ;

    /// The environment, once it has been found.
    fn get_environment(&self) -> (r: &Option<ServiceRecord>)
        ensures
            *r == self.environment(),
    ;

    /// Handles the request in `request`: writes the answer to `tcp_stream`
    /// and gives what is to be passed on to the environment, if anything.
    fn handle(
        request: &[u8],
        tcp_stream: &mut Vec<u8>,
        environment: &Option<ServiceRecord>,
        self_id: &Id,
        self_model: Model,
        self_name: &Name,
    ) -> (r: Option<Dispatch>)
        ensures
            final(tcp_stream)@ == old(tcp_stream)@ + encode_utf8(
                written(answer(request@, found(*environment))),
            ),
            sent(r) == passed_on(request@, found(*environment), self_id@, self_model),
    {
        match Message::read_from_buffer(request) {
            Ok(m) => {
                if same(m.line(), "POST /command HTTP/1.1") {
                    Self::handle_post_command(
                        tcp_stream,
                        environment,
                        m,
                        self_id,
                        self_model,
                        self_name,
                    )
                } else {
                    let msg = phrase("cannot parse request: ", m.line(), "");
                    proof {
                        reveal_strlit("");
                        assert(msg@ =~= "cannot parse request: "@ + m@.start_line);
                    }
                    Self::handler_failure(self_name.copy(), tcp_stream, msg.as_str());
                    None
                }
            },
            Err(_) => {
                Self::handler_failure(
                    self_name.copy(),
                    tcp_stream,
                    "unable to read Message from stream",
                );
                None
            },
        }
    }

    /// Handles `POST /command`. Once the environment is known, the command
    /// is to be passed on to it as it came, with the identity of the
    /// actuator among its headers, and `200 OK` is written to `stream`.
    /// Before that, a refusal is written and nothing is passed on.
    fn handle_post_command(
        stream: &mut Vec<u8>,
        environment: &Option<ServiceRecord>,
        message: Message,
        self_id: &Id,
        self_model: Model,
        self_name: &Name,
    ) -> (r: Option<Dispatch>)
        ensures
            final(stream)@ == old(stream)@ + encode_utf8(
                written(acknowledged(found(*environment))),
            ),
            match *environment {
                Some(e) => sent(r) == Some(
                    (e@.host, e@.port, forwarded(message@, self_id@, self_model)),
                ),
                None => r is None,
            },
    {
        match environment {
            Some(info) => {
                let address = Self::extract_address(info);
                let mut headers: Vec<(String, String)> = Vec::new();
                headers.push((String::from_str("id"), self_id.to_string()));
                headers.push((String::from_str("model"), self_model.to_string()));
                proof {
                    assert(crate::message::entries_of(headers@) =~= seq![
                        ("id"@, self_id@),
                        ("model"@, self_model.text()),
                    ]);
                }
                let forwarded_command = message.with_headers(headers);
                let ack = Message::respond_ok();
                ack.write(stream);
                Some(Dispatch { address, message: forwarded_command })
            },
            None => {
                Self::handler_failure(self_name.copy(), stream, "could not find environment");
                None
            },
        }
    }
}

} // verus!
