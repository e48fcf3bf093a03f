//! The role of the environment: it makes up the data that the sensors
//! measure, and changes them when an actuator tells it to.

use vstd::prelude::*;
use vstd::utf8::encode_utf8;

use crate::command::{parsed as command_parsed, Command, Order};
use crate::datum::{Datum, Reading};
use crate::device::{failure, Device};
use crate::generator::{
    advanced, can_adjust, chance, first_met, is_adjusted, made, DatumGenerator, Making, Origin,
};
use crate::headers::value_of;
use crate::id::Id;
use crate::kind::Kind;
use crate::message::{read, response, written, Message, Parts};
use crate::model::Model;
use crate::name::Name;
use crate::number::{can_add, is_sum, Number};
use crate::table::{put_key, put_value, Table};
use crate::text::{
    chars_of, first_index, has_at, phrase, same, string_of, strip_prefix_run, strip_prefixes,
    strip_suffix_run, strip_suffixes,
};
use crate::timestamp::{Instant, Timestamp};
use crate::unit::Unit;
use crate::value::Scalar;

verus! {

/// What is left for the program around the library to do after a request
/// was handled.
#[derive(Debug, PartialEq)]
pub enum Task {
    /// Nothing: the answer was written.
    Nothing,
    /// To make what changes with time in the next value of the sensor `id`
    /// and to hand it to [`Environment::reply_sample`], which writes the
    /// answer.
    Sample { id: Id, unit: Unit },
}

/// A task as contracts speak of it.
pub ghost enum Pending {
    Nothing,
    Sample { id: Seq<char>, unit: Unit },
}

/// The pending work that a task stands for.
pub open spec fn pending(t: Task) -> Pending {
    match t {
        Task::Nothing => Pending::Nothing,
        Task::Sample { id, unit } => Pending::Sample { id: id@, unit },
    }
}

/// How the environment handles a request: the sensors that it knows after
/// it and their generators, the change of one generator that a command
/// calls for, if it calls for one, the answer that it writes, if it writes
/// one itself, and the work that it leaves. Where a generator is changed,
/// the generators of the turn are those before the change.
pub ghost struct Turn {
    pub keys: Seq<Seq<char>>,
    pub generators: Seq<Making>,
    pub change: Option<(int, Order)>,
    pub reply: Option<Parts>,
    pub pending: Pending,
}

/// The generators as contracts speak of them.
pub open spec fn makings(generators: Seq<DatumGenerator>) -> Seq<Making> {
    generators.map_values(|g: DatumGenerator| g@)
}

/// Setting a generator among generators is setting what it is among what
/// they are.
pub proof fn lemma_makings_put(
    keys: Seq<Seq<char>>,
    generators: Seq<DatumGenerator>,
    id: Seq<char>,
    g: DatumGenerator,
)
    requires
        keys.len() == generators.len(),
    ensures
        makings(put_value(keys, generators, id, g)) == put_value(
            keys,
            makings(generators),
            id,
            g@,
        ),
{
    crate::text::lemma_first_index(keys, id);
    assert(makings(put_value(keys, generators, id, g)) =~= put_value(
        keys,
        makings(generators),
        id,
        g@,
    ));
}

/// Whether `after` are the generators `before` with the one in place `i`
/// changed as `order` says, and the others as they were.
pub open spec fn adjusts(before: Seq<Making>, after: Seq<Making>, i: int, order: Order) -> bool {
    &&& 0 <= i < before.len()
    &&& after.len() == before.len()
    &&& is_adjusted(before[i], order, after[i])
    &&& forall|j: int| 0 <= j < before.len() && j != i ==> after[j] == before[j]
}

/// What `std::fmt::Debug` writes for a body that may be there: `None`, or
/// `Some` with the body in quotes and with its special characters escaped.
pub uninterp spec fn debug_text(body: Option<Seq<char>>) -> Seq<char>;

/// The identifier of the sensor that a request for a datum names: what
/// stands in its start line behind `GET /datum/` and before ` HTTP/1.1`.
pub open spec fn sensor_id(start_line: Seq<char>) -> Seq<char> {
    strip_suffixes(strip_prefixes(start_line, "GET /datum/"@), " HTTP/1.1"@)
}

/// The answer that carries a datum.
pub open spec fn datum_reply(d: Reading) -> Parts {
    response(200).with_body(d.text())
}

/// The refusal of a request for a datum of a sensor that is not known and
/// does not say what it measures.
pub open spec fn unknown_sensor(id: Seq<char>) -> Seq<char> {
    "unknown Sensor ID '"@ + id
        + "'. To register a new sensor, you must include 'kind' and 'unit' headers in your request"@
}

/// A turn that only refuses.
pub open spec fn refusal(keys: Seq<Seq<char>>, generators: Seq<Making>, msg: Seq<char>) -> Turn {
    Turn { keys, generators, change: None, reply: Some(failure(msg)), pending: Pending::Nothing }
}

/// The turn in which the generator `g` of the sensor `id` is asked for a
/// datum: it makes one and moves on, or leaves the making to the program.
pub open spec fn asked(
    keys: Seq<Seq<char>>,
    generators: Seq<Making>,
    id: Seq<char>,
    g: Making,
    now: Instant,
    chance: u32,
) -> Turn {
    match made(g, now, chance) {
        Some(d) => Turn {
            keys: put_key(keys, id),
            generators: put_value(keys, generators, id, advanced(g)),
            change: None,
            reply: Some(datum_reply(d)),
            pending: Pending::Nothing,
        },
        None => Turn {
            keys: put_key(keys, id),
            generators: put_value(keys, generators, id, g),
            change: None,
            reply: None,
            pending: Pending::Sample { id, unit: g.unit },
        },
    }
}

/// How the environment handles the request `m` for a datum at the moment
/// `now` with the chance `chance`. A sensor that is known gets the next
/// datum of its generator. One that is not known must say what kind of
/// value it measures and in which unit; it is then given a generator, and
/// gets the first datum of it.
pub open spec fn datum_turn(
    keys: Seq<Seq<char>>,
    generators: Seq<Making>,
    m: Parts,
    now: Timestamp,
    chance: u32,
) -> Turn {
    let id = sensor_id(m.start_line);
    if first_index(keys, id) < keys.len() {
        asked(keys, generators, id, generators[first_index(keys, id)], now@, chance)
    } else {
        match (value_of(m.headers, "kind"@), value_of(m.headers, "unit"@)) {
            (Some(kind), Some(unit)) => match (Kind::parsed(kind), Unit::parsed(unit)) {
                (Ok(kind), Ok(unit)) => asked(
                    keys,
                    generators,
                    id,
                    first_met(kind, unit, now),
                    now@,
                    chance,
                ),
                _ => refusal(keys, generators, "could not parse required headers"@),
            },
            _ => refusal(keys, generators, unknown_sensor(id)),
        }
    }
}

/// How the environment handles the command in `m`. The command must come
/// with the identifier of the sensor whose data it is to change and with
/// the model of the actuator, which must be a Thermo5000; its body must be
/// a command of that model; and the sensor must be known and measure
/// numbers with a fraction, whose constant must stay a number. Then the
/// generator of the sensor is changed as the command says.
pub open spec fn command_turn(keys: Seq<Seq<char>>, generators: Seq<Making>, m: Parts) -> Turn {
    match (value_of(m.headers, "id"@), value_of(m.headers, "model"@)) {
        (Some(id), Some(model)) => match Model::parsed(model) {
            Ok(Model::Controller) => refusal(
                keys,
                generators,
                "does not accept Commands directly from the Controller"@,
            ),
            Ok(Model::Environment) => refusal(
                keys,
                generators,
                "does not accept Commands from itself"@,
            ),
            Ok(Model::Unsupported) => refusal(keys, generators, "unsupported device"@),
            Ok(Model::Thermo5000) => {
                let order = match m.body {
                    Some(b) => match command_parsed(b) {
                        Ok(o) => Some(o),
                        Err(_) => None,
                    },
                    None => None,
                };
                match order {
                    Some(order) => if first_index(keys, id) >= keys.len() {
                        refusal(
                            keys,
                            generators,
                            "cannot update generator for unknown id: "@ + id,
                        )
                    } else if can_adjust(generators[first_index(keys, id)], order) {
                        Turn {
                            keys,
                            generators,
                            change: Some((first_index(keys, id), order)),
                            reply: Some(response(200)),
                            pending: Pending::Nothing,
                        }
                    } else {
                        refusal(
                            keys,
                            generators,
                            "cannot update generator that takes no such Command for id: "@ + id,
                        )
                    },
                    None => refusal(
                        keys,
                        generators,
                        "could not parse \""@ + debug_text(m.body) + "\" as Thermo5000 Command"@,
                    ),
                }
            },
            Err(_) => refusal(keys, generators, "could not parse required headers"@),
        },
        _ => refusal(
            keys,
            generators,
            "missing required headers. 'id' and 'model' headers are required to update a generator."@,
        ),
    }
}

/// How the environment handles the request in `bytes` at the moment `now`
/// with the chance `chance`.
pub open spec fn turn(
    keys: Seq<Seq<char>>,
    generators: Seq<Making>,
    bytes: Seq<u8>,
    now: Timestamp,
    chance: u32,
) -> Turn {
    match read(bytes) {
        None => refusal(keys, generators, "unable to read Message from stream"@),
        Some(m) => if "GET /datum/"@.is_prefix_of(m.start_line) {
            datum_turn(keys, generators, m, now, chance)
        } else if m.start_line == "POST /command HTTP/1.1"@ {
            command_turn(keys, generators, m)
        } else {
            refusal(keys, generators, "cannot parse request: "@ + m.start_line)
        },
    }
}

/// What a turn writes.
pub open spec fn written_by(t: Turn) -> Seq<u8> {
    match t.reply {
        Some(p) => encode_utf8(written(p)),
        None => Seq::empty(),
    }
}

/// Whether what the environment gives back is what the turn `t` says.
pub open spec fn follows(r: (Table<DatumGenerator>, Task), t: Turn) -> bool {
    &&& r.0.keys() == t.keys
    &&& pending(r.1) == t.pending
    &&& match t.change {
        None => makings(r.0.values()) == t.generators,
        Some((i, order)) => adjusts(t.generators, makings(r.0.values()), i, order),
    }
}

/// `format!` with `{:?}` on a body that may be there: what
/// `std::fmt::Debug` writes for it.
#[verifier::external_body]
fn debugged(body: &Option<String>) -> (r: String)
    ensures
        r@ == debug_text(
            match *body {
                Some(b) => Some(b@),
                None => None,
            },
        ),
{
    format!("{:?}", body)
}

/// The environment.
#[derive(Debug, PartialEq)]
pub struct Environment {
    name: Name,
    id: Id,
    generators: Table<DatumGenerator>,
}

impl Device for Environment {
    closed spec fn name(&self) -> Seq<char> {
        self.name@
    }

    closed spec fn id(&self) -> Seq<char> {
        self.id@
    }

    open spec fn model() -> Model {
        Model::Environment
    }

    fn get_name(&self) -> (r: &Name) {
        &self.name
    }

    fn get_id(&self) -> (r: &Id) {
        &self.id
    }

    fn get_model() -> (m: Model) {
        Model::Environment
    }
}

impl Environment {
    /// The generators of the environment, by sensor.
    pub closed spec fn generators(&self) -> Table<DatumGenerator> {
        self.generators
    }

    /// The environment of this identifier and name, which knows no sensor yet.
    pub fn new(id: Id, name: Name) -> (e: Environment)
        ensures
            e.id() == id@,
            e.name() == name@,
            e.generators().keys().len() == 0,
    {
        Environment { name, id, generators: Table::new() }
    }

    /// The generators of the environment, by sensor.
    pub fn get_generators(&self) -> (r: &Table<DatumGenerator>)
        ensures
            *r == self.generators(),
    {
        &self.generators
    }

    /// The environment with `generator` for the sensor `id`.
    pub fn with_generator(self, id: Id, generator: DatumGenerator) -> (e: Environment)
        ensures
            e.id() == self.id(),
            e.name() == self.name(),
            e.generators().keys() == put_key(self.generators().keys(), id@),
            e.generators().values() == put_value(
                self.generators().keys(),
                self.generators().values(),
                id@,
                generator,
            ),
    {
        Environment {
            name: self.name,
            id: self.id,
            generators: self.generators.insert(id, generator),
        }
    }

    /// Answers a request whose value was left to be made: writes the
    /// answer that carries the datum of the sensor `id` at the moment `now`
    /// to `tcp_stream`, and gives that datum. Its value is the sum of the
    /// constant of the generator of the sensor and of `wave`, which was
    /// made outside. Where no number came of the wave, the sensor has no
    /// generator of such numbers, or the sum is no number any more, a
    /// refusal is written.
    pub fn reply_sample(
        &self,
        tcp_stream: &mut Vec<u8>,
        id: &Id,
        wave: Option<&Number>,
        now: Timestamp,
    ) -> (r: Option<Datum>)
        ensures
            match r {
                Some(d) => {
                    &&& wave is Some
                    &&& first_index(self.generators().keys(), id@) < self.generators().keys().len()
                    &&& self.generators().values()[first_index(
                        self.generators().keys(),
                        id@,
                    )]@.source matches Origin::Float(c)
                    &&& d@.value matches Scalar::Float(v)
                    &&& is_sum(c, wave->0@, v)
                    &&& d@.unit == self.generators().values()[first_index(
                        self.generators().keys(),
                        id@,
                    )].unit
                    &&& d@.time == now@
                    &&& final(tcp_stream)@ == old(tcp_stream)@ + encode_utf8(
                        written(datum_reply(d@)),
                    )
                },
                None => {
                    &&& !(wave is Some && first_index(self.generators().keys(), id@)
                        < self.generators().keys().len() && (self.generators().values()[first_index(
                        self.generators().keys(),
                        id@,
                    )]@.source matches Origin::Float(c) && can_add(c, wave->0@)))
                    &&& final(tcp_stream)@ == old(tcp_stream)@ + encode_utf8(
                        written(failure("cannot make a value for id: "@ + id@)),
                    )
                },
            },
    {
        self.generators.check();
        let datum = match (self.generators.get(id), wave) {
            (Some(g), Some(w)) => g.sample(w, now),
            _ => None,
        };
        match datum {
            Some(d) => {
                let response = Message::respond_ok().with_body(d.to_string().as_str());
                response.write(tcp_stream);
                Some(d)
            },
            None => {
                let msg = phrase("cannot make a value for id: ", id.to_string().as_str(), "");
                proof {
                    reveal_strlit("");
                    assert(msg@ =~= "cannot make a value for id: "@ + id@);
                }
                Self::handler_failure(self.name.copy(), tcp_stream, msg.as_str());
                None
            },
        }
    }

    /// Refuses a request with `msg`.
    fn refuse(
        tcp_stream: &mut Vec<u8>,
        self_name: &Name,
        generators: Table<DatumGenerator>,
        msg: &str,
    ) -> (r: (Table<DatumGenerator>, Task))
        ensures
            follows(r, refusal(generators.keys(), makings(generators.values()), msg@)),
            final(tcp_stream)@ == old(tcp_stream)@ + written_by(
                refusal(generators.keys(), makings(generators.values()), msg@),
            ),
    {
        Self::handler_failure(self_name.copy(), tcp_stream, msg);
        (generators, Task::Nothing)
    }

    /// Asks the generator `g` of the sensor `id` for a datum.
    fn ask(
        tcp_stream: &mut Vec<u8>,
        generators: Table<DatumGenerator>,
        id: Id,
        g: DatumGenerator,
        now: Timestamp,
        chance: u32,
    ) -> (r: (Table<DatumGenerator>, Task))
        ensures
            follows(
                r,
                asked(generators.keys(), makings(generators.values()), id@, g@, now@, chance),
            ),
            final(tcp_stream)@ == old(tcp_stream)@ + written_by(
                asked(generators.keys(), makings(generators.values()), id@, g@, now@, chance),
            ),
    {
        generators.check();
        let ghost keys = generators.keys();
        let ghost before = generators.values();
        let (next, datum) = g.generate_at(now, chance);
        match datum {
            Some(d) => {
                let response = Message::respond_ok().with_body(d.to_string().as_str());
                response.write(tcp_stream);
                let after = generators.insert(id, next);
                proof {
                    lemma_makings_put(keys, before, id@, next);
                }
                (after, Task::Nothing)
            },
            None => {
                assert(tcp_stream@ =~= old(tcp_stream)@ + Seq::<u8>::empty());
                let task = Task::Sample { id: id.copy(), unit: g.unit };
                let after = generators.insert(id, g);
                proof {
                    lemma_makings_put(keys, before, id@, g);
                }
                (after, task)
            },
        }
    }

    /// Handles a request for a datum at the moment `now` with the chance
    /// `chance`: writes the answer to `tcp_stream`, unless the value is
    /// left to be made outside.
    pub fn handle_get_datum_at(
        tcp_stream: &mut Vec<u8>,
        message: Message,
        self_name: &Name,
        generators: Table<DatumGenerator>,
        now: Timestamp,
        chance: u32,
    ) -> (r: (Table<DatumGenerator>, Task))
        ensures
            follows(
                r,
                datum_turn(generators.keys(), makings(generators.values()), message@, now, chance),
            ),
            final(tcp_stream)@ == old(tcp_stream)@ + written_by(
                datum_turn(generators.keys(), makings(generators.values()), message@, now, chance),
            ),
    {
        generators.check();
        let line = chars_of(message.line());
        let t = strip_prefix_run(&line, &chars_of("GET /datum/"));
        let t = strip_suffix_run(&t, &chars_of(" HTTP/1.1"));
        let id = Id::new(string_of(&t).as_str());
        proof {
            crate::text::lemma_first_index(generators.keys(), id@);
        }
        match generators.get(&id) {
            Some(g) => {
                let g = g.copy();
                assert(g@ == makings(generators.values())[first_index(generators.keys(), id@)]);
                Environment::ask(tcp_stream, generators, id, g, now, chance)
            },
            None => {
                match (message.header("kind"), message.header("unit")) {
                    (Some(kind), Some(unit)) => {
                        match (Kind::parse(kind.as_str()), Unit::parse(unit.as_str())) {
                            (Ok(kind), Ok(unit)) => {
                                let g = DatumGenerator::new(kind, unit, now);
                                Environment::ask(tcp_stream, generators, id, g, now, chance)
                            },
                            _ => Environment::refuse(
                                tcp_stream,
                                self_name,
                                generators,
                                "could not parse required headers",
                            ),
                        }
                    },
                    _ => {
                        let msg = phrase(
                            "unknown Sensor ID '",
                            id.to_string().as_str(),
                            "'. To register a new sensor, you must include 'kind' and 'unit' headers in your request",
                        );
                        Environment::refuse(tcp_stream, self_name, generators, msg.as_str())
                    },
                }
            },
        }
    }

    /// Handles a request for a datum now: what
    /// [`Environment::handle_get_datum_at`] does for the present moment
    /// and some chance.
    pub fn handle_get_datum(
        tcp_stream: &mut Vec<u8>,
        message: Message,
        self_name: &Name,
        generators: Table<DatumGenerator>,
    ) -> (r: (Table<DatumGenerator>, Task))
        ensures
            exists|now: Timestamp, chance: u32|
                {
                    let t = #[trigger] datum_turn(
                        generators.keys(),
                        makings(generators.values()),
                        message@,
                        now,
                        chance,
                    );
                    follows(r, t) && final(tcp_stream)@ == old(tcp_stream)@ + written_by(t)
                },
    {
        let now = Timestamp::now();
        let c = chance();
        let ghost t = datum_turn(generators.keys(), makings(generators.values()), message@, now, c);
        let r = Environment::handle_get_datum_at(
            tcp_stream,
            message,
            self_name,
            generators,
            now,
            c,
        );
        assert(follows(r, t) && tcp_stream@ == old(tcp_stream)@ + written_by(t));
        r
    }

    /// Handles a command: writes the answer to `tcp_stream`, and leaves
    /// the change that the command asks for to be made outside.
    pub fn handle_post_command(
        tcp_stream: &mut Vec<u8>,
        message: Message,
        self_name: &Name,
        generators: Table<DatumGenerator>,
    ) -> (r: (Table<DatumGenerator>, Task))
        ensures
            follows(r, command_turn(generators.keys(), makings(generators.values()), message@)),
            final(tcp_stream)@ == old(tcp_stream)@ + written_by(
                command_turn(generators.keys(), makings(generators.values()), message@),
            ),
    {
        generators.check();
        match (message.header("id"), message.header("model")) {
            (Some(id), Some(model)) => {
                let id = Id::new(id.as_str());
                match Model::parse(model.as_str()) {
                    Ok(Model::Controller) => Environment::refuse(
                        tcp_stream,
                        self_name,
                        generators,
                        "does not accept Commands directly from the Controller",
                    ),
                    Ok(Model::Environment) => Environment::refuse(
                        tcp_stream,
                        self_name,
                        generators,
                        "does not accept Commands from itself",
                    ),
                    Ok(Model::Unsupported) => Environment::refuse(
                        tcp_stream,
                        self_name,
                        generators,
                        "unsupported device",
                    ),
                    Ok(Model::Thermo5000) => {
                        let order = match message.content() {
                            Some(b) => match Command::parse(b.as_str()) {
                                Ok(c) => Some(c),
                                Err(_) => None,
                            },
                            None => None,
                        };
                        match order {
                            Some(command) => {
                                let ghost keys = generators.keys();
                                let ghost before = generators.values();
                                proof {
                                    crate::text::lemma_first_index(keys, id@);
                                }
                                let next = match generators.get(&id) {
                                    None => {
                                        let msg = phrase(
                                            "cannot update generator for unknown id: ",
                                            id.to_string().as_str(),
                                            "",
                                        );
                                        proof {
                                            reveal_strlit("");
                                            assert(msg@ =~= "cannot update generator for unknown id: "@
                                                + id@);
                                        }
                                        return Environment::refuse(
                                            tcp_stream,
                                            self_name,
                                            generators,
                                            msg.as_str(),
                                        );
                                    },
                                    Some(g) => g.adjusted(&command),
                                };
                                match next {
                                    Some(g) => {
                                        let response = Message::respond_ok();
                                        response.write(tcp_stream);
                                        let after = generators.insert(id, g);
                                        proof {
                                            let i = first_index(keys, id@);
                                            assert(makings(before)[i] == before[i]@);
                                            assert(after.values() =~= before.update(i, g));
                                            assert(makings(after.values())[i] == g@);
                                            assert forall|j: int|
                                                0 <= j < before.len() && j != i implies makings(
                                                after.values(),
                                            )[j] == makings(before)[j] by {
                                                assert(after.values()[j] == before[j]);
                                            }
                                        }
                                        (after, Task::Nothing)
                                    },
                                    None => {
                                        let msg = phrase(
                                            "cannot update generator that takes no such Command for id: ",
                                            id.to_string().as_str(),
                                            "",
                                        );
                                        proof {
                                            reveal_strlit("");
                                            assert(msg@
                                                =~= "cannot update generator that takes no such Command for id: "@
                                                + id@);
                                        }
                                        Environment::refuse(
                                            tcp_stream,
                                            self_name,
                                            generators,
                                            msg.as_str(),
                                        )
                                    },
                                }
                            },
                            None => {
                                let msg = phrase(
                                    "could not parse \"",
                                    debugged(message.content()).as_str(),
                                    "\" as Thermo5000 Command",
                                );
                                Environment::refuse(tcp_stream, self_name, generators, msg.as_str())
                            },
                        }
                    },
                    Err(_) => Environment::refuse(
                        tcp_stream,
                        self_name,
                        generators,
                        "could not parse required headers",
                    ),
                }
            },
            _ => Environment::refuse(
                tcp_stream,
                self_name,
                generators,
                "missing required headers. 'id' and 'model' headers are required to update a generator.",
            ),
        }
    }

    /// Handles the request in `request` at the moment `now` with the
    /// chance `chance`: writes the answer to `tcp_stream`, and gives the
    /// environment after it and the work that is left.
    pub fn handle_at(
        self,
        request: &[u8],
        tcp_stream: &mut Vec<u8>,
        now: Timestamp,
        chance: u32,
    ) -> (r: (Environment, Task))
        ensures
            r.0.id() == self.id(),
            r.0.name() == self.name(),
            follows(
                (r.0.generators(), r.1),
                turn(
                    self.generators().keys(),
                    makings(self.generators().values()),
                    request@,
                    now,
                    chance,
                ),
            ),
            final(tcp_stream)@ == old(tcp_stream)@ + written_by(
                turn(
                    self.generators().keys(),
                    makings(self.generators().values()),
                    request@,
                    now,
                    chance,
                ),
            ),
    {
        let Environment { name, id, generators } = self;
        let (generators, task) = match Message::read_from_buffer(request) {
            Ok(m) => {
                let line = chars_of(m.line());
                assert(line@.skip(0) =~= line@);
                if has_at(&line, 0, &chars_of("GET /datum/")) {
                    Environment::handle_get_datum_at(tcp_stream, m, &name, generators, now, chance)
                } else if same(m.line(), "POST /command HTTP/1.1") {
                    Environment::handle_post_command(tcp_stream, m, &name, generators)
                } else {
                    let msg = phrase("cannot parse request: ", m.line(), "");
                    proof {
                        reveal_strlit("");
                        assert(msg@ =~= "cannot parse request: "@ + m@.start_line);
                    }
                    Environment::refuse(tcp_stream, &name, generators, msg.as_str())
                }
            },
            Err(_) => Environment::refuse(
                tcp_stream,
                &name,
                generators,
                "unable to read Message from stream",
            ),
        };
        (Environment { name, id, generators }, task)
    }

    /// Handles the request in `request` now: what
    /// [`Environment::handle_at`] does for the present moment and some
    /// chance.
    pub fn handle(self, request: &[u8], tcp_stream: &mut Vec<u8>) -> (r: (Environment, Task))
        ensures
            r.0.id() == self.id(),
            r.0.name() == self.name(),
            exists|now: Timestamp, chance: u32|
                {
                    let t = #[trigger] turn(
                        self.generators().keys(),
                        makings(self.generators().values()),
                        request@,
                        now,
                        chance,
                    );
                    follows((r.0.generators(), r.1), t) && final(tcp_stream)@ == old(
                        tcp_stream,
                    )@ + written_by(t)
                },
    {
        let now = Timestamp::now();
        let c = chance();
        let ghost t = turn(
            self.generators().keys(),
            makings(self.generators().values()),
            request@,
            now,
            c,
        );
        let r = self.handle_at(request, tcp_stream, now, c);
        assert(follows((r.0.generators(), r.1), t) && tcp_stream@ == old(tcp_stream)@
            + written_by(t));
        r
    }
}

} // verus!
