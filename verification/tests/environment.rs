use devices::datum::Datum;
use devices::device::Device;
use devices::environment::{Environment, Task};
use devices::generator::{DatumGenerator, Linear, Source};
use devices::id::Id;
use devices::kind::Kind;
use devices::message::Message;
use devices::model::Model;
use devices::name::Name;
use devices::number::Number;
use devices::table::Table;
use devices::timestamp::Timestamp;
use devices::unit::Unit;
use devices::value::Value;

fn pairs(items: &[(&str, &str)]) -> Vec<(String, String)> {
    items.iter().map(|(k, v)| (k.to_string(), v.to_string())).collect()
}

fn at(secs: i64, millis: u32) -> Timestamp {
    Timestamp::new(secs, millis * 1_000_000).unwrap()
}

fn bytes(message: &Message) -> Vec<u8> {
    let mut out = Vec::new();
    message.write(&mut out);
    out
}

fn number(text: &str) -> Number {
    Number::parse(text).unwrap()
}

fn refusal(msg: &str) -> String {
    Message::respond_bad_request().with_body(msg).to_string()
}

#[test]
fn lib_test_get_name() {
    let expected = Name::new("myName");
    let controller = Environment::new(Id::new("myId"), expected.clone());
    let actual = controller.get_name();
    let expected = &expected;
    assert_eq!(actual, expected);
}

#[test]
fn lib_test_get_id() {
    let expected = Id::new("myId");
    let controller = Environment::new(expected.clone(), Name::new("myName"));
    let actual = controller.get_id();
    let expected = &expected;
    assert_eq!(actual, expected);
}

#[test]
fn lib_test_get_model() {
    let actual = Environment::get_model();
    let expected = Model::Environment;
    assert_eq!(actual, expected);
}

#[test]
fn test_handle_get_datum_new_generator() {
    let mut buffer = Vec::new();

    let headers = pairs(&[("kind", "float"), ("unit", "°C")]);

    let message = Message::request_get("/url").with_headers(headers);

    let name = Name::new("self name");

    let generators = Table::new();

    let (generators, task) = Environment::handle_get_datum(&mut buffer, message, &name, generators);

    // what changes with time in a number with a fraction is made outside, and then written
    assert_eq!(buffer, Vec::<u8>::new());
    assert_eq!(task, Task::Sample { id: Id::new("GET /url"), unit: Unit::DegreesC });
    assert_eq!(generators.get(&Id::new("GET /url")), Some(&DatumGenerator::around(number("0"), Unit::DegreesC)));
    let environment = Environment::new(Id::new("environment"), name)
        .with_generator(Id::new("GET /url"), DatumGenerator::around(number("0"), Unit::DegreesC));
    environment.reply_sample(&mut buffer, &Id::new("GET /url"), Some(&number("-0.022500813")), Timestamp::now());

    let actual = String::from_utf8(buffer).unwrap();

    assert!(actual.starts_with("HTTP/1.1 200 OK\r\nContent-Length: ")); // and then a content length
    assert!(actual.contains("\r\nContent-Type: text/json; charset=utf-8\r\n\r\n{\"value\":\"")); // and then a value
    assert!(actual.contains("\",\"unit\":\"")); // and then a unit
    assert!(actual.contains("\",\"timestamp\":\"")); // and then a timestamp
    assert!(actual.ends_with("\"}\r\n\r\n"));
}

#[test]
fn test_handle_get_datum_new_generator_int() {
    let mut buffer = Vec::new();
    let message = Message::request_get("/datum/counter").with_headers(pairs(&[("kind", "int"), ("unit", "")]));
    let name = Name::new("self name");
    let now = at(100, 0);
    let (generators, task) =
        Environment::handle_get_datum_at(&mut buffer, message, &name, Table::new(), now, 1);
    assert_eq!(task, Task::Nothing);
    assert_eq!(generators.get(&Id::new("counter")), Some(&DatumGenerator::new(Kind::Int, Unit::Unitless, now)));
    let expected = Message::respond_ok().with_body(&Datum::new(Value::Int(0), Unit::Unitless, now).to_string());
    assert_eq!(String::from_utf8(buffer).unwrap(), expected.to_string());
}

#[test]
fn test_handle_get_datum_new_generator_bool() {
    let name = Name::new("self name");
    let now = at(100, 0);
    let request = || Message::request_get("/datum/lamp").with_headers(pairs(&[("kind", "bool"), ("unit", "⏼")]));
    let mut generators = Table::new();
    for expected in [false, true, false, true] {
        let mut buffer = Vec::new();
        let (next, task) = Environment::handle_get_datum_at(&mut buffer, request(), &name, generators, now, 9);
        generators = next;
        assert_eq!(task, Task::Nothing);
        let datum = Datum::new(Value::Bool(expected), Unit::PoweredOn, now);
        assert_eq!(String::from_utf8(buffer).unwrap(), Message::respond_ok().with_body(&datum.to_string()).to_string());
    }
    assert_eq!(generators.len(), 1);
}

#[test]
fn test_handle_get_datum_new_generator_bad_headers() {
    let mut buffer = Vec::new();

    let headers = pairs(&[("kind", "not a valid kind"), ("unit", "°C")]);

    let message = Message::request_get("/url").with_headers(headers);

    let name = Name::new("self name");

    let generators = Table::new();

    Environment::handle_get_datum(&mut buffer, message, &name, generators);

    let actual = String::from_utf8(buffer).unwrap();

    let expected = [
        "HTTP/1.1 400 Bad Request",
        "Content-Length: 32",
        "Content-Type: text/json; charset=utf-8",
        "",
        "could not parse required headers",
    ]
    .join("\r\n");

    assert_eq!(actual, format!("{}\r\n\r\n", expected))
}

#[test]
fn test_handle_get_datum_new_generator_mising_headers() {
    let mut buffer = Vec::new();

    // no "kind" header provided
    let headers = pairs(&[("unit", "°C")]);

    let message = Message::request_get("/url").with_headers(headers);

    let name = Name::new("self name");

    let generators = Table::new();

    Environment::handle_get_datum(&mut buffer, message, &name, generators);

    let actual = String::from_utf8(buffer).unwrap();

    let expected = [
        "HTTP/1.1 400 Bad Request",
        "Content-Length: 114",
        "Content-Type: text/json; charset=utf-8",
        "",
        "unknown Sensor ID 'GET /url'. To register a new sensor, you must include 'kind' and 'unit' headers in your request",
    ]
    .join("\r\n");

    assert_eq!(actual, format!("{}\r\n\r\n", expected))
}

#[test]
fn test_handle_get_datum_existing_generator() {
    let mut buffer = Vec::new();

    let message = Message::request_get("/datum/my_id");

    let name = Name::new("self name");

    let generator = DatumGenerator::rising(2, 0, Unit::DegreesC, at(100, 0));
    let generators = Table::new().insert(Id::new("my_id"), generator);

    Environment::handle_get_datum(&mut buffer, message, &name, generators);

    let actual = String::from_utf8(buffer).unwrap();

    assert!(actual.starts_with("HTTP/1.1 200 OK\r\nContent-Length: ")); // and then a content length
    assert!(actual.contains("\r\nContent-Type: text/json; charset=utf-8\r\n\r\n{\"value\":\"")); // and then a value
    assert!(actual.contains("\",\"unit\":\"")); // and then a unit
    assert!(actual.contains("\",\"timestamp\":\"")); // and then a timestamp
    assert!(actual.ends_with("\"}\r\n\r\n"));
}

#[test]
fn test_get_datum_of_a_cold_sensor() {
    let request = Message::request_get("/datum/cold").with_headers(pairs(&[("kind", "float"), ("unit", "°C")]));
    let mut stream = Vec::new();
    let environment = Environment::new(Id::new("environment"), Name::new("Environment"));
    let (environment, task) = environment.handle(&bytes(&request), &mut stream);
    match task {
        Task::Sample { id, unit } => {
            assert_eq!(id, Id::new("cold"));
            assert_eq!(unit, Unit::DegreesC);
            let datum = environment.reply_sample(&mut stream, &id, Some(&number("4.25")), Timestamp::now()).unwrap();
            assert_eq!(datum.value, Value::Float(number("4.25")));
        }
        _ => panic!("the value was to be made outside"),
    }
    let response = Message::read_from_buffer(&stream).unwrap();
    assert_eq!(response.start_line, "HTTP/1.1 200 OK");
    let datum = Datum::parse(&response.body.unwrap()).unwrap();
    assert_eq!(datum.unit, Unit::DegreesC);
    assert_eq!(datum.value, Value::Float(Number::parse("4.25").unwrap()));
    assert_eq!(environment.get_generators().len(), 1);
    assert_eq!(environment.get_generators().id(0), &Id::new("cold"));
}

#[test]
fn test_get_datum_of_an_unknown_sensor() {
    let request = Message::request_get("/datum/unknown");
    let mut stream = Vec::new();
    let environment = Environment::new(Id::new("environment"), Name::new("Environment"));
    let (environment, task) = environment.handle(&bytes(&request), &mut stream);
    assert_eq!(task, Task::Nothing);
    let response = Message::read_from_buffer(&stream).unwrap();
    assert_eq!(response.start_line, "HTTP/1.1 400 Bad Request");
    assert!(response.body.unwrap().starts_with("unknown Sensor ID 'unknown'"));
    assert_eq!(environment.get_generators().len(), 0);
}

fn command(id: &str, model: &str, body: &str) -> Message {
    Message::request_post("/command").with_headers(pairs(&[("id", id), ("model", model)])).with_body(body)
}

#[test]
fn test_post_command_to_a_known_sensor() {
    let environment = Environment::new(Id::new("environment"), Name::new("Environment"))
        .with_generator(Id::new("lamp"), DatumGenerator::alternating(false, Unit::PoweredOn))
        .with_generator(Id::new("s1"), DatumGenerator::around(number("20.5"), Unit::DegreesC));
    let request = command("s1", "thermo5000", "{\"name\":\"HeatBy\",\"value\":\"5\"}");
    let mut stream = Vec::new();
    let (environment, task) = environment.handle(&bytes(&request), &mut stream);
    assert_eq!(String::from_utf8(stream).unwrap(), Message::respond_ok().to_string());
    assert_eq!(task, Task::Nothing);

    // the constant has increased by 0.05
    let generators = environment.get_generators();
    assert_eq!(generators.len(), 2);
    assert_eq!(generators.get(&Id::new("s1")), Some(&DatumGenerator::around(number("20.55"), Unit::DegreesC)));
    assert_eq!(generators.get(&Id::new("lamp")), Some(&DatumGenerator::alternating(false, Unit::PoweredOn)));

    // and the data that follow are higher by as much
    let mut stream = Vec::new();
    let now = at(9, 0);
    let datum = environment.reply_sample(&mut stream, &Id::new("s1"), Some(&number("-0.25")), now).unwrap();
    assert_eq!(datum, Datum::new(Value::Float(number("20.3")), Unit::DegreesC, now));
    assert_eq!(String::from_utf8(stream).unwrap(), Message::respond_ok().with_body(&datum.to_string()).to_string());

    let request = command("s1", "thermo5000", "{\"name\":\"CoolBy\",\"value\":\"2055.5\"}");
    let mut stream = Vec::new();
    let (environment, _) = environment.handle(&bytes(&request), &mut stream);
    assert_eq!(String::from_utf8(stream).unwrap(), Message::respond_ok().to_string());
    assert_eq!(
        environment.get_generators().get(&Id::new("s1")),
        Some(&DatumGenerator::around(number("-0.005"), Unit::DegreesC))
    );
}

#[test]
fn test_reply_sample_refusals() {
    let environment = Environment::new(Id::new("environment"), Name::new("Environment"))
        .with_generator(Id::new("lamp"), DatumGenerator::alternating(false, Unit::PoweredOn))
        .with_generator(
            Id::new("far"),
            DatumGenerator::around(number("340282366920938463463374607431768211455.5"), Unit::DegreesC),
        );
    for (id, wave) in [("lamp", "1"), ("nobody", "1"), ("far", "0.5")] {
        let mut stream = Vec::new();
        let datum = environment.reply_sample(&mut stream, &Id::new(id), Some(&number(wave)), at(1, 0));
        assert_eq!(datum, None);
        assert_eq!(String::from_utf8(stream).unwrap(), refusal(&format!("cannot make a value for id: {}", id)));
    }
    let mut stream = Vec::new();
    let datum = environment.reply_sample(&mut stream, &Id::new("far"), Some(&number("0.25")), at(1, 0)).unwrap();
    assert_eq!(datum.value, Value::Float(number("340282366920938463463374607431768211455.75")));
    // where no number came of the wave, no value is made
    let mut stream = Vec::new();
    assert_eq!(environment.reply_sample(&mut stream, &Id::new("far"), None, at(1, 0)), None);
    assert_eq!(String::from_utf8(stream).unwrap(), refusal("cannot make a value for id: far"));
}

#[test]
fn test_post_command_refusals() {
    let name = Name::new("Environment");
    let generators = || {
        Table::new()
            .insert(Id::new("s1"), DatumGenerator::around(number("1.5"), Unit::DegreesC))
            .insert(Id::new("lamp"), DatumGenerator::alternating(true, Unit::PoweredOn))
            .insert(
                Id::new("far"),
                DatumGenerator::around(number("340282366920938463463374607431768211455.99"), Unit::DegreesC),
            )
    };
    let heat = "{\"name\":\"HeatBy\",\"value\":\"5\"}";
    let cases = [
        (command("s2", "thermo5000", heat), "cannot update generator for unknown id: s2".to_string()),
        (
            command("lamp", "thermo5000", heat),
            "cannot update generator that takes no such Command for id: lamp".to_string(),
        ),
        (command("far", "thermo5000", heat), "cannot update generator that takes no such Command for id: far".to_string()),
        (command("s1", "controller", heat), "does not accept Commands directly from the Controller".to_string()),
        (command("s1", "environment", heat), "does not accept Commands from itself".to_string()),
        (command("s1", "unsupported", heat), "unsupported device".to_string()),
        (command("s1", "toaster", heat), "could not parse required headers".to_string()),
        (
            command("s1", "thermo5000", "{\"name\":\"Blorp\"}"),
            "could not parse \"Some(\"{\\\"name\\\":\\\"Blorp\\\"}\")\" as Thermo5000 Command".to_string(),
        ),
        (
            Message::request_post("/command").with_headers(pairs(&[("id", "s1"), ("model", "thermo5000")])),
            "could not parse \"None\" as Thermo5000 Command".to_string(),
        ),
        (
            Message::request_post("/command").with_headers(pairs(&[("id", "s1")])).with_body(heat),
            "missing required headers. 'id' and 'model' headers are required to update a generator.".to_string(),
        ),
        (
            Message::request_post("/command").with_headers(pairs(&[("model", "thermo5000")])).with_body(heat),
            "missing required headers. 'id' and 'model' headers are required to update a generator.".to_string(),
        ),
    ];
    for (request, expected) in cases {
        let mut stream = Vec::new();
        let (after, task) = Environment::handle_post_command(&mut stream, request, &name, generators());
        assert_eq!(String::from_utf8(stream).unwrap(), refusal(&expected));
        assert_eq!(task, Task::Nothing);
        assert_eq!(after, generators());
    }
}

#[test]
fn test_environment_refuses_other_requests() {
    let environment = Environment::new(Id::new("environment"), Name::new("Environment"));
    let mut stream = Vec::new();
    let (environment, task) = environment.handle(b"GET /data HTTP/1.1\r\n\r\n", &mut stream);
    assert_eq!(task, Task::Nothing);
    assert_eq!(String::from_utf8(stream).unwrap(), refusal("cannot parse request: GET /data HTTP/1.1"));
    let mut stream = Vec::new();
    let (_, task) = environment.handle(&[0xff, 0xfe], &mut stream);
    assert_eq!(task, Task::Nothing);
    assert_eq!(String::from_utf8(stream).unwrap(), refusal("unable to read Message from stream"));
}

#[test]
fn test_the_sensor_is_named_between_path_and_version() {
    let name = Name::new("Environment");
    let now = at(7, 0);
    for (line, id) in [
        ("GET /datum/s1 HTTP/1.1", "s1"),
        ("GET /datum/GET /datum/s1 HTTP/1.1 HTTP/1.1", "s1"),
        ("GET /datum/a b", "a b"),
        ("GET /datum/ HTTP/1.1", ""),
    ] {
        let mut message = Message::request_get("/").with_headers(pairs(&[("kind", "bool"), ("unit", "")]));
        message.start_line = line.to_string();
        let mut stream = Vec::new();
        let (generators, _) = Environment::handle_get_datum_at(&mut stream, message, &name, Table::new(), now, 0);
        assert_eq!(generators.id(0), &Id::new(id), "{}", line);
    }
}

#[test]
fn test_whole_numbers_rise_with_time() {
    let t0 = at(1000, 500);
    let generator = DatumGenerator::rising(3, 0, Unit::Unitless, t0);
    let value = |now: Timestamp| generator.generate_at(now, 12345).1.unwrap().get_as_int().unwrap();
    assert_eq!(value(t0), 0);
    assert_eq!(value(at(1000, 501)), 3);
    assert_eq!(value(at(1001, 0)), 1500);
    assert_eq!(value(at(1002, 750)), 6750);
    assert_eq!(value(at(1000, 499)), -3);
    assert_eq!(value(at(999, 0)), -4500);
    assert_eq!(value(Timestamp::new(1000, 500_999_999).unwrap()), 0);
    assert_eq!(value(Timestamp::new(1000, 499_000_001).unwrap()), 0);
    assert_eq!(value(at(100_000_000, 0)), i32::MAX);
    assert_eq!(value(at(-100_000_000, 0)), i32::MIN);
    let mut last = value(at(1000, 0));
    for millis in 1..1000 {
        let next = value(at(1000, millis));
        assert!(last < next);
        last = next;
    }
}

#[test]
fn test_whole_numbers_fall_with_a_slope_below_zero() {
    let t0 = at(0, 0);
    let generator = DatumGenerator::rising(-1, 0, Unit::Unitless, t0);
    let (after, earlier) = generator.generate_at(at(0, 1), 0);
    let (_, later) = generator.generate_at(at(0, 2), 0);
    assert_eq!(after, generator);
    assert!(earlier.unwrap().get_as_int() > later.unwrap().get_as_int());
}

#[test]
fn test_noise_stays_within_its_bound() {
    let t0 = at(0, 0);
    let generator = DatumGenerator::rising(0, 2, Unit::Unitless, t0);
    let value = |chance: u32| generator.generate_at(at(5, 0), chance).1.unwrap().get_as_int().unwrap();
    assert_eq!(value(0), -2);
    assert_eq!(value(1), -1);
    assert_eq!(value(2), 0);
    assert_eq!(value(3), 1);
    assert_eq!(value(4), 2);
    assert_eq!(value(5), -2);
    assert_eq!(value(u32::MAX), -2);
    for _ in 0..50 {
        let value = generator.generate().1.unwrap().get_as_int().unwrap();
        assert!((-2..=2).contains(&value));
    }
    let silent = DatumGenerator::rising(0, 0, Unit::Unitless, t0);
    assert_eq!(silent.generate().1.unwrap().value, Value::Int(0));
}

#[test]
fn test_truth_values_alternate() {
    let generator = DatumGenerator::alternating(true, Unit::PoweredOn);
    let now = at(3, 0);
    let (second, first) = generator.generate_at(now, 0);
    assert_eq!(first, Some(Datum::new(Value::Bool(true), Unit::PoweredOn, now)));
    assert_eq!(second, DatumGenerator::alternating(false, Unit::PoweredOn));
    let (third, next) = second.generate();
    assert_eq!(next.unwrap().value, Value::Bool(false));
    assert_eq!(third, generator);
}

#[test]
fn test_generators_by_kind() {
    let now = at(3, 0);
    assert_eq!(DatumGenerator::new(Kind::Bool, Unit::PoweredOn, now).source, Source::Bool(false));
    assert_eq!(
        DatumGenerator::new(Kind::Int, Unit::Unitless, now).source,
        Source::Int(Linear { t0: now, slope: 1, noise: 1 })
    );
    let outside = DatumGenerator::new(Kind::Float, Unit::DegreesC, now);
    assert_eq!(outside, DatumGenerator::around(number("0"), Unit::DegreesC));
    assert_eq!(outside.generate_at(now, 0), (outside.copy(), None));
    assert_eq!(outside.generate(), (outside.copy(), None));
    assert_eq!(outside.sample(&number("1.5"), now), Some(Datum::new(Value::Float(number("1.5")), Unit::DegreesC, now)));
    assert_eq!(DatumGenerator::alternating(true, Unit::PoweredOn).sample(&number("1.5"), now), None);
}

#[test]
fn test_commands_raise_and_lower_the_constant() {
    use_commands();
}

fn use_commands() {
    let heat = |text: &str| devices::command::Command::HeatBy(number(text));
    let cool = |text: &str| devices::command::Command::CoolBy(number(text));
    let generator = DatumGenerator::around(number("0"), Unit::DegreesC);
    let generator = generator.adjusted(&heat("5")).unwrap();
    assert_eq!(generator, DatumGenerator::around(number("0.05"), Unit::DegreesC));
    let generator = generator.adjusted(&cool("25")).unwrap();
    assert_eq!(generator, DatumGenerator::around(number("-0.2"), Unit::DegreesC));
    let generator = generator.adjusted(&heat("19.999")).unwrap();
    assert_eq!(generator, DatumGenerator::around(number("-0.00001"), Unit::DegreesC));
    let generator = generator.adjusted(&heat("-0.001")).unwrap();
    assert_eq!(generator, DatumGenerator::around(number("-0.00002"), Unit::DegreesC));
    let generator = generator.adjusted(&cool("-0.002")).unwrap();
    assert_eq!(generator, DatumGenerator::around(number("0"), Unit::DegreesC));
    assert_eq!(DatumGenerator::alternating(true, Unit::PoweredOn).adjusted(&heat("5")), None);
    assert_eq!(DatumGenerator::rising(1, 0, Unit::Unitless, at(0, 0)).adjusted(&heat("5")), None);
    let far = DatumGenerator::around(number("340282366920938463463374607431768211455.99"), Unit::DegreesC);
    assert_eq!(far.adjusted(&heat("1")), None);
    assert_eq!(far.adjusted(&heat("0.9")), Some(DatumGenerator::around(number("340282366920938463463374607431768211455.999"), Unit::DegreesC)));
    assert!(far.adjusted(&cool("1")).is_some());
}
