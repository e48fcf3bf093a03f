use devices::address::Address;
use devices::assessor::Assessor;
use devices::buffer::Buffer;
use devices::command::Command;
use devices::controller::Controller;
use devices::datum::Datum;
use devices::device::{Device, UnsupportedDevice};
use devices::id::Id;
use devices::message::Message;
use devices::model::Model;
use devices::name::Name;
use devices::number::Number;
use devices::sensor::Sensor;
use devices::sensor_temperature::TemperatureSensor;
use devices::service::ServiceRecord;
use devices::table::Table;
use devices::timestamp::Timestamp;
use devices::unit::Unit;
use devices::value::Value;

fn number(value: f32) -> Number {
    Number::parse(&value.to_string()).unwrap()
}

fn datum(value: f32, micros: u32) -> Datum {
    Datum::new(Value::Float(number(value)), Unit::DegreesC, Timestamp::new(1704457176, micros * 1000).unwrap())
}

fn controller(container_mode: bool) -> Controller {
    let address = Address::new("0.0.0.0", 10101);
    Controller::new(Id::new("myId"), Name::new("myName"), address, container_mode)
}

fn thermo(id: &str, host: &str, port: u16, group: &str) -> ServiceRecord {
    TemperatureSensor::new(Id::new(id), Name::new("thermo")).get_service_info(host, port, group)
}

fn answer(datum: &Datum) -> Message {
    Message::respond_ok().with_body(&format!("[{}]", datum.to_string()))
}

#[test]
fn controller_test_get_name() {
    let expected = Name::new("myName");
    let address = Address::new("0.0.0.0", 10101);
    let container_mode = false;
    let controller = Controller::new(Id::new("myId"), expected.clone(), address, container_mode);
    let actual = controller.get_name();
    let expected = &expected;
    assert_eq!(actual, expected);
}

#[test]
fn controller_test_get_id() {
    let expected = Id::new("myId");
    let address = Address::new("0.0.0.0", 10101);
    let container_mode = false;
    let controller = Controller::new(expected.clone(), Name::new("myName"), address, container_mode);
    let actual = controller.get_id();
    let expected = &expected;
    assert_eq!(actual, expected);
}

#[test]
fn controller_test_get_model() {
    let actual = Controller::get_model();
    let expected = Model::Controller;
    assert_eq!(actual, expected);
}

#[test]
fn controller_test_handle_get_data() {
    let id = Id::new("my_sensor");

    let datum1 = datum(1.0, 962380);
    let datum2 = datum(2.0, 962381);
    let datum3 = datum(3.0, 962382);
    let data = Buffer::new(500).push(datum1.clone()).push(datum2.clone()).push(datum3.clone());

    let all_data = Table::new().insert(id.clone(), data);

    let mut buffer = Vec::new();

    Controller::handle_get_data(&mut buffer, &all_data);

    let actual = String::from_utf8(buffer).unwrap();

    let json = [datum3, datum2, datum1].map(|e| e.to_string()).join(",");
    let json = format!(r#"[{{"id":"{}","data":[{}]}}]"#, id.to_string(), json);

    let expected = [
        "HTTP/1.1 200 OK",
        "Content-Length: 257",
        "Content-Type: text/json; charset=utf-8",
        "",
        json.as_str(),
    ]
    .join("\r\n");

    assert_eq!(actual, format!("{}\r\n\r\n", expected))
}

#[test]
fn controller_test_handle_get_datum() {
    let id = Id::new("my_sensor");

    let datum1 = datum(1.0, 962380);
    let datum2 = datum(2.0, 962381);
    let datum3 = datum(3.0, 962382);
    let data = Buffer::new(500).push(datum1.clone()).push(datum2.clone()).push(datum3.clone());

    let all_data = Table::new().insert(id.clone(), data);

    let mut buffer = Vec::new();

    Controller::handle_get_datum(&mut buffer, &all_data);

    let actual = String::from_utf8(buffer).unwrap();

    let json = datum3.to_string();
    let json = format!(r#"[{{"id":"{}","datum":[{}]}}]"#, id.to_string(), json);

    let expected = [
        "HTTP/1.1 200 OK",
        "Content-Length: 106",
        "Content-Type: text/json; charset=utf-8",
        "",
        json.as_str(),
    ]
    .join("\r\n");

    assert_eq!(actual, format!("{}\r\n\r\n", expected))
}

#[test]
fn test_handle_get_data_of_several_sensors_in_the_order_of_their_coming() {
    let data = Table::new()
        .insert(Id::new("b"), Buffer::new(500).push(datum(1.0, 1)))
        .insert(Id::new("a"), Buffer::new(500))
        .insert(Id::new("c"), Buffer::new(500).push(datum(2.0, 2)).push(datum(3.0, 3)));
    let mut buffer = Vec::new();
    Controller::handle_get_data(&mut buffer, &data);
    let body = format!(
        r#"[{{"id":"b","data":[{}]}},{{"id":"a","data":[]}},{{"id":"c","data":[{},{}]}}]"#,
        datum(1.0, 1).to_string(),
        datum(3.0, 3).to_string(),
        datum(2.0, 2).to_string()
    );
    assert_eq!(String::from_utf8(buffer).unwrap(), Message::respond_ok().with_body(&body).to_string());

    let mut buffer = Vec::new();
    Controller::handle_get_datum(&mut buffer, &data);
    let body = format!(
        r#"[{{"id":"b","datum":[{}]}},{{"id":"a","datum":[]}},{{"id":"c","datum":[{}]}}]"#,
        datum(1.0, 1).to_string(),
        datum(3.0, 3).to_string()
    );
    assert_eq!(String::from_utf8(buffer).unwrap(), Message::respond_ok().with_body(&body).to_string());

    let mut buffer = Vec::new();
    Controller::handle_get_data(&mut buffer, &Table::new());
    assert_eq!(String::from_utf8(buffer).unwrap(), Message::respond_ok().with_body("[]").to_string());
}

const PAGE: &str = "<html><script>const url = \"http://192.168.2.16:6565/data\"; const other = \"192.168.2.16:6565\";</script></html>";

#[test]
fn test_handle_get_ui() {
    let mut buffer = Vec::new();

    let address = String::from("1.2.3.4:5678");
    let container_mode = false;

    // a page that is 1837 bytes long once the address is put in
    let page = format!("{}<!--{}-->", PAGE, "-".repeat(1837 - 7 - (PAGE.len() - 10)));

    Controller::handle_get_ui(&mut buffer, container_mode, address.clone(), page.as_str());

    let actual = String::from_utf8(buffer).unwrap();

    let html = page.replace("192.168.2.16:6565", address.as_str());

    let expected = [
        "HTTP/1.1 200 OK",
        "Content-Length: 1837",
        "Content-Type: text/html; charset=utf-8",
        "",
        html.as_str(),
    ]
    .join("\r\n");

    assert_eq!(actual, format!("{}\r\n\r\n", expected))
}

#[test]
fn test_get_ui_in_container_mode() {
    let mut request = Vec::new();
    Message::request_get("/ui").write(&mut request);
    let mut stream = Vec::new();
    controller(true).handle(&request, &mut stream, PAGE);
    let response = Message::read_from_buffer(&stream).unwrap();
    assert_eq!(response.start_line, "HTTP/1.1 200 OK");
    let text = String::from_utf8(stream).unwrap();
    assert!(text.contains("\r\nContent-Type: text/html; charset=utf-8\r\n"));
    let body = response.body.unwrap();
    assert!(body.contains("localhost:6565"));
    assert!(!body.contains("192.168.2.16:6565"));
    assert_eq!(body, PAGE.replace("192.168.2.16:6565", "localhost:6565"));
}

#[test]
fn test_get_ui_outside_a_container() {
    let mut stream = Vec::new();
    controller(false).handle(b"GET /ui HTTP/1.1\r\n\r\n", &mut stream, PAGE);
    let body = Message::read_from_buffer(&stream).unwrap().body.unwrap();
    assert_eq!(body, PAGE.replace("192.168.2.16:6565", "0.0.0.0:10101"));
}

#[test]
fn test_controller_routes_requests() {
    let id = Id::new("s1");
    let info = thermo("s1", "10.0.0.1", 8787, "_sensor");
    let (controller, _) = controller(false).step(&id, &info, &answer(&datum(25.0, 7)));

    let mut stream = Vec::new();
    controller.handle(b"GET /datum HTTP/1.1\r\n\r\n", &mut stream, PAGE);
    let mut expected = Vec::new();
    Controller::handle_get_datum(&mut expected, controller.get_data());
    assert_eq!(stream, expected);
    let body = Message::read_from_buffer(&stream).unwrap().body.unwrap();
    assert_eq!(body, format!(r#"[{{"id":"s1","datum":[{}]}}]"#, datum(25.0, 7).to_string()));

    let mut stream = Vec::new();
    controller.handle(b"GET /data HTTP/1.1\r\n\r\n", &mut stream, PAGE);
    let mut expected = Vec::new();
    Controller::handle_get_data(&mut expected, controller.get_data());
    assert_eq!(stream, expected);

    let mut stream = Vec::new();
    controller.handle(b"POST /command HTTP/1.1\r\n\r\n", &mut stream, PAGE);
    let expected = Message::respond_bad_request().with_body("cannot parse request: POST /command HTTP/1.1");
    assert_eq!(String::from_utf8(stream).unwrap(), expected.to_string());

    let mut stream = Vec::new();
    controller.handle(&[0xff], &mut stream, PAGE);
    let expected = Message::respond_bad_request().with_body("unable to read Message from stream");
    assert_eq!(String::from_utf8(stream).unwrap(), expected.to_string());
}

#[test]
fn test_controller_query() {
    assert_eq!(Controller::query().to_string(), "GET /datum HTTP/1.1\r\nContent-Type: text/json; charset=utf-8\r\n\r\n");
}

#[test]
fn test_step_sends_a_command_to_the_actuator_of_the_same_id() {
    let id = Id::new("s1");
    let sensor = thermo("s1", "10.0.0.1", 8787, "_sensor");
    let actuator = thermo("s1", "10.0.0.2", 9898, "_actuator");
    let other = thermo("s2", "10.0.0.3", 9899, "_actuator");
    let controller = controller(false).found_sensor(sensor.copy()).found_actuator(other).found_actuator(actuator);
    assert_eq!(controller.get_sensors().len(), 1);
    assert_eq!(controller.get_actuators().len(), 2);

    let (controller, dispatch) = controller.step(&id, &sensor, &answer(&datum(21.0, 1)));
    let dispatch = dispatch.unwrap();
    assert_eq!(dispatch.address, Address::new("10.0.0.2", 9898));
    let expected = Message::request_post("/command").with_body(r#"{"name":"HeatBy","value":"4"}"#);
    assert_eq!(dispatch.message, expected);

    let (controller, dispatch) = controller.step(&id, &sensor, &answer(&datum(30.5, 2)));
    let expected = Message::request_post("/command").with_body(r#"{"name":"CoolBy","value":"5.5"}"#);
    assert_eq!(dispatch.unwrap().message, expected);

    let (controller, dispatch) = controller.step(&id, &sensor, &answer(&datum(25.0, 3)));
    assert_eq!(dispatch, None);

    let data = controller.get_data();
    assert_eq!(data.len(), 1);
    assert_eq!(data.id(0), &id);
    assert_eq!(data.value(0).len(), 3);
    assert_eq!(data.value(0).get(0), &datum(25.0, 3));
    assert_eq!(data.value(0).get(1), &datum(30.5, 2));
    assert_eq!(data.value(0).get(2), &datum(21.0, 1));
}

#[test]
fn test_step_without_actuator_keeps_the_datum_and_sends_nothing() {
    let id = Id::new("s1");
    let sensor = thermo("s1", "10.0.0.1", 8787, "_sensor");
    let (controller, dispatch) = controller(false).step(&id, &sensor, &answer(&datum(40.0, 1)));
    assert_eq!(dispatch, None);
    assert_eq!(controller.get_data().value(0).newest(), Some(&datum(40.0, 1)));
}

#[test]
fn test_step_without_rule_keeps_the_datum_and_sends_nothing() {
    let id = Id::new("s1");
    let sensor = UnsupportedDevice::new("odd", "s1").get_service_info("10.0.0.1", 8787, "_sensor");
    let actuator = thermo("s1", "10.0.0.2", 9898, "_actuator");
    let controller = controller(false).found_actuator(actuator);
    let (controller, dispatch) = controller.step(&id, &sensor, &answer(&datum(40.0, 1)));
    assert_eq!(dispatch, None);
    assert_eq!(controller.get_data().value(0).len(), 1);

    // with a rule of its own the same device is answered
    let controller = controller.with_assessor(Id::new("s1"), Assessor::Thermo5000);
    assert_eq!(controller.get_assessors().get(&id), Some(&Assessor::Thermo5000));
    let (_, dispatch) = controller.step(&id, &sensor, &answer(&datum(40.0, 2)));
    let expected = Message::request_post("/command").with_body(r#"{"name":"CoolBy","value":"15"}"#);
    assert_eq!(dispatch.unwrap().message, expected);
}

#[test]
fn test_step_passes_over_what_is_no_datum() {
    let id = Id::new("s1");
    let sensor = thermo("s1", "10.0.0.1", 8787, "_sensor");
    for response in [
        Message::respond_ok(),
        Message::respond_ok().with_body("[]"),
        Message::respond_ok().with_body("[{\"value\":\"1.0\"}]"),
        Message::respond_bad_request().with_body("cannot parse request"),
    ] {
        let (controller, dispatch) = controller(false).step(&id, &sensor, &response);
        assert_eq!(dispatch, None);
        assert_eq!(controller.get_data().len(), 0);
    }
}

#[test]
fn test_step_asks_no_rule_about_what_is_no_temperature() {
    let id = Id::new("s1");
    let sensor = thermo("s1", "10.0.0.1", 8787, "_sensor");
    let actuator = thermo("s1", "10.0.0.2", 9898, "_actuator");
    let now = Timestamp::new(5, 0).unwrap();
    for datum in [
        Datum::new(Value::Int(40), Unit::DegreesC, now),
        Datum::new(Value::Bool(true), Unit::PoweredOn, now),
        Datum::new(Value::Float(number(40.0)), Unit::Unitless, now),
    ] {
        let controller = controller(false).found_actuator(actuator.copy());
        let (controller, dispatch) = controller.step(&id, &sensor, &answer(&datum));
        assert_eq!(dispatch, None);
        assert_eq!(controller.get_data().value(0).newest(), Some(&datum));
    }
}

#[test]
fn test_controller_keeps_the_five_hundred_newest_data_of_each_sensor() {
    let sensor = thermo("s1", "10.0.0.1", 8787, "_sensor");
    let mut controller = controller(false);
    for i in 0..520u32 {
        let id = if i % 2 == 0 { Id::new("even") } else { Id::new("odd") };
        let (next, _) = controller.step(&id, &sensor, &answer(&datum(25.0, i)));
        controller = next;
    }
    for i in 520..1300u32 {
        let (next, _) = controller.step(&Id::new("even"), &sensor, &answer(&datum(25.0, i)));
        controller = next;
    }
    let data = controller.get_data();
    assert_eq!(data.len(), 2);
    assert_eq!(data.id(0), &Id::new("even"));
    assert_eq!(data.id(1), &Id::new("odd"));
    assert_eq!(data.value(0).len(), 500);
    assert_eq!(data.value(0).bound(), 500);
    assert_eq!(data.value(1).len(), 260);
    assert_eq!(data.value(0).get(0), &datum(25.0, 1299));
    assert_eq!(data.value(0).get(499), &datum(25.0, 800));
    assert_eq!(data.value(1).get(0), &datum(25.0, 519));
    assert_eq!(data.value(1).get(259), &datum(25.0, 1));
}

#[test]
fn test_thermo5000() {
    let assessor = Assessor::default_for(Model::Thermo5000).unwrap();

    let too_cold = Datum::new(Value::Float(number(21.0)), Unit::DegreesC, Timestamp::now());

    let actual = assessor.assess(&too_cold).unwrap();
    let expected = Command::HeatBy(number(4.0));

    assert_eq!(actual.to_string(), expected.to_string());

    let too_hot = Datum::new(Value::Float(number(30.0)), Unit::DegreesC, Timestamp::now());
    let actual = assessor.assess(&too_hot).unwrap();
    let expected = Command::CoolBy(number(5.0));

    assert_eq!(actual.to_string(), expected.to_string());

    let just_right = Datum::new(Value::Float(number(25.0)), Unit::DegreesC, Timestamp::now());
    let actual = assessor.assess(&just_right);

    assert!(actual.is_none());
}

fn assess(text: &str) -> Option<Command> {
    let datum = Datum::new(Value::Float(Number::parse(text).unwrap()), Unit::DegreesC, Timestamp::now());
    assert!(Assessor::Thermo5000.takes(&datum));
    Assessor::Thermo5000.assess(&datum)
}

fn heat(text: &str) -> Option<Command> {
    Some(Command::HeatBy(Number::parse(text).unwrap()))
}

fn cool(text: &str) -> Option<Command> {
    Some(Command::CoolBy(Number::parse(text).unwrap()))
}

#[test]
fn test_the_band_in_which_nothing_is_called_for() {
    for text in ["22", "22.0", "22.000001", "25", "27.999999", "28", "28.0"] {
        assert_eq!(assess(text), None, "{}", text);
    }
    assert_eq!(assess("28.000001"), cool("3.000001"));
    assert_eq!(assess("21.999999"), heat("3.000001"));
    assert_eq!(assess("21.5"), heat("3.5"));
    assert_eq!(assess("0"), heat("25"));
    assert_eq!(assess("0.25"), heat("24.75"));
    assert_eq!(assess("0.001"), heat("24.999"));
    assert_eq!(assess("-0.5"), heat("25.5"));
    assert_eq!(assess("-273.15"), heat("298.15"));
    assert_eq!(assess("100"), cool("75"));
    assert_eq!(assess("1000000000000000000000000000000.125"), cool("999999999999999999999999999975.125"));
    assert_eq!(assess("30.1"), cool("5.1"));
}

#[test]
fn test_which_data_a_rule_can_be_asked_about() {
    let now = Timestamp::now();
    let rule = Assessor::Thermo5000;
    assert!(rule.takes(&Datum::new(Value::Float(number(1.0)), Unit::DegreesC, now)));
    assert!(!rule.takes(&Datum::new(Value::Float(number(1.0)), Unit::Unitless, now)));
    assert!(!rule.takes(&Datum::new(Value::Int(1), Unit::DegreesC, now)));
    assert!(!rule.takes(&Datum::new(Value::Bool(true), Unit::DegreesC, now)));
    let lowest = Number::parse("-340282366920938463463374607431768211430.5").unwrap();
    assert!(rule.takes(&Datum::new(Value::Float(lowest.clone()), Unit::DegreesC, now)));
    assert_eq!(
        rule.assess(&Datum::new(Value::Float(lowest), Unit::DegreesC, now)),
        heat("340282366920938463463374607431768211455.5")
    );
    // where the distance to the target passes the largest number, the amount is that number
    for text in ["-340282366920938463463374607431768211431", "-340282366920938463463374607431768211455.75"] {
        let far = Datum::new(Value::Float(Number::parse(text).unwrap()), Unit::DegreesC, now);
        assert!(rule.takes(&far));
        assert_eq!(rule.assess(&far), heat("340282366920938463463374607431768211455"));
    }
    let warm = Datum::new(Value::Float(Number::parse("340282366920938463463374607431768211455.75").unwrap()), Unit::DegreesC, now);
    assert_eq!(rule.assess(&warm), cool("340282366920938463463374607431768211430.75"));
}

#[test]
fn test_rules_of_the_models() {
    assert_eq!(Assessor::default_for(Model::Thermo5000), Some(Assessor::Thermo5000));
    assert_eq!(Assessor::default_for(Model::Controller), None);
    assert_eq!(Assessor::default_for(Model::Environment), None);
    assert_eq!(Assessor::default_for(Model::Unsupported), None);
}
