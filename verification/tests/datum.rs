use devices::datum::Datum;
use devices::number::Number;
use devices::timestamp::Timestamp;
use devices::unit::Unit;
use devices::value::Value;

fn float(value: f32) -> Value {
    Value::Float(Number::parse(&value.to_string()).unwrap())
}

fn create<T: Into<Value>>(value: T) -> Datum {
    Datum::new(value.into(), Unit::Unitless, Timestamp::now())
}

#[test]
fn test_create_datum_get_as_bool() {
    let datum = create(true);
    assert_eq!(datum.get_as_bool(), Some(true));
}

#[test]
fn test_create_datum_get_as_bool_failure() {
    let datum = create(float(42.0));
    assert_eq!(datum.get_as_bool(), None);
}

#[test]
fn test_create_datum_get_as_float() {
    let datum = create(float(42.0));
    assert_eq!(datum.get_as_float(), Number::parse("42.0"));
}

#[test]
fn test_create_datum_get_as_float_failure() {
    let datum = create(true);
    assert_eq!(datum.get_as_float(), None);
}

#[test]
fn test_create_datum_get_as_int() {
    let datum = create(19);
    assert_eq!(datum.get_as_int(), Some(19));
}

#[test]
fn test_create_datum_get_as_int_failure() {
    let datum = create(true);
    assert_eq!(datum.get_as_int(), None);
}

#[test]
fn test_datum_parse_int() {
    let now = Timestamp::now();
    let expected = Datum::new(Value::Int(12), Unit::Unitless, now);
    let serialized = expected.to_string();
    let actual = Datum::parse(&serialized);
    assert_eq!(actual, Ok(expected))
}

#[test]
fn test_datum_parse_float() {
    let now = Timestamp::now();
    let expected = Datum::new(float(12.0), Unit::Unitless, now);
    let serialized = expected.to_string();
    let actual = Datum::parse(&serialized);
    assert_eq!(actual, Ok(expected))
}

#[test]
fn test_datum_parse_bool() {
    let now = Timestamp::now();
    let expected = Datum::new(Value::Bool(false), Unit::Unitless, now);
    let serialized = expected.to_string();
    let actual = Datum::parse(&serialized);
    assert_eq!(actual, Ok(expected))
}

#[test]
fn test_create_new_now() {
    let earlier = Timestamp::now();
    let mut datum = Datum::new_now(float(42.0), Unit::DegreesC);
    while !earlier.is_before(&datum.timestamp) {
        datum = Datum::new_now(float(42.0), Unit::DegreesC);
    }
    let mut later = Timestamp::now();
    while !datum.timestamp.is_before(&later) {
        later = Timestamp::now();
    }

    assert!(earlier.is_before(&datum.timestamp));
    assert!(datum.timestamp.is_before(&later));
}

#[test]
fn test_parse_failure_not_enough_pieces() {
    let serialized = r#"{"value":"42.0","unit":"°C"}"#;
    let actual = Datum::parse(serialized);
    let msg = format!("'{}' is not formatted like a serialized Datum", serialized);

    assert_eq!(actual, Err(msg))
}

#[test]
fn lib_test_parse_failure_bad_value() {
    let serialized =
        r#"{"value":"42P0","unit":"°C","timestamp":"2024-01-03T18:03:21.742821+00:00"}"#;
    let actual = Datum::parse(serialized);
    let msg = "cannot parse '42P0' as a Value".to_string();

    assert_eq!(actual, Err(msg))
}

#[test]
fn test_parse_failure_bad_unit() {
    let serialized =
        r#"{"value":"42.0","unit":"oC","timestamp":"2024-01-03T18:03:21.742821+00:00"}"#;
    let actual = Datum::parse(serialized);
    let msg = "cannot parse 'oC' as a Unit".to_string();

    assert_eq!(actual, Err(msg))
}

#[test]
fn test_parse_failure_bad_timestamp() {
    let serialized =
        r#"{"value":"42.0","unit":"°C","timestamp":"2_24-01-03T18:03:21.742821+00:00"}"#;
    let actual = Datum::parse(serialized);
    let msg = "input contains invalid characters".to_string();

    assert_eq!(actual, Err(msg))
}

#[test]
fn test_datum_in_writing() {
    let time = Timestamp::new(1704305001, 742821000).unwrap();
    let datum = Datum::new(float(42.0), Unit::DegreesC, time);
    assert_eq!(
        datum.to_string(),
        r#"{"value":"42.0","unit":"°C","timestamp":"2024-01-03T18:03:21.742821+00:00"}"#
    );
    let datum = Datum::new(Value::Bool(true), Unit::PoweredOn, Timestamp::new(0, 0).unwrap());
    assert_eq!(datum.to_string(), r#"{"value":"true","unit":"⏼","timestamp":"1970-01-01T00:00:00+00:00"}"#);
    let datum = Datum::new(Value::Int(-3), Unit::Unitless, Timestamp::new(1, 5).unwrap());
    assert_eq!(datum.to_string(), r#"{"value":"-3","unit":"","timestamp":"1970-01-01T00:00:01.000000005+00:00"}"#);
}

#[test]
fn test_datum_is_read_with_spaces_and_in_another_zone() {
    let serialized = "{ \"value\": \"42.5\", \"unit\": \"°C\",\n\t\"timestamp\": \"2024-01-03T19:03:21.742821+01:00\" }";
    let actual = Datum::parse(serialized).unwrap();
    assert_eq!(actual.value, float(42.5));
    assert_eq!(actual.unit, Unit::DegreesC);
    assert_eq!(actual.timestamp, Timestamp::new(1704305001, 742821000).unwrap());
}

#[test]
fn test_datum_first_bad_field_gives_the_error() {
    let serialized = r#"{"value":"x","unit":"y","timestamp":"z"}"#;
    assert_eq!(Datum::parse(serialized), Err("cannot parse 'x' as a Value".to_string()));
    let serialized = r#"{"value":"1","unit":"y","timestamp":"z"}"#;
    assert_eq!(Datum::parse(serialized), Err("cannot parse 'y' as a Unit".to_string()));
}

#[test]
fn test_datum_copy() {
    let datum = Datum::new_now(float(1.5), Unit::DegreesC);
    assert_eq!(datum.copy(), datum);
    assert_eq!(datum.clone(), datum);
}

#[test]
fn test_timestamp_limits() {
    assert!(Timestamp::new(0, 0).is_some());
    assert!(Timestamp::new(0, 2_000_000_000).is_none());
    assert!(Timestamp::new(59, 1_500_000_000).is_some());
    assert!(Timestamp::new(58, 1_500_000_000).is_none());
    assert!(Timestamp::new(i64::MAX, 0).is_none());
    let t = Timestamp::new(-1, 999_999_999).unwrap();
    assert_eq!(t.secs(), -1);
    assert_eq!(t.nanos(), 999_999_999);
    assert_eq!(t.to_rfc3339(), "1969-12-31T23:59:59.999999999+00:00");
    assert_eq!(Timestamp::parse("1969-12-31T23:59:59.999999999Z"), Ok(t));
    assert_eq!(Timestamp::parse("yesterday"), Err("input contains invalid characters".to_string()));
    assert_eq!(Timestamp::parse(""), Err("premature end of input".to_string()));
}
