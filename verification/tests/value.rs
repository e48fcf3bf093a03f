use devices::number::Number;
use devices::value::Value;

fn float(value: f32) -> Value {
    Value::Float(Number::parse(&value.to_string()).unwrap())
}

#[test]
fn value_test_display_and_parse_bool() {
    let expected = Value::Bool(true);
    let serialized = expected.to_string();
    let actual = Value::parse(&serialized);

    assert_eq!(actual, Ok(expected))
}

#[test]
fn test_display_and_parse_float_with_unnecessary_decimal_point() {
    let expected = float(42.0);
    let serialized = expected.to_string();
    let actual = Value::parse(&serialized);

    assert_eq!(actual, Ok(expected))
}

#[test]
fn test_display_and_parse_float_with_necessary_decimal_point() {
    let expected = float(42.1);
    let serialized = expected.to_string();
    let actual = Value::parse(&serialized);

    assert_eq!(actual, Ok(expected))
}

#[test]
fn test_display_and_parse_float_without_decimal_point() {
    let expected = float(42f32);
    let serialized = expected.to_string();
    let actual = Value::parse(&serialized);

    assert_eq!(actual, Ok(expected))
}

#[test]
fn value_test_display_and_parse_int() {
    let expected = Value::Int(42);
    let serialized = expected.to_string();
    let actual = Value::parse(&serialized);

    assert_eq!(actual, Ok(expected))
}

#[test]
fn value_test_parse_failure() {
    let serialized = "blorp";
    let actual = Value::parse(serialized);
    let msg = String::from("cannot parse 'blorp' as a Value");
    assert_eq!(actual, Err(msg))
}

#[test]
fn test_value_from_bool() {
    let raw = false;
    let value: Value = raw.into();
    assert_eq!(Value::Bool(false), value)
}

#[test]
fn test_value_from_float() {
    let raw = Number::parse("42.0").unwrap();
    let value: Value = raw.into();
    assert_eq!(float(42.0), value)
}

#[test]
fn test_value_from_int() {
    let raw = 42;
    let value: Value = raw.into();
    assert_eq!(Value::Int(42), value)
}

#[test]
fn test_value_in_writing() {
    assert_eq!(Value::Bool(true).to_string(), "true");
    assert_eq!(Value::Bool(false).to_string(), "false");
    assert_eq!(Value::Int(0).to_string(), "0");
    assert_eq!(Value::Int(-17).to_string(), "-17");
    assert_eq!(Value::Int(i32::MAX).to_string(), "2147483647");
    assert_eq!(Value::Int(i32::MIN).to_string(), "-2147483648");
    assert_eq!(float(42.0).to_string(), "42.0");
    assert_eq!(float(-0.5).to_string(), "-0.5");
}

#[test]
fn test_value_is_a_whole_number_before_it_is_a_fraction() {
    assert_eq!(Value::parse("12"), Ok(Value::Int(12)));
    assert_eq!(Value::parse("+12"), Ok(Value::Int(12)));
    assert_eq!(Value::parse("-0"), Ok(Value::Int(0)));
    assert_eq!(Value::parse("2147483647"), Ok(Value::Int(i32::MAX)));
    assert_eq!(Value::parse("-2147483648"), Ok(Value::Int(i32::MIN)));
    assert_eq!(Value::parse("2147483648").unwrap().to_string(), "2147483648.0");
    assert_eq!(Value::parse("-2147483649").unwrap().to_string(), "-2147483649.0");
    assert_eq!(Value::parse("12.0"), Ok(float(12.0)));
    assert_eq!(Value::parse("True"), Err(String::from("cannot parse 'True' as a Value")));
    assert_eq!(Value::parse(""), Err(String::from("cannot parse '' as a Value")));
}

#[test]
fn test_value_copy() {
    for value in [Value::Bool(true), Value::Int(-3), float(1.25)] {
        assert_eq!(value.copy(), value);
    }
}
