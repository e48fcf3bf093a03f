use devices::kind::Kind;

#[test]
fn kind_test_display_and_parse_bool() {
    let expected = Kind::Bool;
    let serialized = expected.to_string();
    let actual = Kind::parse(&serialized);
    assert_eq!(actual, Ok(expected))
}

#[test]
fn test_display_and_parse_float() {
    let expected = Kind::Float;
    let serialized = expected.to_string();
    let actual = Kind::parse(&serialized);
    assert_eq!(actual, Ok(expected))
}

#[test]
fn kind_test_display_and_parse_int() {
    let expected = Kind::Int;
    let serialized = expected.to_string();
    let actual = Kind::parse(&serialized);
    assert_eq!(actual, Ok(expected))
}

#[test]
fn kind_test_parse_string() {
    let serialized = String::from("float");
    let kind = Kind::parse(&serialized);
    assert_eq!(Ok(Kind::Float), kind)
}

#[test]
fn kind_test_parse_string_slice() {
    let serialized = "int";
    let kind = Kind::parse(serialized);
    assert_eq!(Ok(Kind::Int), kind)
}

#[test]
fn kind_test_parse_failure() {
    let serialized = "blorp";
    let actual = Kind::parse(serialized);
    let msg = String::from("cannot parse DatumValueType from: blorp");
    assert_eq!(Err(msg), actual)
}

#[test]
fn test_kind_tokens() {
    assert_eq!(Kind::Bool.to_string(), "bool");
    assert_eq!(Kind::Float.to_string(), "float");
    assert_eq!(Kind::Int.to_string(), "int");
}
