use devices::unit::Unit;

#[test]
fn test_display_and_parse_unitless() {
    let expected = Unit::Unitless;
    let serialized = expected.to_string();
    let actual = Unit::parse(&serialized);
    assert_eq!(actual, Ok(expected))
}

#[test]
fn test_display_and_parse_powered_on() {
    let expected = Unit::PoweredOn;
    let serialized = expected.to_string();
    let actual = Unit::parse(&serialized);
    assert_eq!(actual, Ok(expected))
}

#[test]
fn test_display_and_parse_degrees_c() {
    let expected = Unit::DegreesC;
    let serialized = expected.to_string();
    let actual = Unit::parse(&serialized);
    assert_eq!(actual, Ok(expected))
}

#[test]
fn unit_test_parse_string() {
    let serialized = String::from("⏼");
    let actual = Unit::parse(&serialized);
    assert_eq!(actual, Ok(Unit::PoweredOn))
}

#[test]
fn unit_test_parse_string_slice() {
    let serialized = "°C";
    let actual = Unit::parse(serialized);
    assert_eq!(actual, Ok(Unit::DegreesC))
}

#[test]
fn unit_test_parse_failure() {
    let serialized = "blorp";
    let actual = Unit::parse(serialized);
    let msg = String::from("cannot parse 'blorp' as a Unit");
    assert_eq!(actual, Err(msg))
}

#[test]
fn test_unit_glyphs() {
    assert_eq!(Unit::Unitless.to_string(), "");
    assert_eq!(Unit::PoweredOn.to_string(), "⏼");
    assert_eq!(Unit::DegreesC.to_string(), "°C");
}
