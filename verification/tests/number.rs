use devices::number::Number;

#[test]
fn test_number_in_writing_has_a_point() {
    for text in ["0", "7", "-7", "+7", "42.0", "42.10", "007.5000", ".5", "5.", "-.25", "340282350000000000000000000000000000000"] {
        let n = Number::parse(text).unwrap();
        assert!(n.to_string().contains('.'), "{}", text);
    }
}

#[test]
fn test_number_has_one_form() {
    assert_eq!(Number::parse("42").unwrap().to_string(), "42.0");
    assert_eq!(Number::parse("+42.500").unwrap().to_string(), "42.5");
    assert_eq!(Number::parse("0042.05").unwrap().to_string(), "42.05");
    assert_eq!(Number::parse(".5").unwrap().to_string(), "0.5");
    assert_eq!(Number::parse("5.").unwrap().to_string(), "5.0");
    assert_eq!(Number::parse("-0.0").unwrap().to_string(), "0.0");
    assert_eq!(Number::parse("-0").unwrap(), Number::parse("0.000").unwrap());
    assert_eq!(Number::parse("-0.022500813").unwrap().to_string(), "-0.022500813");
}

#[test]
fn test_number_is_read_back_from_its_writing() {
    for text in ["0.0", "1.0", "-1.0", "19.3", "-0.022500813", "340282366920938463463374607431768211455.0", "0.000000000000000000000000000000000000000000001"] {
        let n = Number::parse(text).unwrap();
        assert_eq!(n.to_string(), text);
        assert_eq!(Number::parse(&n.to_string()), Some(n));
    }
}

#[test]
fn test_what_is_no_number() {
    for text in ["", ".", "+", "-", "+.", "inf", "NaN", "1.2.3", "1,5", " 1", "1 ", "--1", "0x10", ":(", "340282366920938463463374607431768211456", "1e", "e5", ".e5", "1e+", "1e+-5", "1ee5", "1e5e5", "1e5.0", "1e 5", "1e39", "3.5e38", "1e1001", "1e-1001"] {
        assert_eq!(Number::parse(text), None, "{}", text);
    }
}

#[test]
fn test_number_with_an_exponent() {
    for (text, written) in [
        ("1e5", "100000.0"),
        ("1E5", "100000.0"),
        ("1e+5", "100000.0"),
        ("1e0", "1.0"),
        ("1e-0", "1.0"),
        ("1.5e-3", "0.0015"),
        ("12.5e1", "125.0"),
        ("12.5e3", "12500.0"),
        ("12.345e2", "1234.5"),
        ("-2.5e0", "-2.5"),
        ("1e-2", "0.01"),
        ("120e-1", "12.0"),
        ("120e-3", "0.12"),
        ("120e-4", "0.012"),
        ("0e5", "0.0"),
        ("-0e5", "0.0"),
        ("-0.0e-5", "0.0"),
        (".5e1", "5.0"),
        ("1.e2", "100.0"),
        ("+7e1", "70.0"),
        ("3.4e38", "340000000000000000000000000000000000000.0"),
        ("340282366920938463463374607431768211455e0", "340282366920938463463374607431768211455.0"),
        ("0.00001e5", "1.0"),
        ("001e2", "100.0"),
    ] {
        let n = Number::parse(text).unwrap();
        assert_eq!(n.to_string(), written, "{}", text);
        assert_eq!(n.to_string().parse::<f32>().unwrap(), text.parse::<f32>().unwrap(), "{}", text);
    }
    let far = Number::parse("1e-1000").unwrap();
    assert_eq!(far.fraction_len(), 1000);
    assert_eq!(Number::parse("0e1000"), Number::parse("0"));
}

#[test]
fn test_number_from_parts() {
    assert_eq!(Number::new(false, 42, vec![1]).unwrap().to_string(), "42.1");
    assert_eq!(Number::new(true, 0, vec![0, 5]).unwrap().to_string(), "-0.05");
    assert_eq!(Number::new(false, 1, vec![]), None);
    assert_eq!(Number::new(false, 1, vec![10]), None);
    assert_eq!(Number::new(false, 1, vec![5, 0]), None);
    assert_eq!(Number::new(true, 0, vec![0]), None);
    assert!(Number::new(false, 0, vec![0]).is_some());
}

#[test]
fn test_number_parts() {
    let n = Number::parse("-12.345").unwrap();
    assert!(n.is_negative());
    assert_eq!(n.whole_part(), 12);
    assert_eq!(n.fraction_len(), 3);
    assert_eq!(n.fraction_digit(0), 3);
    assert_eq!(n.fraction_digit(2), 5);
    assert!(!n.is_whole());
    assert!(Number::of_whole(false, 3).is_whole());
    assert_eq!(Number::of_whole(true, 0).to_string(), "0.0");
    assert_eq!(Number::of_whole(true, 9).to_string(), "-9.0");
    assert!(n.same(&n.copy()));
    assert_eq!(n.clone(), n);
    assert!(!n.same(&Number::parse("12.345").unwrap()));
}

fn number(text: &str) -> Number {
    Number::parse(text).unwrap()
}

#[test]
fn test_sums() {
    for (a, b, sum) in [
        ("0.1", "0.2", "0.3"),
        ("0.5", "0.5", "1.0"),
        ("1.5", "-2.25", "-0.75"),
        ("-1.5", "2.25", "0.75"),
        ("-1.5", "-2.25", "-3.75"),
        ("2.25", "-2.25", "0.0"),
        ("999.999", "0.001", "1000.0"),
        ("1000", "-0.001", "999.999"),
        ("0.001", "-1000", "-999.999"),
        ("0", "0", "0.0"),
        ("-0.05", "0.05", "0.0"),
        ("340282366920938463463374607431768211455", "0.999", "340282366920938463463374607431768211455.999"),
        ("340282366920938463463374607431768211455.5", "-340282366920938463463374607431768211455.25", "0.25"),
        ("12345678901234567890.123456789", "0.000000000000000000001", "12345678901234567890.123456789000000000001"),
    ] {
        assert_eq!(number(a).sum(&number(b)), Some(number(sum)), "{} + {}", a, b);
        assert_eq!(number(b).sum(&number(a)), Some(number(sum)), "{} + {}", b, a);
        assert_eq!(number(a).plus(&number(b)), Some(number(sum)));
        assert_eq!(number(sum).minus(&number(b)), Some(number(a)), "{} - {}", sum, b);
    }
    assert_eq!(number("340282366920938463463374607431768211455").sum(&number("1")), None);
    assert_eq!(number("340282366920938463463374607431768211455.5").sum(&number("0.5")), None);
    assert_eq!(number("-340282366920938463463374607431768211455.5").sum(&number("-0.5")), None);
    assert_eq!(number("-340282366920938463463374607431768211455.5").minus(&number("0.5")), None);
}

#[test]
fn test_hundredth_parts_and_signs() {
    for (a, part) in [
        ("5", "0.05"),
        ("0", "0.0"),
        ("100", "1.0"),
        ("1234.5", "12.345"),
        ("-0.5", "-0.005"),
        ("340282366920938463463374607431768211455", "3402823669209384634633746074317682114.55"),
        ("90", "0.9"),
    ] {
        assert_eq!(number(a).hundredth(), number(part), "{}", a);
    }
    assert_eq!(number("1.5").negated(), number("-1.5"));
    assert_eq!(number("-1.5").negated(), number("1.5"));
    assert_eq!(number("0").negated(), number("0"));
    assert_eq!(number("20.5").shifted(&number("5"), true), Some(number("20.55")));
    assert_eq!(number("20.5").shifted(&number("5"), false), Some(number("20.45")));
    assert_eq!(number("340282366920938463463374607431768211455.99").shifted(&number("1"), true), None);
}

#[test]
fn test_numbers_against_whole_numbers() {
    assert!(number("28.000001").above(28));
    assert!(!number("28").above(28));
    assert!(!number("-29").above(28));
    assert!(number("21.999").below(22));
    assert!(!number("22").below(22));
    assert!(number("-0.1").below(0));
    assert!(!number("0").below(0));
    assert_eq!(number("30.5").less(25), number("5.5"));
    assert_eq!(number("21.25").taken_from(25), number("3.75"));
    assert_eq!(number("21").taken_from(25), number("4"));
    assert_eq!(number("-1.005").taken_from(25), number("26.005"));
}
