//! Unit conversion, payload parsing and unit tokens.

use climate_mqtt::errors::ClimateError;
use climate_mqtt::temperature::{TemperatureUnits, TemperatureValue};

fn parse(text: &str, units: TemperatureUnits) -> Result<TemperatureValue, ClimateError> {
    TemperatureValue::parse_with_scale(text, units)
}

fn assert_parse_error(text: &str) {
    match parse(text, TemperatureUnits::Celsius) {
        Err(ClimateError::Parse { text: t }) => assert_eq!(t, text),
        other => panic!("expected a parse error for {:?}, got {:?}", text, other),
    }
}

#[test]
fn round_trip_recovers_value() {
    // 21.5 C -> F -> C denotes the same rational with the original unit.
    let v = parse("21.5", TemperatureUnits::Celsius).unwrap();
    let f = v.as_unit(TemperatureUnits::Farenheit);
    let c = f.as_unit(TemperatureUnits::Celsius);
    assert_eq!(c.units, TemperatureUnits::Celsius);
    assert_eq!(c.num * v.den, v.num * c.den);

    // And starting from Fahrenheit.
    let w = parse("-13.75", TemperatureUnits::Farenheit).unwrap();
    let c2 = w.as_unit(TemperatureUnits::Celsius);
    let f2 = c2.as_unit(TemperatureUnits::Farenheit);
    assert_eq!(f2.units, TemperatureUnits::Farenheit);
    assert_eq!(f2.num * w.den, w.num * f2.den);
}

#[test]
fn celsius_to_farenheit_exact() {
    // 21.5 C = 70.7 F, exactly: (9*215 + 160*10) / (5*10) = 3535/50.
    let v = parse("21.5", TemperatureUnits::Celsius).unwrap();
    let f = v.as_unit(TemperatureUnits::Farenheit);
    assert_eq!(f.num, 3535);
    assert_eq!(f.den, 50);
    assert_eq!(f.units, TemperatureUnits::Farenheit);
}

#[test]
fn as_unit_same_unit_is_identity() {
    let v = TemperatureValue::new(25, TemperatureUnits::Celsius);
    let w = v.as_unit(TemperatureUnits::Celsius);
    assert_eq!(v, w);
}

#[test]
fn parse_plain_and_fractional() {
    let v = parse("21.5", TemperatureUnits::Celsius).unwrap();
    assert_eq!((v.num, v.den), (215, 10));
    assert_eq!(v.units, TemperatureUnits::Celsius);

    let w = parse("70", TemperatureUnits::Farenheit).unwrap();
    assert_eq!((w.num, w.den), (70, 1));
    assert_eq!(w.units, TemperatureUnits::Farenheit);
}

#[test]
fn parse_signed() {
    let v = parse("-40", TemperatureUnits::Celsius).unwrap();
    assert_eq!((v.num, v.den), (-40, 1));

    let w = parse("+3.25", TemperatureUnits::Celsius).unwrap();
    assert_eq!((w.num, w.den), (325, 100));

    let z = parse("-0.5", TemperatureUnits::Celsius).unwrap();
    assert_eq!((z.num, z.den), (-5, 10));
}

#[test]
fn parse_rejects_malformed_text() {
    assert_parse_error("abc");
    assert_parse_error("");
    assert_parse_error("1.");
    assert_parse_error(".5");
    assert_parse_error("--1");
    assert_parse_error("21.5.1");
    assert_parse_error("2e3");
    assert_parse_error("21,5");
    assert_parse_error(" 21");
    assert_parse_error("+");
}

#[test]
fn parse_rejects_oversized_decimal() {
    // 31 digits do not fit the exact representation.
    let long = "1234567890123456789012345678901";
    assert_parse_error(long);
    // 30 digits still do.
    let ok = "123456789012345678901234567890";
    assert!(parse(ok, TemperatureUnits::Celsius).is_ok());
}

#[test]
fn unit_tokens_parse_exactly() {
    assert_eq!(
        TemperatureUnits::from_token("Celsius").unwrap(),
        TemperatureUnits::Celsius
    );
    assert_eq!(
        TemperatureUnits::from_token("Farenheit").unwrap(),
        TemperatureUnits::Farenheit
    );
    match TemperatureUnits::from_token("Kelvin") {
        Err(ClimateError::Parse { text }) => assert_eq!(text, "Kelvin"),
        other => panic!("expected a parse error, got {:?}", other),
    }
    // Case-sensitive, and the standard spelling is not the wire token.
    assert!(TemperatureUnits::from_token("celsius").is_err());
    assert!(TemperatureUnits::from_token("Fahrenheit").is_err());
}

#[test]
fn unit_token_and_label_strings() {
    assert_eq!(TemperatureUnits::Celsius.token(), "Celsius");
    assert_eq!(TemperatureUnits::Farenheit.token(), "Farenheit");
    assert_eq!(TemperatureUnits::Celsius.unit_of_measurement(), "°C");
    assert_eq!(TemperatureUnits::Farenheit.unit_of_measurement(), "°F");
}

#[test]
fn floor_and_ceil_values() {
    let pos = TemperatureValue {
        num: 7,
        den: 2,
        units: TemperatureUnits::Celsius,
    };
    assert_eq!(pos.floor_value(), 3);
    assert_eq!(pos.ceil_value(), 4);

    let neg = TemperatureValue {
        num: -7,
        den: 2,
        units: TemperatureUnits::Celsius,
    };
    assert_eq!(neg.floor_value(), -4);
    assert_eq!(neg.ceil_value(), -3);

    let whole = TemperatureValue {
        num: 6,
        den: 2,
        units: TemperatureUnits::Celsius,
    };
    assert_eq!(whole.floor_value(), 3);
    assert_eq!(whole.ceil_value(), 3);
}
