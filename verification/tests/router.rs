//! Decoding inbound set-temperature commands.

use climate_mqtt::errors::ClimateError;
use climate_mqtt::router::{decode_set_temperature, map_upstream_result, IdInstAndUnits};
use climate_mqtt::temperature::TemperatureUnits;

fn params(units: &str) -> IdInstAndUnits {
    IdInstAndUnits {
        id: "AA:11".to_string(),
        instance: "targetTemperature".to_string(),
        units: units.to_string(),
    }
}

#[test]
fn celsius_payload_decodes_to_exact_command() {
    let cmd = decode_set_temperature(true, &params("Celsius"), "21.5").unwrap();
    assert_eq!(cmd.device_id, "AA:11");
    assert_eq!(cmd.instance, "targetTemperature");
    assert_eq!(cmd.value.units, TemperatureUnits::Celsius);
    // 21.5, exactly, forwarded unchanged.
    assert_eq!((cmd.value.num, cmd.value.den), (215, 10));
}

#[test]
fn unresolved_device_yields_not_found() {
    match decode_set_temperature(false, &params("Celsius"), "21.5") {
        Err(ClimateError::NotFound { device_id }) => assert_eq!(device_id, "AA:11"),
        other => panic!("expected a not-found error, got {:?}", other),
    }
}

#[test]
fn unknown_unit_token_yields_parse_error() {
    match decode_set_temperature(true, &params("Kelvin"), "21.5") {
        Err(ClimateError::Parse { text }) => assert_eq!(text, "Kelvin"),
        other => panic!("expected a parse error, got {:?}", other),
    }
}

#[test]
fn malformed_payload_yields_parse_error() {
    match decode_set_temperature(true, &params("Celsius"), "abc") {
        Err(ClimateError::Parse { text }) => assert_eq!(text, "abc"),
        other => panic!("expected a parse error, got {:?}", other),
    }
}

#[test]
fn device_is_resolved_before_the_unit_token_is_read() {
    // With an unresolved device even a bad token reports NotFoundError.
    match decode_set_temperature(false, &params("Kelvin"), "abc") {
        Err(ClimateError::NotFound { device_id }) => assert_eq!(device_id, "AA:11"),
        other => panic!("expected a not-found error, got {:?}", other),
    }
}

#[test]
fn farenheit_token_is_accepted() {
    let cmd = decode_set_temperature(true, &params("Farenheit"), "-4").unwrap();
    assert_eq!(cmd.value.units, TemperatureUnits::Farenheit);
    assert_eq!((cmd.value.num, cmd.value.den), (-4, 1));
}

#[test]
fn upstream_failures_are_passed_through() {
    assert!(map_upstream_result(Ok(())).is_ok());
    match map_upstream_result(Err("device rejected the write".to_string())) {
        Err(ClimateError::Upstream { detail }) => {
            assert_eq!(detail, "device rejected the write");
        }
        other => panic!("expected an upstream error, got {:?}", other),
    }
}
