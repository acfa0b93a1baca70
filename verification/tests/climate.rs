//! Constraint parsing, topic-safe identifiers and entity building.

use climate_mqtt::capability::{
    CapabilityField, DefaultValue, DeviceCapability, DeviceParameters, IntegerRange,
};
use climate_mqtt::climate::{
    availability_topic, parse_temperature_constraints, DeviceIdentity, TargetTemperatureEntity,
};
use climate_mqtt::errors::{ClimateError, SchemaIssue};
use climate_mqtt::temperature::TemperatureUnits;
use climate_mqtt::topic::topic_safe_string;

fn temperature_field(unit: Option<&str>, min: i32, max: i32) -> CapabilityField {
    CapabilityField {
        field_name: "temperature".to_string(),
        field_type: DeviceParameters::Integer {
            unit: unit.map(|u| u.to_string()),
            range: IntegerRange { min, max },
        },
        default_value: None,
    }
}

fn unit_field(default: Option<DefaultValue>) -> CapabilityField {
    CapabilityField {
        field_name: "unit".to_string(),
        field_type: DeviceParameters::Unknown,
        default_value: default,
    }
}

fn capability(fields: Vec<CapabilityField>) -> DeviceCapability {
    DeviceCapability {
        instance: "targetTemperature".to_string(),
        fields,
    }
}

fn device() -> DeviceIdentity {
    DeviceIdentity {
        id: "AA:11".to_string(),
        name: "Heater".to_string(),
    }
}

#[test]
fn celsius_range_published_in_farenheit() {
    // No "unit" field: the declared unit defaults to Fahrenheit.  The
    // temperature field is tagged Celsius with range 0..30, so the parsed
    // constraints are exactly 32..86 Fahrenheit.
    let cap = capability(vec![temperature_field(Some("Celsius"), 0, 30)]);
    let c = parse_temperature_constraints(&cap).unwrap();
    assert_eq!(c.min.units, TemperatureUnits::Farenheit);
    assert_eq!(c.max.units, TemperatureUnits::Farenheit);
    assert_eq!(c.min.num, 32 * c.min.den);
    assert_eq!(c.max.num, 86 * c.max.den);

    let entity = TargetTemperatureEntity::new(&device(), TemperatureUnits::Farenheit, &cap)
        .unwrap();
    assert_eq!(entity.number.min, 32);
    assert_eq!(entity.number.max, 86);
    assert_eq!(entity.number.step, 1);
}

#[test]
fn missing_temperature_field_is_schema_error() {
    let cap = capability(vec![unit_field(None)]);
    match parse_temperature_constraints(&cap) {
        Err(ClimateError::Schema { instance, issue }) => {
            assert_eq!(instance, "targetTemperature");
            assert_eq!(issue, SchemaIssue::MissingTemperatureField);
        }
        other => panic!("expected a schema error, got {:?}", other),
    }
}

#[test]
fn non_range_temperature_field_is_schema_error() {
    let cap = capability(vec![CapabilityField {
        field_name: "temperature".to_string(),
        field_type: DeviceParameters::Enum {
            options: vec!["low".to_string(), "high".to_string()],
        },
        default_value: None,
    }]);
    match parse_temperature_constraints(&cap) {
        Err(ClimateError::Schema { instance, issue }) => {
            assert_eq!(instance, "targetTemperature");
            assert_eq!(issue, SchemaIssue::UnexpectedTemperatureKind);
        }
        other => panic!("expected a schema error, got {:?}", other),
    }
}

#[test]
fn declared_unit_celsius_is_kept() {
    let cap = capability(vec![
        unit_field(Some(DefaultValue::Text("Celsius".to_string()))),
        temperature_field(None, 0, 30),
    ]);
    let c = parse_temperature_constraints(&cap).unwrap();
    assert_eq!(c.min.units, TemperatureUnits::Celsius);
    assert_eq!(c.min.num, 0);
    assert_eq!(c.max.num, 30 * c.max.den);
}

#[test]
fn declared_unit_defaults_to_farenheit() {
    // The misspelled token, an unknown token, a non-textual default and
    // an absent default all declare Fahrenheit.
    for default in [
        Some(DefaultValue::Text("Farenheit".to_string())),
        Some(DefaultValue::Text("Kelvin".to_string())),
        Some(DefaultValue::Other),
        None,
    ] {
        let cap = capability(vec![unit_field(default), temperature_field(None, 10, 20)]);
        let c = parse_temperature_constraints(&cap).unwrap();
        assert_eq!(c.min.units, TemperatureUnits::Farenheit);
        assert_eq!(c.min.num, 10 * c.min.den);
        assert_eq!(c.max.num, 20 * c.max.den);
    }
}

#[test]
fn range_unit_attribute_overrides_declared_unit() {
    // Declared Celsius, raw range tagged Fahrenheit 32..86: parsed
    // constraints are 0..30 Celsius.
    let cap = capability(vec![
        unit_field(Some(DefaultValue::Text("Celsius".to_string()))),
        temperature_field(Some("Farenheit"), 32, 86),
    ]);
    let c = parse_temperature_constraints(&cap).unwrap();
    assert_eq!(c.min.units, TemperatureUnits::Celsius);
    assert_eq!(c.min.num, 0);
    assert_eq!(c.max.num, 30 * c.max.den);
}

#[test]
fn inverted_range_is_passed_through_unreordered() {
    let cap = capability(vec![temperature_field(None, 30, 10)]);
    let c = parse_temperature_constraints(&cap).unwrap();
    assert_eq!(c.min.num, 30 * c.min.den);
    assert_eq!(c.max.num, 10 * c.max.den);
}

#[test]
fn parsing_is_deterministic() {
    let cap = capability(vec![temperature_field(Some("Celsius"), 0, 30)]);
    let a = parse_temperature_constraints(&cap).unwrap();
    let b = parse_temperature_constraints(&cap).unwrap();
    assert_eq!(a, b);
}

#[test]
fn topic_safe_keeps_legal_characters() {
    assert_eq!(topic_safe_string("abc-XYZ-019"), "abc-XYZ-019");
}

#[test]
fn topic_safe_escapes_illegal_characters() {
    // ':' is U+003A, '_' itself is escaped as U+005F, '/' is U+002F.
    assert_eq!(topic_safe_string("AA:BB"), "AA_00003aBB");
    assert_eq!(topic_safe_string("_x"), "_00005fx");
    assert_eq!(topic_safe_string("a/b"), "a_00002fb");
}

#[test]
fn topic_safe_distinguishes_colliding_candidates() {
    // A plain one-for-one substitution would map both to "a_b".
    assert_ne!(topic_safe_string("a_b"), topic_safe_string("a:b"));
}

#[test]
fn entity_identifier_and_topics() {
    let cap = DeviceCapability {
        instance: "targetTemperature".to_string(),
        fields: vec![temperature_field(Some("Celsius"), 0, 30)],
    };
    let entity =
        TargetTemperatureEntity::new(&device(), TemperatureUnits::Celsius, &cap).unwrap();
    assert_eq!(entity.number.unique_id, "AA_00003a11-targetTemperature");
    assert_eq!(
        entity.number.command_topic,
        "gv2mqtt/AA_00003a11/set-temperature/targetTemperature/Celsius"
    );
    assert_eq!(entity.number.availability_topic, "gv2mqtt/availability");
    assert_eq!(entity.number.name.as_deref(), Some("Target Temperature"));
    assert_eq!(entity.number.device_id, "AA:11");
    assert_eq!(entity.number.device_class.as_deref(), Some("temperature"));
    assert_eq!(entity.number.icon.as_deref(), Some("mdi:thermometer"));
    assert_eq!(entity.number.state_topic, None);
    assert_eq!(entity.number.unit_of_measurement.as_deref(), Some("°C"));
    assert_eq!(entity.number.min, 0);
    assert_eq!(entity.number.max, 30);
}

#[test]
fn distinct_instances_get_distinct_identifiers() {
    let cap1 = DeviceCapability {
        instance: "targetTemperature".to_string(),
        fields: vec![temperature_field(None, 0, 30)],
    };
    let cap2 = DeviceCapability {
        instance: "target_Temperature".to_string(),
        fields: vec![temperature_field(None, 0, 30)],
    };
    let e1 = TargetTemperatureEntity::new(&device(), TemperatureUnits::Celsius, &cap1).unwrap();
    let e2 = TargetTemperatureEntity::new(&device(), TemperatureUnits::Celsius, &cap2).unwrap();
    assert_ne!(e1.number.unique_id, e2.number.unique_id);

    // The same pair yields the identical identifier on a repeated build.
    let e3 = TargetTemperatureEntity::new(&device(), TemperatureUnits::Celsius, &cap1).unwrap();
    assert_eq!(e1.number.unique_id, e3.number.unique_id);
}

#[test]
fn fractional_bounds_are_widened() {
    // 1..1 Celsius displayed in Fahrenheit is 33.8..33.8: published as
    // floor 33, ceil 34.
    let cap = capability(vec![temperature_field(Some("Celsius"), 1, 1)]);
    let entity = TargetTemperatureEntity::new(&device(), TemperatureUnits::Farenheit, &cap)
        .unwrap();
    assert_eq!(entity.number.min, 33);
    assert_eq!(entity.number.max, 34);
    assert_eq!(entity.number.unit_of_measurement.as_deref(), Some("°F"));
}

#[test]
fn entity_build_propagates_schema_error() {
    let cap = capability(vec![]);
    match TargetTemperatureEntity::new(&device(), TemperatureUnits::Celsius, &cap) {
        Err(ClimateError::Schema { instance, issue }) => {
            assert_eq!(instance, "targetTemperature");
            assert_eq!(issue, SchemaIssue::MissingTemperatureField);
        }
        other => panic!("expected a schema error, got {:?}", other),
    }
}

#[test]
fn notify_state_is_a_successful_no_op() {
    let cap = capability(vec![temperature_field(None, 0, 30)]);
    let entity =
        TargetTemperatureEntity::new(&device(), TemperatureUnits::Celsius, &cap).unwrap();
    assert!(entity.notify_state().is_ok());
}

#[test]
fn availability_topic_is_fixed() {
    assert_eq!(availability_topic(), "gv2mqtt/availability");
}

#[test]
fn field_lookup_finds_first_match() {
    let cap = capability(vec![
        unit_field(Some(DefaultValue::Text("Celsius".to_string()))),
        temperature_field(None, 0, 30),
    ]);
    let f = cap.struct_field_by_name("unit").unwrap();
    assert_eq!(f.field_name, "unit");
    assert!(cap.struct_field_by_name("humidity").is_none());
}
