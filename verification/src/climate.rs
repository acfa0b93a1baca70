//! The target-temperature control entity: parsing the temperature
//! constraints out of a capability descriptor and building the immutable
//! entity description with deterministic identifier and topic strings.

use crate::capability::{CapabilityModel, DefaultModel, DefaultValue, DeviceCapability,
    DeviceParameters, ParamModel};
use crate::errors::{ClimateError, SchemaIssue};
use crate::strutil::{push_char, str_eq};
use crate::temperature::{conversion_bounded, rat_ceil, rat_floor, spec_as_unit, RatTemp,
    TemperatureUnits, TemperatureValue};
use crate::topic::{topic_safe, topic_safe_string};
use vstd::arithmetic::div_mod::{lemma_fundamental_div_mod, lemma_mod_bound};
use vstd::prelude::*;
use vstd::string::StringExecFns;

verus! {

/// The allowed temperature range of a device, both ends in one unit.
#[derive(Debug, Clone, Copy, PartialEq, Eq, Structural)]
pub struct TemperatureConstraints {
    pub min: TemperatureValue,
    pub max: TemperatureValue,
}

impl TemperatureConstraints {
    /// Both ends converted to `unit`; a pure function of the receiver.
    pub fn as_unit(&self, unit: TemperatureUnits) -> (r: Self)
        requires
            conversion_bounded(self.min@),
            conversion_bounded(self.max@),
        ensures
            r.min@ == spec_as_unit(self.min@, unit),
            r.max@ == spec_as_unit(self.max@, unit),
            r.min@.wf(),
            r.max@.wf(),
    {
        TemperatureConstraints { min: self.min.as_unit(unit), max: self.max.as_unit(unit) }
    }
}

/// Magnitudes that parsed constraints are guaranteed to stay within:
/// small enough that one further conversion keeps every intermediate
/// value far inside `i128`.
pub open spec fn constraint_bounded(r: RatTemp) -> bool {
    &&& -0x10000000000 <= r.num <= 0x10000000000
    &&& 0 < r.den <= 45
}

/// The unit the descriptor declares: Celsius exactly when an optional
/// field named "unit" is present with the textual default "Celsius";
/// everything else (any other text, a non-textual default, no default,
/// no such field) falls back to Fahrenheit.
pub open spec fn spec_declared_units(m: CapabilityModel) -> TemperatureUnits {
    match m.field("unit"@) {
        Some(f) => match f.default_value {
            Some(DefaultModel::Text(s)) => if s == "Celsius"@ {
                TemperatureUnits::Celsius
            } else {
                TemperatureUnits::Farenheit
            },
            _ => TemperatureUnits::Farenheit,
        },
        None => TemperatureUnits::Farenheit,
    }
}

/// The unit the raw min/max of the temperature field are expressed in:
/// the field's own unit attribute when it names a known unit, else the
/// declared unit.
pub open spec fn spec_range_units(unit: Option<Seq<char>>, declared: TemperatureUnits) -> TemperatureUnits {
    match unit {
        Some(u) => if u == "Celsius"@ {
            TemperatureUnits::Celsius
        } else if u == "Farenheit"@ {
            TemperatureUnits::Farenheit
        } else {
            declared
        },
        None => declared,
    }
}

/// What parsing a descriptor yields: the raw range read in its range
/// unit and converted to the declared unit (min then max, converted
/// independently and never reordered), or the schema issue.
pub open spec fn spec_parse_temperature_constraints(m: CapabilityModel) -> Result<
    (RatTemp, RatTemp),
    SchemaIssue,
> {
    let declared = spec_declared_units(m);
    match m.field("temperature"@) {
        None => Err(SchemaIssue::MissingTemperatureField),
        Some(f) => match f.field_type {
            ParamModel::Integer { unit, range } => {
                let ru = spec_range_units(unit, declared);
                Ok(
                    (
                        spec_as_unit(RatTemp { num: range.min, den: 1, units: ru }, declared),
                        spec_as_unit(RatTemp { num: range.max, den: 1, units: ru }, declared),
                    ),
                )
            },
            _ => Err(SchemaIssue::UnexpectedTemperatureKind),
        },
    }
}

/// The parser is a pure function of the capability descriptor: equal
/// descriptors always yield equal outcomes.
pub proof fn lemma_parse_constraints_pure(a: CapabilityModel, b: CapabilityModel)
    requires
        a == b,
    ensures
        spec_parse_temperature_constraints(a) == spec_parse_temperature_constraints(b),
{
}

/// Extracts and validates the temperature constraints of a capability
/// descriptor.  Fails with a `SchemaError` when the "temperature" field
/// is missing or is not of the integer-range kind; otherwise returns the
/// raw range converted to the declared unit, exactly as
/// `spec_parse_temperature_constraints` states, never reordering an
/// inverted range.
pub fn parse_temperature_constraints(instance: &DeviceCapability) -> (r: Result<
    TemperatureConstraints,
    ClimateError,
>)
    ensures
        match r {
            Ok(c) => {
                &&& spec_parse_temperature_constraints(instance@) matches Ok(pair)
                &&& c.min@ == pair.0
                &&& c.max@ == pair.1
                &&& c.min@.wf() && c.max@.wf()
                &&& constraint_bounded(c.min@) && constraint_bounded(c.max@)
                &&& conversion_bounded(c.min@) && conversion_bounded(c.max@)
            },
            Err(e) => {
                &&& spec_parse_temperature_constraints(instance@) matches Err(issue)
                &&& e matches ClimateError::Schema { instance: inst, issue: i2 }
                &&& inst@ == instance@.instance
                &&& i2 == issue
            },
        },
{
    let units = match instance.struct_field_by_name("unit") {
        Some(field) => match &field.default_value {
            Some(DefaultValue::Text(s)) => if str_eq(s.as_str(), "Celsius") {
                TemperatureUnits::Celsius
            } else {
                TemperatureUnits::Farenheit
            },
            _ => TemperatureUnits::Farenheit,
        },
        None => TemperatureUnits::Farenheit,
    };
    proof {
        assert(units == spec_declared_units(instance@));
    }

    let temperature = match instance.struct_field_by_name("temperature") {
        Some(f) => f,
        None => {
            return Err(
                ClimateError::Schema {
                    instance: instance.instance.clone(),
                    issue: SchemaIssue::MissingTemperatureField,
                },
            );
        },
    };
    match &temperature.field_type {
        DeviceParameters::Integer { unit, range } => {
            let range_units = match unit {
                Some(u) => if str_eq(u.as_str(), "Celsius") {
                    TemperatureUnits::Celsius
                } else if str_eq(u.as_str(), "Farenheit") {
                    TemperatureUnits::Farenheit
                } else {
                    units
                },
                None => units,
            };
            let min = TemperatureValue::new(range.min as i64, range_units);
            let max = TemperatureValue::new(range.max as i64, range_units);
            Ok(TemperatureConstraints { min: min.as_unit(units), max: max.as_unit(units) })
        },
        _ => {
            Err(
                ClimateError::Schema {
                    instance: instance.instance.clone(),
                    issue: SchemaIssue::UnexpectedTemperatureKind,
                },
            )
        },
    }
}

/// The identity of a device: its stable identifier and display name.
#[derive(Debug, Clone, PartialEq, Eq)]
pub struct DeviceIdentity {
    pub id: String,
    pub name: String,
}

/// The immutable description published for a numeric control entity.
#[derive(Debug, Clone, PartialEq, Eq)]
pub struct NumberConfig {
    pub availability_topic: String,
    pub name: Option<String>,
    pub device_id: String,
    pub unique_id: String,
    pub device_class: Option<String>,
    pub icon: Option<String>,
    pub state_topic: Option<String>,
    pub command_topic: String,
    pub min: i64,
    pub max: i64,
    pub step: i64,
    pub unit_of_measurement: Option<String>,
}

/// A target-temperature control entity, described by one number config.
#[derive(Debug, Clone, PartialEq, Eq)]
pub struct TargetTemperatureEntity {
    pub number: NumberConfig,
}

/// The stable unique identifier of the entity for one (device, instance)
/// pair: the topic-safe device id and the topic-safe instance name,
/// joined by '-'.
pub open spec fn spec_unique_id(device_id: Seq<char>, inst: Seq<char>) -> Seq<char> {
    topic_safe(device_id) + seq!['-'] + topic_safe(inst)
}

/// The command topic: a fixed prefix, the topic-safe device id, the
/// literal command name, the topic-safe instance name, and the unit
/// token the payload will arrive in.
pub open spec fn spec_command_topic(
    device_id: Seq<char>,
    inst: Seq<char>,
    units: TemperatureUnits,
) -> Seq<char> {
    "gv2mqtt/"@ + topic_safe(device_id) + "/set-temperature/"@ + topic_safe(inst) + "/"@
        + units.spec_token()
}

/// Unique-id law: on one device, two distinct instance names always get
/// distinct identifiers (and, `spec_unique_id` being a function, the
/// same pair always gets the same identifier).
pub proof fn lemma_unique_id_distinct(device_id: Seq<char>, i1: Seq<char>, i2: Seq<char>)
    requires
        i1 != i2,
    ensures
        spec_unique_id(device_id, i1) != spec_unique_id(device_id, i2),
{
    if spec_unique_id(device_id, i1) == spec_unique_id(device_id, i2) {
        let p = topic_safe(device_id) + seq!['-'];
        assert(spec_unique_id(device_id, i1) =~= p + topic_safe(i1));
        assert(spec_unique_id(device_id, i2) =~= p + topic_safe(i2));
        assert(topic_safe(i1) =~= (p + topic_safe(i1)).skip(p.len() as int));
        assert(topic_safe(i2) =~= (p + topic_safe(i2)).skip(p.len() as int));
        crate::topic::lemma_topic_safe_injective(i1, i2);
        assert(false);
    }
}

/// The topic on which availability is reported.
pub fn availability_topic() -> (r: String)
    ensures
        r@ == "gv2mqtt/availability"@,
{
    "gv2mqtt/availability".to_owned()
}

proof fn lemma_rat_floor_ceil_bounds(r: RatTemp)
    requires
        r.wf(),
    ensures
        r.num >= 0 ==> 0 <= rat_floor(r) <= r.num,
        r.num < 0 ==> r.num <= rat_floor(r) <= 0,
        rat_floor(r) <= rat_ceil(r) <= rat_floor(r) + 1,
{
    let q = r.num / r.den;
    let rem = r.num % r.den;
    lemma_fundamental_div_mod(r.num, r.den);
    lemma_mod_bound(r.num, r.den);
    assert((r.num >= 0 ==> 0 <= q <= r.num) && (r.num < 0 ==> r.num <= q <= 0))
        by (nonlinear_arith)
        requires
            r.num == r.den * q + rem,
            0 <= rem < r.den,
            r.den >= 1,
    ;
}

impl TargetTemperatureEntity {
    /// Builds the entity description for one device and capability, with
    /// the display-unit preference taken as an explicit snapshot value:
    /// no later preference change affects an already-built entity.
    /// Constraint-parsing failures are propagated unchanged.  The
    /// published integer range is the floor of the normalized minimum
    /// and the ceiling of the normalized maximum, so the published range
    /// never excludes a valid point of the device's true range.
    pub fn new(device: &DeviceIdentity, units: TemperatureUnits, instance: &DeviceCapability) -> (r:
        Result<Self, ClimateError>)
        ensures
            match r {
                Ok(entity) => {
                    &&& spec_parse_temperature_constraints(instance@) matches Ok(pair)
                    &&& entity.number.unique_id@ == spec_unique_id(
                        device.id@,
                        instance@.instance,
                    )
                    &&& entity.number.command_topic@ == spec_command_topic(
                        device.id@,
                        instance@.instance,
                        units,
                    )
                    &&& entity.number.availability_topic@ == "gv2mqtt/availability"@
                    &&& entity.number.name matches Some(nm) && nm@ == "Target Temperature"@
                    &&& entity.number.device_id@ == device.id@
                    &&& entity.number.device_class matches Some(dc) && dc@ == "temperature"@
                    &&& entity.number.icon matches Some(ic) && ic@ == "mdi:thermometer"@
                    &&& entity.number.state_topic is None
                    &&& entity.number.min as int == rat_floor(spec_as_unit(pair.0, units))
                    &&& entity.number.max as int == rat_ceil(spec_as_unit(pair.1, units))
                    &&& entity.number.step == 1i64
                    &&& entity.number.unit_of_measurement matches Some(u) && u@
                        == units.spec_unit_label()
                },
                Err(e) => {
                    &&& spec_parse_temperature_constraints(instance@) matches Err(issue)
                    &&& e matches ClimateError::Schema { instance: inst, issue: i2 }
                    &&& inst@ == instance@.instance
                    &&& i2 == issue
                },
            },
    {
        let parsed = match parse_temperature_constraints(instance) {
            Ok(c) => c,
            Err(e) => {
                return Err(e);
            },
        };
        let constraints = parsed.as_unit(units);
        proof {
            lemma_rat_floor_ceil_bounds(constraints.min@);
            lemma_rat_floor_ceil_bounds(constraints.max@);
        }
        let min = constraints.min.floor_value();
        let max = constraints.max.ceil_value();

        let ts_id = topic_safe_string(device.id.as_str());
        let ts_inst = topic_safe_string(instance.instance.as_str());

        let mut unique_id = ts_id.clone();
        push_char(&mut unique_id, '-');
        unique_id.append(ts_inst.as_str());
        proof {
            assert(unique_id@ =~= spec_unique_id(device.id@, instance@.instance));
        }

        let mut command_topic = "gv2mqtt/".to_owned();
        command_topic.append(ts_id.as_str());
        command_topic.append("/set-temperature/");
        command_topic.append(ts_inst.as_str());
        command_topic.append("/");
        command_topic.append(units.token());
        proof {
            assert(command_topic@ =~= spec_command_topic(device.id@, instance@.instance, units));
        }

        Ok(
            TargetTemperatureEntity {
                number: NumberConfig {
                    availability_topic: availability_topic(),
                    name: Some("Target Temperature".to_owned()),
                    device_id: device.id.clone(),
                    unique_id,
                    device_class: Some("temperature".to_owned()),
                    icon: Some("mdi:thermometer".to_owned()),
                    state_topic: None,
                    command_topic,
                    min: min as i64,
                    max: max as i64,
                    step: 1,
                    unit_of_measurement: Some(units.unit_of_measurement().to_owned()),
                },
            },
        )
    }

    /// This entity kind has no observable runtime state: notifying state
    /// is a no-op that always succeeds.
    pub fn notify_state(&self) -> (r: Result<(), ClimateError>)
        ensures
            r is Ok,
    {
        Ok(())
    }
}

} // verus!
