//! Decoding an inbound set-temperature command.
//!
//! An inbound message arrives as topic parameters (device id, instance
//! name, unit token) and a payload.  Decoding is a linear four-step
//! pipeline: the device must resolve, the unit token must parse, the
//! payload must parse as a decimal in that unit, and the typed command is
//! then forwarded to the device/state collaborator.  Resolution and
//! forwarding are the collaborator's work; this module decides, from the
//! resolution outcome and the raw strings, whether a command exists and
//! which one.

use crate::errors::ClimateError;
use crate::temperature::{conversion_bounded, decimal_den, decimal_fits, decimal_num,
    valid_decimal, RatTemp, TemperatureUnits, TemperatureValue};
use vstd::prelude::*;

verus! {

/// The topic parameters of an inbound set-temperature command.
#[derive(Debug, Clone, PartialEq, Eq)]
pub struct IdInstAndUnits {
    pub id: String,
    pub instance: String,
    pub units: String,
}

/// A decoded command: set the target temperature of one device instance.
/// Transient; produced per inbound message and not retained.
#[derive(Debug, Clone, PartialEq, Eq)]
pub struct Command {
    pub device_id: String,
    pub instance: String,
    pub value: TemperatureValue,
}

/// The unit a recognized wire token names.
pub open spec fn spec_units_of_token(t: Seq<char>) -> TemperatureUnits {
    if t == "Celsius"@ {
        TemperatureUnits::Celsius
    } else {
        TemperatureUnits::Farenheit
    }
}

/// A token the router accepts.
pub open spec fn known_unit_token(t: Seq<char>) -> bool {
    t == "Celsius"@ || t == "Farenheit"@
}

/// Decodes an inbound command.  `resolved` is the outcome of resolving
/// `params.id` with the device/state collaborator.  Exactly one of four
/// things happens: an unresolved device yields `NotFoundError` (so no
/// mutation is ever attempted for it), an unrecognized unit token yields
/// `ParseError` carrying the token, an unparsable payload yields
/// `ParseError` carrying the payload, and otherwise the typed command is
/// returned with the payload's exact value in the named unit.
pub fn decode_set_temperature(resolved: bool, params: &IdInstAndUnits, payload: &str) -> (r: Result<
    Command,
    ClimateError,
>)
    ensures
        !resolved ==> (r matches Err(e) && e matches ClimateError::NotFound { device_id }
            && device_id@ == params.id@),
        resolved && !known_unit_token(params.units@) ==> (r matches Err(e) && e matches
            ClimateError::Parse { text } && text@ == params.units@),
        resolved && known_unit_token(params.units@) && !(valid_decimal(payload@) && decimal_fits(
            payload@,
        )) ==> (r matches Err(e) && e matches ClimateError::Parse { text } && text@ == payload@),
        resolved && known_unit_token(params.units@) && valid_decimal(payload@) && decimal_fits(
            payload@,
        ) ==> (r matches Ok(cmd) && {
            &&& cmd.device_id@ == params.id@
            &&& cmd.instance@ == params.instance@
            &&& cmd.value@ == (RatTemp {
                num: decimal_num(payload@),
                den: decimal_den(payload@),
                units: spec_units_of_token(params.units@),
            })
            &&& cmd.value@.wf()
            &&& conversion_bounded(cmd.value@)
        }),
{
    if !resolved {
        return Err(ClimateError::NotFound { device_id: params.id.clone() });
    }
    let scale = match TemperatureUnits::from_token(params.units.as_str()) {
        Ok(u) => u,
        Err(e) => {
            return Err(e);
        },
    };
    let value = match TemperatureValue::parse_with_scale(payload, scale) {
        Ok(v) => v,
        Err(e) => {
            return Err(e);
        },
    };
    Ok(Command { device_id: params.id.clone(), instance: params.instance.clone(), value })
}

/// The last routing step: a failure reported by the collaborator's
/// target-temperature call is passed through as an `UpstreamError` with
/// its report, never retried; success is passed through as success.
pub fn map_upstream_result(res: Result<(), String>) -> (r: Result<(), ClimateError>)
    ensures
        res is Ok <==> r is Ok,
        res matches Err(d) ==> (r matches Err(e) && e matches ClimateError::Upstream { detail }
            && detail@ == d@),
{
    match res {
        Ok(()) => Ok(()),
        Err(detail) => Err(ClimateError::Upstream { detail }),
    }
}

} // verus!
