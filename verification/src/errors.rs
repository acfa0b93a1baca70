//! Typed failures of the translation layer.
//!
//! Every failure carries the offending identifier (instance name, device
//! id, raw text) so that a caller can log a useful diagnostic.  No variant
//! is ever coerced into another and nothing is retried.

use vstd::prelude::*;

verus! {

/// What was wrong with the shape of a capability descriptor.
#[derive(Debug, Clone, Copy, PartialEq, Eq, Structural)]
pub enum SchemaIssue {
    /// The descriptor has no field named `"temperature"`.
    MissingTemperatureField,
    /// The `"temperature"` field is not of the integer-range-with-unit kind.
    UnexpectedTemperatureKind,
}

/// A typed failure of the capability parser, the unit converter, the
/// entity builder or the command router.
#[derive(Debug, Clone, PartialEq, Eq)]
pub enum ClimateError {
    /// The capability descriptor does not have the expected shape.
    Schema { instance: String, issue: SchemaIssue },
    /// A unit token or a payload could not be parsed; `text` is the
    /// offending input, verbatim.
    Parse { text: String },
    /// No device is registered under `device_id`.
    NotFound { device_id: String },
    /// The device/state collaborator failed; its report is passed through.
    Upstream { detail: String },
}

} // verus!
