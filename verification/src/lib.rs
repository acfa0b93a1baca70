//! Translation layer between vendor device-capability descriptors and a
//! unit-correct MQTT control entity for a home-automation platform.
//!
//! The pipeline: a capability descriptor is parsed into temperature
//! constraints, constraints are normalized to the display unit, and an
//! immutable entity description with deterministic topic and identifier
//! strings is built from them.  The inverse path decodes an inbound
//! command payload back into a typed temperature command.

pub mod capability;
pub mod climate;
pub mod errors;
pub mod router;
pub mod strutil;
pub mod temperature;
pub mod topic;
