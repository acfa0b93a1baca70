//! A vendor-supplied capability descriptor, modelled as a closed set of
//! tagged variants.
//!
//! Field lookup is by name; each field carries a type tag out of a closed
//! enumeration, so that any kind the translation layer does not handle is
//! an explicit case, never a silently substituted default.

use crate::strutil::str_eq;
use vstd::prelude::*;

verus! {

/// Inclusive raw range of an integer field.
#[derive(Debug, Clone, Copy, PartialEq, Eq, Structural)]
pub struct IntegerRange {
    pub min: i32,
    pub max: i32,
}

/// The default value a field may declare.
#[derive(Debug, Clone, PartialEq, Eq)]
pub enum DefaultValue {
    /// A textual default, such as a unit token.
    Text(String),
    /// A default of any other shape; only its presence is ever inspected.
    Other,
}

/// The closed set of field kinds a descriptor may use.
#[derive(Debug, Clone, PartialEq, Eq)]
pub enum DeviceParameters {
    /// An integer range with an optional unit tag.
    Integer { unit: Option<String>, range: IntegerRange },
    /// An enumeration of named options.
    Enum { options: Vec<String> },
    /// Every other kind.
    Unknown,
}

/// One named field of a capability descriptor.
#[derive(Debug, Clone, PartialEq, Eq)]
pub struct CapabilityField {
    pub field_name: String,
    pub field_type: DeviceParameters,
    pub default_value: Option<DefaultValue>,
}

/// A capability descriptor: an instance name and its fields, in the
/// order the vendor supplied them.  The descriptor is read-only input.
#[derive(Debug, Clone, PartialEq, Eq)]
pub struct DeviceCapability {
    pub instance: String,
    pub fields: Vec<CapabilityField>,
}

/// Mathematical model of an integer range.
pub struct RangeModel {
    pub min: int,
    pub max: int,
}

/// Mathematical model of a field default.
pub enum DefaultModel {
    Text(Seq<char>),
    Other,
}

/// Mathematical model of a field kind.
pub enum ParamModel {
    Integer { unit: Option<Seq<char>>, range: RangeModel },
    Enum { options: Seq<Seq<char>> },
    Unknown,
}

/// Mathematical model of a field.
pub struct FieldModel {
    pub name: Seq<char>,
    pub field_type: ParamModel,
    pub default_value: Option<DefaultModel>,
}

/// Mathematical model of a capability descriptor.
pub struct CapabilityModel {
    pub instance: Seq<char>,
    pub fields: Seq<FieldModel>,
}

impl View for IntegerRange {
    type V = RangeModel;

    open spec fn view(&self) -> RangeModel {
        RangeModel { min: self.min as int, max: self.max as int }
    }
}

impl View for DefaultValue {
    type V = DefaultModel;

    open spec fn view(&self) -> DefaultModel {
        match self {
            DefaultValue::Text(s) => DefaultModel::Text(s@),
            DefaultValue::Other => DefaultModel::Other,
        }
    }
}

impl View for DeviceParameters {
    type V = ParamModel;

    open spec fn view(&self) -> ParamModel {
        match self {
            DeviceParameters::Integer { unit, range } => ParamModel::Integer {
                unit: match unit {
                    Some(u) => Some(u@),
                    None => None,
                },
                range: range@,
            },
            DeviceParameters::Enum { options } => ParamModel::Enum {
                options: options@.map_values(|o: String| o@),
            },
            DeviceParameters::Unknown => ParamModel::Unknown,
        }
    }
}

impl View for CapabilityField {
    type V = FieldModel;

    open spec fn view(&self) -> FieldModel {
        FieldModel {
            name: self.field_name@,
            field_type: self.field_type@,
            default_value: match &self.default_value {
                Some(d) => Some(d@),
                None => None,
            },
        }
    }
}

impl View for DeviceCapability {
    type V = CapabilityModel;

    open spec fn view(&self) -> CapabilityModel {
        CapabilityModel {
            instance: self.instance@,
            fields: self.fields@.map_values(|f: CapabilityField| f@),
        }
    }
}

/// The first field carrying the given name, if any.
pub open spec fn spec_field_by_name(fields: Seq<FieldModel>, name: Seq<char>) -> Option<FieldModel>
    decreases fields.len(),
{
    if fields.len() == 0 {
        None
    } else if fields[0].name == name {
        Some(fields[0])
    } else {
        spec_field_by_name(fields.drop_first(), name)
    }
}

impl CapabilityModel {
    /// The first field carrying the given name, if any.
    pub open spec fn field(self, name: Seq<char>) -> Option<FieldModel> {
        spec_field_by_name(self.fields, name)
    }
}

impl DeviceCapability {
    /// Looks up the first field with the given name.
    pub fn struct_field_by_name(&self, name: &str) -> (r: Option<&CapabilityField>)
        ensures
            match r {
                Some(f) => self@.field(name@) == Some(f@),
                None => self@.field(name@) is None,
            },
    {
        let n = self.fields.len();
        let mut i: usize = 0;
        proof {
            assert(self@.fields.skip(0) =~= self@.fields);
        }
        while i < n
            invariant
                i <= n,
                n == self.fields@.len(),
                self@.fields.len() == n,
                spec_field_by_name(self@.fields, name@) == spec_field_by_name(
                    self@.fields.skip(i as int),
                    name@,
                ),
            decreases n - i,
        {
            proof {
                assert(self@.fields.skip(i as int)[0] == self@.fields[i as int]);
                assert(self@.fields[i as int] == self.fields@[i as int]@);
            }
            if str_eq(self.fields[i].field_name.as_str(), name) {
                return Some(&self.fields[i]);
            }
            proof {
                assert(self@.fields.skip(i as int).drop_first() =~= self@.fields.skip(i as int + 1));
            }
            i += 1;
        }
        proof {
            assert(self@.fields.skip(i as int) =~= Seq::<FieldModel>::empty());
        }
        None
    }
}

} // verus!
