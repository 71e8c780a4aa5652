//! The abstract record descriptors that generation emits. A downstream
//! renderer turns each descriptor into a declaration of the target
//! language; nothing here depends on how that rendering looks.

use vstd::prelude::*;

verus! {

/// One emitted record: where it came from, its unique chosen name, and
/// its fields in order.
#[derive(Debug, PartialEq, Eq)]
pub struct GeneratedType {
    pub src: String,
    pub name: String,
    pub properties: Vec<GeneratedProperty>,
}

/// One field of an emitted record.
#[derive(Debug, PartialEq, Eq)]
pub struct GeneratedProperty {
    pub name: String,
    pub property_type: String,
    pub serde_options: SerdeOptions,
}

/// Decoder directives attached to a field: the original name when the
/// identifier had to change, and a skip marker for optional fields.
#[derive(Debug, PartialEq, Eq)]
pub struct SerdeOptions {
    pub rename: Option<String>,
    pub skip_serializing_if: Option<String>,
}

/// The mathematical shape of a [`GeneratedType`].
#[verifier::ext_equal]
pub struct GeneratedTypeV {
    pub src: Seq<char>,
    pub name: Seq<char>,
    pub properties: Seq<GeneratedPropertyV>,
}

/// The mathematical shape of a [`GeneratedProperty`].
#[verifier::ext_equal]
pub struct GeneratedPropertyV {
    pub name: Seq<char>,
    pub property_type: Seq<char>,
    pub rename: Option<Seq<char>>,
    pub skip_serializing_if: Option<Seq<char>>,
}

impl GeneratedProperty {
    /// The field as its mathematical shape.
    pub open spec fn dv(self) -> GeneratedPropertyV {
        GeneratedPropertyV {
            name: self.name@,
            property_type: self.property_type@,
            rename: match self.serde_options.rename {
                Some(s) => Some(s@),
                None => None,
            },
            skip_serializing_if: match self.serde_options.skip_serializing_if {
                Some(s) => Some(s@),
                None => None,
            },
        }
    }
}

/// View of a field list.
pub open spec fn gen_properties_v(a: Seq<GeneratedProperty>) -> Seq<GeneratedPropertyV> {
    Seq::new(
        a.len(),
        |i: int| if 0 <= i < a.len() {
            a[i].dv()
        } else {
            GeneratedPropertyV {
                name: Seq::empty(),
                property_type: Seq::empty(),
                rename: None,
                skip_serializing_if: None,
            }
        },
    )
}

impl GeneratedType {
    /// The record as its mathematical shape.
    pub open spec fn dv(self) -> GeneratedTypeV {
        GeneratedTypeV {
            src: self.src@,
            name: self.name@,
            properties: gen_properties_v(self.properties@),
        }
    }
}

} // verus!
