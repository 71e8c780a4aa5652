//! The intermediate representation: a compact sum type for parsed schemas,
//! built from the decoded keyword form.
//!
//! Every subschema carries a `src`: a stable identifier built from the file
//! path and the place of the subschema inside it. The `src` is the primary
//! key of an object across the whole generation.

use vstd::prelude::*;
use crate::schema::{Schema, SchemaV, Types, schema_pairs_v};
use crate::json::Json;
use crate::error::GenError;
use vstd::string::StringExecFns;
use crate::text::{str_concat, dec_str, u128_to_string};

verus! {

/// One parsed schema file.
#[derive(Debug, PartialEq)]
pub struct Root {
    pub file: String,
    pub data_type: Box<DataType>,
    pub definitions: Vec<(String, DataType)>,
}

/// A parsed schema node.
#[derive(Debug, PartialEq)]
pub enum DataType {
    PrimitiveType(PrimitiveType),
    Array(Box<DataType>),
    Object(Object),
    Mapping(Box<DataType>),
    Ref(Ref),
    OneOf(OneOf),
    AnyOf(AnyOf),
    AllOf(AllOf),
    Any,
}

/// Kinds of primitive leaves.
#[derive(Debug, PartialEq, Eq, Clone, Copy)]
pub enum PrimitiveType {
    Null,
    Boolean,
    Integer,
    Number,
    String,
}

/// A structural record: where it was defined, what it wants to be called,
/// and its properties in schema order.
#[derive(Debug, PartialEq)]
pub struct Object {
    pub src: String,
    pub name: String,
    pub properties: Vec<ObjectProperty>,
}

/// One property of an [`Object`].
#[derive(Debug, PartialEq)]
pub struct ObjectProperty {
    pub name: String,
    pub required: bool,
    pub data_type: Box<DataType>,
}

/// An unresolved reference, kept lazy until generation.
#[derive(Debug, PartialEq)]
pub struct Ref {
    pub ref_path: String,
}

/// Alternatives of a `oneOf` composition.
#[derive(Debug, PartialEq)]
pub struct OneOf {
    pub types: Vec<DataType>,
}

/// Alternatives of an `anyOf` composition.
#[derive(Debug, PartialEq)]
pub struct AnyOf {
    pub types: Vec<DataType>,
}

/// Parts of an `allOf` composition.
#[derive(Debug, PartialEq)]
pub struct AllOf {
    pub types: Vec<DataType>,
}

/// The mathematical shape of a [`DataType`].
#[verifier::ext_equal]
pub enum DataTypeV {
    Primitive(PrimitiveType),
    Array(Box<DataTypeV>),
    Object(ObjectV),
    Mapping(Box<DataTypeV>),
    Ref(Seq<char>),
    OneOf(Seq<DataTypeV>),
    AnyOf(Seq<DataTypeV>),
    AllOf(Seq<DataTypeV>),
    Any,
}

/// The mathematical shape of an [`Object`].
#[verifier::ext_equal]
pub struct ObjectV {
    pub src: Seq<char>,
    pub name: Seq<char>,
    pub properties: Seq<PropertyV>,
}

/// The mathematical shape of an [`ObjectProperty`].
#[verifier::ext_equal]
pub struct PropertyV {
    pub name: Seq<char>,
    pub required: bool,
    pub data_type: DataTypeV,
}

/// The mathematical shape of a [`Root`].
#[verifier::ext_equal]
pub struct RootV {
    pub file: Seq<char>,
    pub data_type: DataTypeV,
    pub definitions: Seq<(Seq<char>, DataTypeV)>,
}

/// View of a list of schema nodes.
pub open spec fn data_types_v(a: Seq<DataType>) -> Seq<DataTypeV>
    decreases a,
{
    Seq::new(
        a.len(),
        |i: int| if 0 <= i < a.len() {
            a[i].dv()
        } else {
            DataTypeV::Any
        },
    )
}

/// View of a property list.
pub open spec fn properties_v(a: Seq<ObjectProperty>) -> Seq<PropertyV>
    decreases a,
{
    Seq::new(
        a.len(),
        |i: int| if 0 <= i < a.len() {
            a[i].dv()
        } else {
            PropertyV { name: Seq::empty(), required: false, data_type: DataTypeV::Any }
        },
    )
}

/// View of a definition list.
pub open spec fn definitions_v(a: Seq<(String, DataType)>) -> Seq<(Seq<char>, DataTypeV)>
    decreases a,
{
    Seq::new(
        a.len(),
        |i: int| if 0 <= i < a.len() {
            (a[i].0@, a[i].1.dv())
        } else {
            (Seq::empty(), DataTypeV::Any)
        },
    )
}

impl DataType {
    /// The node as its mathematical shape.
    pub open spec fn dv(self) -> DataTypeV
        decreases self,
    {
        match self {
            DataType::PrimitiveType(p) => DataTypeV::Primitive(p),
            DataType::Array(t) => DataTypeV::Array(Box::new((*t).dv())),
            DataType::Object(o) => DataTypeV::Object(o.dv()),
            DataType::Mapping(t) => DataTypeV::Mapping(Box::new((*t).dv())),
            DataType::Ref(r) => DataTypeV::Ref(r.ref_path@),
            DataType::OneOf(o) => DataTypeV::OneOf(data_types_v(o.types@)),
            DataType::AnyOf(o) => DataTypeV::AnyOf(data_types_v(o.types@)),
            DataType::AllOf(o) => DataTypeV::AllOf(data_types_v(o.types@)),
            DataType::Any => DataTypeV::Any,
        }
    }
}

impl Object {
    /// The object as its mathematical shape.
    pub open spec fn dv(self) -> ObjectV
        decreases self,
    {
        ObjectV { src: self.src@, name: self.name@, properties: properties_v(self.properties@) }
    }
}

impl ObjectProperty {
    /// The property as its mathematical shape.
    pub open spec fn dv(self) -> PropertyV
        decreases self,
    {
        PropertyV { name: self.name@, required: self.required, data_type: (*self.data_type).dv() }
    }
}

impl Root {
    /// The root as its mathematical shape.
    pub open spec fn dv(self) -> RootV {
        RootV {
            file: self.file@,
            data_type: (*self.data_type).dv(),
            definitions: definitions_v(self.definitions@),
        }
    }
}

impl Clone for DataType {
    /// A clone is the same value, seen through `dv`.
    fn clone(&self) -> (r: Self)
        ensures
            r.dv() == self.dv(),
        decreases *self, 1int,
    {
        match self {
            DataType::PrimitiveType(p) => DataType::PrimitiveType(*p),
            DataType::Array(t) => {
                proof {
                    assert(decreases_to!(*self => self->Array_0));
                }
                DataType::Array(Box::new((**t).clone()))
            },
            DataType::Object(o) => {
                proof {
                    assert(decreases_to!(*self => self->Object_0));
                    assert(decreases_to!(self->Object_0 => self->Object_0.properties));
                }
                let props = clone_properties(self, &o.properties);
                let r = DataType::Object(
                    Object { src: o.src.clone(), name: o.name.clone(), properties: props },
                );
                proof {
                    let ro = r->Object_0;
                    assert(self.dv() == DataTypeV::Object(o.dv()));
                    assert(r.dv() == DataTypeV::Object(ro.dv()));
                    assert(ro.dv().src == o.dv().src);
                    assert(ro.dv().name == o.dv().name);
                    assert(ro.dv().properties == o.dv().properties);
                    assert(ro.dv() =~= o.dv());
                }
                r
            },
            DataType::Mapping(t) => {
                proof {
                    assert(decreases_to!(*self => self->Mapping_0));
                }
                DataType::Mapping(Box::new((**t).clone()))
            },
            DataType::Ref(r) => DataType::Ref(Ref { ref_path: r.ref_path.clone() }),
            DataType::OneOf(o) => {
                proof {
                    assert(decreases_to!(*self => self->OneOf_0));
                    assert(decreases_to!(self->OneOf_0 => self->OneOf_0.types));
                }
                let ts = clone_data_types(self, &o.types);
                let r = DataType::OneOf(OneOf { types: ts });
                proof {
                    assert(r.dv()->OneOf_0 =~= self.dv()->OneOf_0);
                }
                r
            },
            DataType::AnyOf(o) => {
                proof {
                    assert(decreases_to!(*self => self->AnyOf_0));
                    assert(decreases_to!(self->AnyOf_0 => self->AnyOf_0.types));
                }
                let ts = clone_data_types(self, &o.types);
                let r = DataType::AnyOf(AnyOf { types: ts });
                proof {
                    assert(r.dv()->AnyOf_0 =~= self.dv()->AnyOf_0);
                }
                r
            },
            DataType::AllOf(o) => {
                proof {
                    assert(decreases_to!(*self => self->AllOf_0));
                    assert(decreases_to!(self->AllOf_0 => self->AllOf_0.types));
                }
                let ts = clone_data_types(self, &o.types);
                let r = DataType::AllOf(AllOf { types: ts });
                proof {
                    assert(r.dv()->AllOf_0 =~= self.dv()->AllOf_0);
                }
                r
            },
            DataType::Any => DataType::Any,
        }
    }
}

/// Copy of the alternatives list of a composition node `whole`.
fn clone_data_types(whole: &DataType, ts: &Vec<DataType>) -> (r: Vec<DataType>)
    requires
        decreases_to!(*whole => *ts),
    ensures
        data_types_v(r@) == data_types_v(ts@),
    decreases *whole, 0int,
{
    let mut out: Vec<DataType> = Vec::new();
    let mut i: usize = 0;
    while i < ts.len()
        invariant
            0 <= i <= ts@.len(),
            out@.len() == i,
            decreases_to!(*whole => *ts),
            forall|j: int| 0 <= j < i ==> #[trigger] out@[j].dv() == ts@[j].dv(),
        decreases ts@.len() - i,
    {
        proof {
            assert(decreases_to!(*ts => ts@));
            assert(decreases_to!(ts@ => ts@[i as int]));
        }
        out.push(ts[i].clone());
        i = i + 1;
    }
    proof {
        assert(out@.len() == ts@.len());
        assert forall|j: int| 0 <= j < ts@.len() implies data_types_v(out@)[j] == data_types_v(
            ts@,
        )[j] by {
            assert(out@[j].dv() == ts@[j].dv());
        }
        assert(data_types_v(out@) =~= data_types_v(ts@));
    }
    out
}

/// Copy of the property list of an object node `whole`.
fn clone_properties(whole: &DataType, ps: &Vec<ObjectProperty>) -> (r: Vec<ObjectProperty>)
    requires
        decreases_to!(*whole => *ps),
    ensures
        properties_v(r@) == properties_v(ps@),
    decreases *whole, 0int,
{
    let mut out: Vec<ObjectProperty> = Vec::new();
    let mut i: usize = 0;
    while i < ps.len()
        invariant
            0 <= i <= ps@.len(),
            out@.len() == i,
            decreases_to!(*whole => *ps),
            forall|j: int| 0 <= j < i ==> #[trigger] out@[j].dv() == ps@[j].dv(),
        decreases ps@.len() - i,
    {
        proof {
            assert(decreases_to!(*ps => ps@));
            assert(decreases_to!(ps@ => ps@[i as int]));
            assert(decreases_to!(ps@[i as int] => ps@[i as int].data_type));
        }
        let p = &ps[i];
        out.push(
            ObjectProperty {
                name: p.name.clone(),
                required: p.required,
                data_type: Box::new((*p.data_type).clone()),
            },
        );
        i = i + 1;
    }
    proof {
        assert(out@.len() == ps@.len());
        assert forall|j: int| 0 <= j < ps@.len() implies properties_v(out@)[j] == properties_v(
            ps@,
        )[j] by {
            assert(out@[j].dv() == ps@[j].dv());
        }
        assert(properties_v(out@) =~= properties_v(ps@));
    }
    out
}

impl Clone for Root {
    /// A clone is the same value, seen through `dv`.
    fn clone(&self) -> (r: Self)
        ensures
            r.dv() == self.dv(),
    {
        let mut defs: Vec<(String, DataType)> = Vec::new();
        let mut i: usize = 0;
        while i < self.definitions.len()
            invariant
                0 <= i <= self.definitions@.len(),
                defs@.len() == i,
                forall|j: int| 0 <= j < i ==> (#[trigger] defs@[j]).0@ == self.definitions@[j].0@
                    && defs@[j].1.dv() == self.definitions@[j].1.dv(),
            decreases self.definitions@.len() - i,
        {
            let pair = &self.definitions[i];
            defs.push((pair.0.clone(), pair.1.clone()));
            i = i + 1;
        }
        let r = Root {
            file: self.file.clone(),
            data_type: Box::new((*self.data_type).clone()),
            definitions: defs,
        };
        proof {
            assert(r.dv().definitions =~= self.dv().definitions);
            assert(r.dv() =~~= self.dv());
        }
        r
    }
}


/// Whether `name` occurs in a required-property list.
pub open spec fn required_contains(req: Seq<Seq<char>>, name: Seq<char>) -> bool {
    exists|i: int| 0 <= i < req.len() && req[i] == name
}

/// The desired name of an object: its own `title`, else the composition
/// parent's `title`, else the property name it hangs under, else "Unknown".
pub open spec fn spec_object_name(
    schema: SchemaV,
    parent: Option<SchemaV>,
    property_name: Option<Seq<char>>,
) -> Seq<char> {
    match schema.title {
        Some(t) => t,
        None => match parent {
            Some(p) => match p.title {
                Some(t) => t,
                None => match property_name {
                    Some(n) => n,
                    None => "Unknown"@,
                },
            },
            None => match property_name {
                Some(n) => n,
                None => "Unknown"@,
            },
        },
    }
}

/// The names that count as required: the object's own `required` list,
/// extended by the composition parent's.
pub open spec fn spec_required_names(schema: SchemaV, parent: Option<SchemaV>) -> Seq<Seq<char>> {
    let own = match schema.required {
        Some(r) => r,
        None => Seq::empty(),
    };
    match parent {
        Some(p) => match p.required {
            Some(r) => own + r,
            None => own,
        },
        None => own,
    }
}

/// One decoded schema as an IR node, first match wins:
/// a reference beats everything, then the compositions, then `type`.
pub open spec fn spec_parse_type(
    src: Seq<char>,
    schema: SchemaV,
    parent: Option<SchemaV>,
    property_name: Option<Seq<char>>,
) -> DataTypeV
    decreases schema, 1int,
{
    match schema.ref_ {
        Some(rp) => DataTypeV::Ref(rp),
        None => if schema.one_of.len() > 0 {
            DataTypeV::OneOf(spec_parse_alternatives(src + "/oneOf/"@, schema, schema.one_of))
        } else if schema.any_of.len() > 0 {
            DataTypeV::AnyOf(spec_parse_alternatives(src + "/anyOf/"@, schema, schema.any_of))
        } else if schema.all_of.len() > 0 {
            DataTypeV::AllOf(spec_parse_alternatives(src + "/allOf/"@, schema, schema.all_of))
        } else {
            match schema.type_ {
                Some(t) => match t {
                    Types::Null => DataTypeV::Primitive(PrimitiveType::Null),
                    Types::Boolean => DataTypeV::Primitive(PrimitiveType::Boolean),
                    Types::Integer => DataTypeV::Primitive(PrimitiveType::Integer),
                    Types::Number => DataTypeV::Primitive(PrimitiveType::Number),
                    Types::String => DataTypeV::Primitive(PrimitiveType::String),
                    Types::Array => spec_parse_array(src, schema),
                    Types::Object => if schema.pattern_properties.len() > 0 {
                        DataTypeV::Mapping(
                            Box::new(
                                spec_parse_type(
                                    src + "/patternProperties"@,
                                    schema.pattern_properties[0].1,
                                    None,
                                    None,
                                ),
                            ),
                        )
                    } else if schema.properties.len() > 0 {
                        spec_parse_object(src, schema, parent, property_name)
                    } else {
                        DataTypeV::Mapping(Box::new(DataTypeV::Any))
                    },
                },
                None => DataTypeV::Any,
            }
        },
    }
}

/// The alternatives of a composition, numbered under `prefix`; the
/// enclosing schema is each child's composition parent.
pub open spec fn spec_parse_alternatives(
    prefix: Seq<char>,
    parent: SchemaV,
    alts: Seq<SchemaV>,
) -> Seq<DataTypeV>
    decreases alts, 2int,
{
    Seq::new(
        alts.len(),
        |i: int| if 0 <= i < alts.len() {
            spec_parse_type(prefix + dec_str(i as nat), alts[i], Some(parent), None)
        } else {
            DataTypeV::Any
        },
    )
}

/// An array schema: its `items` subschema, or `Any` when absent.
pub open spec fn spec_parse_array(src: Seq<char>, schema: SchemaV) -> DataTypeV
    decreases schema, 0int,
{
    match schema.items {
        Some(b) => DataTypeV::Array(
            Box::new(spec_parse_type(src + "/items"@, *b, None, None)),
        ),
        None => DataTypeV::Array(Box::new(DataTypeV::Any)),
    }
}

/// An object schema becomes a structural record.
pub open spec fn spec_parse_object(
    src: Seq<char>,
    schema: SchemaV,
    parent: Option<SchemaV>,
    property_name: Option<Seq<char>>,
) -> DataTypeV
    decreases schema, 0int,
{
    DataTypeV::Object(
        ObjectV {
            src: src,
            name: spec_object_name(schema, parent, property_name),
            properties: spec_parse_props(
                src,
                schema.properties,
                spec_required_names(schema, parent),
            ),
        },
    )
}

/// The properties of an object record, in schema order.
pub open spec fn spec_parse_props(
    src: Seq<char>,
    props: Seq<(Seq<char>, SchemaV)>,
    required: Seq<Seq<char>>,
) -> Seq<PropertyV>
    decreases props, 2int,
{
    Seq::new(
        props.len(),
        |i: int| if 0 <= i < props.len() {
            spec_parse_property(
                src + "/properties/"@ + props[i].0,
                props[i].0,
                props[i].1,
                required_contains(required, props[i].0),
            )
        } else {
            PropertyV { name: Seq::empty(), required: false, data_type: DataTypeV::Any }
        },
    )
}

/// One property: its subschema's `title`, else its own name, is the
/// naming fallback handed down.
pub open spec fn spec_parse_property(
    src: Seq<char>,
    name: Seq<char>,
    schema: SchemaV,
    required: bool,
) -> PropertyV
    decreases schema, 2int,
{
    let fallback = match schema.title {
        Some(t) => t,
        None => name,
    };
    PropertyV {
        name: name,
        required: required,
        data_type: spec_parse_type(src, schema, None, Some(fallback)),
    }
}

/// The definitions of a file: `$defs` entries first, then `definitions`
/// entries. A name in both lists is taken from the later entry.
pub open spec fn spec_parse_definitions(file: Seq<char>, schema: SchemaV) -> Seq<
    (Seq<char>, DataTypeV),
>
    decreases schema, 2int,
{
    Seq::new(
        schema.defs.len(),
        |i: int| if 0 <= i < schema.defs.len() {
            (
                schema.defs[i].0,
                spec_parse_type(
                    file + "/$defs/"@ + schema.defs[i].0,
                    schema.defs[i].1,
                    None,
                    Some(schema.defs[i].0),
                ),
            )
        } else {
            (Seq::empty(), DataTypeV::Any)
        },
    ) + Seq::new(
        schema.definitions.len(),
        |i: int| if 0 <= i < schema.definitions.len() {
            (
                schema.definitions[i].0,
                spec_parse_type(
                    file + "/definitions/"@ + schema.definitions[i].0,
                    schema.definitions[i].1,
                    None,
                    Some(schema.definitions[i].0),
                ),
            )
        } else {
            (Seq::empty(), DataTypeV::Any)
        },
    )
}

/// A whole parsed file.
pub open spec fn spec_parse_root(file: Seq<char>, schema: SchemaV) -> RootV {
    RootV {
        file: file,
        data_type: spec_parse_type(file, schema, None, None),
        definitions: spec_parse_definitions(file, schema),
    }
}

/// View of an optional borrowed schema.
pub open spec fn opt_schema_v(p: Option<&Schema>) -> Option<SchemaV> {
    match p {
        Some(s) => Some(s.dv()),
        None => None,
    }
}

/// View of an optional owned string.
pub open spec fn opt_str_v(o: Option<String>) -> Option<Seq<char>> {
    match o {
        Some(s) => Some(s@),
        None => None,
    }
}


/// Membership agrees between a string vector and its view.
proof fn lemma_contains_equiv(v: Seq<String>, x: Seq<char>)
    ensures
        crate::text::seq_contains_str(v, x) == required_contains(crate::schema::strings_v(v), x),
{
    if crate::text::seq_contains_str(v, x) {
        let i = choose|i: int| 0 <= i < v.len() && v[i]@ == x;
        assert(crate::schema::strings_v(v)[i] == x);
    }
    if required_contains(crate::schema::strings_v(v), x) {
        let i = choose|i: int|
            0 <= i < crate::schema::strings_v(v).len() && crate::schema::strings_v(v)[i] == x;
        assert(v[i]@ == x);
    }
}

/// Builds the IR node for one decoded schema.
pub fn parse_type(
    src: String,
    schema: &Schema,
    parent: Option<&Schema>,
    property_name: Option<String>,
) -> (r: DataType)
    ensures
        r.dv() == spec_parse_type(src@, schema.dv(), opt_schema_v(parent), opt_str_v(
            property_name,
        )),
    decreases *schema, 1int,
{
    proof {
        assert(schema.dv().one_of == crate::schema::schema_list_v(schema.one_of@));
        assert(schema.dv().one_of.len() == schema.one_of@.len());
        assert(schema.dv().any_of == crate::schema::schema_list_v(schema.any_of@));
        assert(schema.dv().any_of.len() == schema.any_of@.len());
        assert(schema.dv().all_of == crate::schema::schema_list_v(schema.all_of@));
        assert(schema.dv().all_of.len() == schema.all_of@.len());
        assert(schema.dv().pattern_properties == schema_pairs_v(schema.pattern_properties@));
        assert(schema.dv().pattern_properties.len() == schema.pattern_properties@.len());
        assert(schema.dv().properties == schema_pairs_v(schema.properties@));
        assert(schema.dv().properties.len() == schema.properties@.len());
    }
    match &schema.ref_ {
        Some(rp) => DataType::Ref(Ref { ref_path: rp.clone() }),
        None => {
            if schema.one_of.len() > 0 {
                let prefix = str_concat(src.as_str(), "/oneOf/");
                let types = parse_alternatives(prefix, schema, &schema.one_of);
                DataType::OneOf(OneOf { types })
            } else if schema.any_of.len() > 0 {
                let prefix = str_concat(src.as_str(), "/anyOf/");
                let types = parse_alternatives(prefix, schema, &schema.any_of);
                DataType::AnyOf(AnyOf { types })
            } else if schema.all_of.len() > 0 {
                let prefix = str_concat(src.as_str(), "/allOf/");
                let types = parse_alternatives(prefix, schema, &schema.all_of);
                DataType::AllOf(AllOf { types })
            } else {
                match &schema.type_ {
                    Some(t) => match t {
                        Types::Null => DataType::PrimitiveType(PrimitiveType::Null),
                        Types::Boolean => DataType::PrimitiveType(PrimitiveType::Boolean),
                        Types::Integer => DataType::PrimitiveType(PrimitiveType::Integer),
                        Types::Number => DataType::PrimitiveType(PrimitiveType::Number),
                        Types::String => DataType::PrimitiveType(PrimitiveType::String),
                        Types::Array => parse_array_type(src, schema),
                        Types::Object => {
                            if schema.pattern_properties.len() > 0 {
                                proof {
                                    assert(decreases_to!(
                                        *schema => schema.pattern_properties));
                                    assert(decreases_to!(
                                        schema.pattern_properties
                                            => schema.pattern_properties@));
                                    assert(decreases_to!(
                                        schema.pattern_properties@
                                            => schema.pattern_properties@[0]));
                                    assert(decreases_to!(
                                        schema.pattern_properties@[0]
                                            => schema.pattern_properties@[0].1));
                                }
                                let inner_src = str_concat(src.as_str(), "/patternProperties");
                                let inner = parse_type(
                                    inner_src,
                                    &schema.pattern_properties[0].1,
                                    None,
                                    None,
                                );
                                DataType::Mapping(Box::new(inner))
                            } else if schema.properties.len() > 0 {
                                parse_object_type(src, schema, parent, property_name)
                            } else {
                                let r = DataType::Mapping(Box::new(DataType::Any));
                                proof {
                                    assert(DataType::Any.dv() == DataTypeV::Any);
                                    assert(r.dv() == DataTypeV::Mapping(Box::new(DataTypeV::Any)));
                                }
                                r
                            }
                        },
                    },
                    None => DataType::Any,
                }
            }
        },
    }
}

/// Builds the alternatives of a composition node, numbering their
/// sources under `prefix`.
fn parse_alternatives(prefix: String, schema: &Schema, alts: &Vec<Schema>) -> (r: Vec<DataType>)
    requires
        decreases_to!(*schema => *alts),
    ensures
        data_types_v(r@) == spec_parse_alternatives(prefix@, schema.dv(), crate::schema::schema_list_v(alts@)),
    decreases *schema, 0int,
{
    let ghost target = spec_parse_alternatives(
        prefix@,
        schema.dv(),
        crate::schema::schema_list_v(alts@),
    );
    let mut out: Vec<DataType> = Vec::new();
    let mut i: usize = 0;
    while i < alts.len()
        invariant
            0 <= i <= alts@.len(),
            out@.len() == i,
            decreases_to!(*schema => *alts),
            target == spec_parse_alternatives(
                prefix@,
                schema.dv(),
                crate::schema::schema_list_v(alts@),
            ),
            forall|j: int| 0 <= j < i ==> #[trigger] out@[j].dv() == target[j],
        decreases alts@.len() - i,
    {
        proof {
            assert(decreases_to!(*alts => alts@));
            assert(decreases_to!(alts@ => alts@[i as int]));
        }
        let child_src = str_concat(prefix.as_str(), u128_to_string(i as u128).as_str());
        let child = parse_type(child_src, &alts[i], Some(schema), None);
        proof {
            assert(crate::schema::schema_list_v(alts@)[i as int] == alts@[i as int].dv());
            assert(dec_str((i as u128) as nat) == dec_str(i as nat));
        }
        out.push(child);
        i = i + 1;
    }
    proof {
        assert forall|j: int| 0 <= j < out@.len() implies data_types_v(out@)[j] == target[j] by {
            assert(out@[j].dv() == target[j]);
        }
        assert(data_types_v(out@) =~= target);
    }
    out
}

/// Builds the IR node for an array schema.
fn parse_array_type(src: String, schema: &Schema) -> (r: DataType)
    ensures
        r.dv() == spec_parse_array(src@, schema.dv()),
    decreases *schema, 0int,
{
    match &schema.items {
        Some(items) => {
            proof {
                assert(decreases_to!(*schema => schema.items));
                assert(decreases_to!(schema.items => schema.items->0));
            }
            let inner_src = str_concat(src.as_str(), "/items");
            let inner = parse_type(inner_src, items, None, None);
            DataType::Array(Box::new(inner))
        },
        None => {
            let r = DataType::Array(Box::new(DataType::Any));
            proof {
                assert(DataType::Any.dv() == DataTypeV::Any);
                assert(r.dv() == DataTypeV::Array(Box::new(DataTypeV::Any)));
            }
            r
        },
    }
}

/// Builds the structural record for an object schema.
fn parse_object_type(
    src: String,
    schema: &Schema,
    x_of_parent: Option<&Schema>,
    property_name: Option<String>,
) -> (r: DataType)
    ensures
        r.dv() == spec_parse_object(src@, schema.dv(), opt_schema_v(x_of_parent), opt_str_v(
            property_name,
        )),
    decreases *schema, 0int,
{
    let name: String = match &schema.title {
        Some(title) => title.clone(),
        None => match x_of_parent {
            Some(parent) => match &parent.title {
                Some(title) => title.clone(),
                None => match &property_name {
                    Some(title) => title.clone(),
                    None => String::from_str("Unknown"),
                },
            },
            None => match &property_name {
                Some(title) => title.clone(),
                None => String::from_str("Unknown"),
            },
        },
    };
    let mut required_properties: Vec<String> = match &schema.required {
        Some(required) => crate::schema::clone_strings(required),
        None => Vec::new(),
    };
    let ghost own_req = crate::schema::strings_v(required_properties@);
    let ghost n_own = required_properties@.len();
    match x_of_parent {
        Some(parent) => match &parent.required {
            Some(required) => {
                let mut k: usize = 0;
                while k < required.len()
                    invariant
                        0 <= k <= required@.len(),
                        required_properties@.len() == n_own + k,
                        n_own == own_req.len(),
                        forall|j: int| 0 <= j < n_own ==> (#[trigger] required_properties@[j])@
                            == own_req[j],
                        forall|j: int| 0 <= j < k ==> (#[trigger] required_properties@[
                            n_own + j
                        ])@ == required@[j]@,
                    decreases required@.len() - k,
                {
                    required_properties.push(required[k].clone());
                    k = k + 1;
                }
                proof {
                    let merged = own_req + crate::schema::strings_v(required@);
                    assert(required_properties@.len() == merged.len());
                    assert forall|j: int| 0 <= j < required_properties@.len() implies
                        crate::schema::strings_v(required_properties@)[j] == merged[j] by {
                        if j < n_own {
                            assert(required_properties@[j]@ == own_req[j]);
                        } else {
                            let j2 = j - n_own;
                            assert(required_properties@[n_own + j2]@ == required@[j2]@);
                            assert(merged[j] == crate::schema::strings_v(required@)[j2]);
                        }
                    }
                    assert(crate::schema::strings_v(required_properties@) =~= merged);
                }
            },
            None => {},
        },
        None => {},
    }
    let ghost req_v = spec_required_names(schema.dv(), opt_schema_v(x_of_parent));
    proof {
        assert(crate::schema::strings_v(required_properties@) =~= req_v);
    }
    let ghost target = spec_parse_props(src@, schema.dv().properties, req_v);
    let mut properties: Vec<ObjectProperty> = Vec::new();
    let mut i: usize = 0;
    while i < schema.properties.len()
        invariant
            0 <= i <= schema.properties@.len(),
            properties@.len() == i,
            crate::schema::strings_v(required_properties@) == req_v,
            target == spec_parse_props(src@, schema.dv().properties, req_v),
            schema.dv().properties == schema_pairs_v(schema.properties@),
            forall|j: int| 0 <= j < i ==> #[trigger] properties@[j].dv() == target[j],
        decreases schema.properties@.len() - i,
    {
        proof {
            assert(decreases_to!(*schema => schema.properties));
            assert(decreases_to!(schema.properties => schema.properties@));
            assert(decreases_to!(schema.properties@ => schema.properties@[i as int]));
            assert(decreases_to!(
                schema.properties@[i as int] => schema.properties@[i as int].1));
        }
        let pair = &schema.properties[i];
        let required = crate::text::vec_contains_string(&required_properties, &pair.0);
        proof {
            lemma_contains_equiv(required_properties@, pair.0@);
        }
        let prop_src = str_concat(str_concat(src.as_str(), "/properties/").as_str(), pair.0.as_str());
        let prop = parse_property(prop_src, &pair.0, &pair.1, required);
        proof {
            assert(schema_pairs_v(schema.properties@)[i as int] == (
                schema.properties@[i as int].0@,
                schema.properties@[i as int].1.dv(),
            ));
        }
        properties.push(prop);
        i = i + 1;
    }
    let r = DataType::Object(Object { src, name, properties });
    proof {
        assert forall|j: int| 0 <= j < properties@.len() implies properties_v(properties@)[j]
            == target[j] by {
            assert(properties@[j].dv() == target[j]);
        }
        assert(properties_v(properties@) =~= target);
        let ro = r->Object_0;
        assert(r.dv() == DataTypeV::Object(ro.dv()));
        assert(ro.dv() =~= spec_parse_object(
            src@,
            schema.dv(),
            opt_schema_v(x_of_parent),
            opt_str_v(property_name),
        )->Object_0);
    }
    r
}

/// Builds one property of an object record.
fn parse_property(src: String, name: &String, schema: &Schema, required: bool) -> (r:
    ObjectProperty)
    ensures
        r.dv() == spec_parse_property(src@, name@, schema.dv(), required),
    decreases *schema, 2int,
{
    let fallback_name: String = match &schema.title {
        Some(title) => title.clone(),
        None => name.clone(),
    };
    ObjectProperty {
        name: name.clone(),
        required,
        data_type: Box::new(parse_type(src, schema, None, Some(fallback_name))),
    }
}

/// Collects the definitions of a file: `$defs`, then `definitions`.
pub fn parse_definitions(src: &String, schema: &Schema) -> (r: Vec<(String, DataType)>)
    ensures
        definitions_v(r@) == spec_parse_definitions(src@, schema.dv()),
{
    let ghost target = spec_parse_definitions(src@, schema.dv());
    let ghost n_defs = schema.defs@.len();
    proof {
        assert(schema.dv().defs == schema_pairs_v(schema.defs@));
        assert(schema.dv().definitions == schema_pairs_v(schema.definitions@));
        assert(target.len() == schema.defs@.len() + schema.definitions@.len());
    }
    let mut out: Vec<(String, DataType)> = Vec::new();
    let mut i: usize = 0;
    while i < schema.defs.len()
        invariant
            0 <= i <= schema.defs@.len(),
            out@.len() == i,
            target == spec_parse_definitions(src@, schema.dv()),
            target.len() == schema.defs@.len() + schema.definitions@.len(),
            n_defs == schema.defs@.len(),
            forall|j: int| 0 <= j < i ==> (#[trigger] out@[j]).0@ == target[j].0 && out@[j].1.dv()
                == target[j].1,
        decreases schema.defs@.len() - i,
    {
        let pair = &schema.defs[i];
        let dsrc = str_concat(str_concat(src.as_str(), "/$defs/").as_str(), pair.0.as_str());
        let dt = parse_type(dsrc, &pair.1, None, Some(pair.0.clone()));
        proof {
            assert(schema.dv().defs == schema_pairs_v(schema.defs@));
            assert(schema.dv().defs[i as int] == (pair.0@, pair.1.dv()));
            assert(target[i as int] == (
                schema.dv().defs[i as int].0,
                spec_parse_type(
                    src@ + "/$defs/"@ + schema.dv().defs[i as int].0,
                    schema.dv().defs[i as int].1,
                    None,
                    Some(schema.dv().defs[i as int].0),
                ),
            ));
        }
        out.push((pair.0.clone(), dt));
        i = i + 1;
    }
    let mut k: usize = 0;
    while k < schema.definitions.len()
        invariant
            0 <= k <= schema.definitions@.len(),
            out@.len() == n_defs + k,
            target == spec_parse_definitions(src@, schema.dv()),
            target.len() == schema.defs@.len() + schema.definitions@.len(),
            n_defs == schema.defs@.len(),
            forall|j: int| 0 <= j < out@.len() ==> (#[trigger] out@[j]).0@ == target[j].0
                && out@[j].1.dv() == target[j].1,
        decreases schema.definitions@.len() - k,
    {
        let pair = &schema.definitions[k];
        let dsrc = str_concat(
            str_concat(src.as_str(), "/definitions/").as_str(),
            pair.0.as_str(),
        );
        let dt = parse_type(dsrc, &pair.1, None, Some(pair.0.clone()));
        proof {
            assert(schema.dv().definitions == schema_pairs_v(schema.definitions@));
            assert(schema.dv().definitions[k as int] == (pair.0@, pair.1.dv()));
            assert(target[n_defs + k as int] == (
                schema.dv().definitions[k as int].0,
                spec_parse_type(
                    src@ + "/definitions/"@ + schema.dv().definitions[k as int].0,
                    schema.dv().definitions[k as int].1,
                    None,
                    Some(schema.dv().definitions[k as int].0),
                ),
            ));
        }
        out.push((pair.0.clone(), dt));
        k = k + 1;
    }
    proof {
        assert forall|j: int| 0 <= j < out@.len() implies definitions_v(out@)[j] == target[j] by {
            assert(out@[j].0@ == target[j].0 && out@[j].1.dv() == target[j].1);
        }
        assert(definitions_v(out@) =~= target);
    }
    out
}

/// Parses one whole schema document into a [`Root`]. A document whose
/// structure the vocabulary refuses is a fatal parse error naming the file.
pub fn parse_root(file: String, json: &Json) -> (r: Result<Root, GenError>)
    ensures
        match r {
            Ok(root) => crate::schema::schema_of_json(json.dv()) is Some && root.dv()
                == spec_parse_root(file@, crate::schema::schema_of_json(json.dv())->0),
            Err(e) => crate::schema::schema_of_json(json.dv()) is None && (e matches
                GenError::ParseError(f) && f@ == file@),
        },
{
    match crate::schema::decode_schema(json) {
        Some(schema) => {
            let definitions = parse_definitions(&file, &schema);
            let data_type = parse_type(file.clone(), &schema, None, None);
            let r = Root { file, data_type: Box::new(data_type), definitions };
            proof {
                assert(r.dv() =~~= spec_parse_root(
                    r.file@,
                    crate::schema::schema_of_json(json.dv())->0,
                ));
            }
            Ok(r)
        },
        None => Err(GenError::ParseError(file)),
    }
}

} // verus!
