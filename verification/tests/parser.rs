use schema_records::json::Json;
use schema_records::parser::{
    parse_root, AllOf, AnyOf, DataType, Object, ObjectProperty, OneOf, PrimitiveType, Root,
};

fn s(x: &str) -> Json {
    Json::Str(String::from(x))
}

fn obj(members: Vec<(&str, Json)>) -> Json {
    Json::Obj(
        members
            .into_iter()
            .map(|(k, v)| (String::from(k), v))
            .collect(),
    )
}

fn arr(items: Vec<Json>) -> Json {
    Json::Arr(items)
}

fn typed(t: &str) -> Json {
    obj(vec![("type", s(t))])
}

fn parse(file: &str, json: &Json) -> Root {
    parse_root(String::from(file), json).unwrap()
}

fn primitive_type(primitive_type: PrimitiveType) -> DataType {
    DataType::PrimitiveType(primitive_type)
}

fn object_type(src: String, properties: Vec<ObjectProperty>) -> DataType {
    DataType::Object(Object {
        src,
        name: String::from("Unknown"),
        properties,
    })
}

fn property(name: String, data_type: DataType) -> ObjectProperty {
    ObjectProperty {
        name,
        required: false,
        data_type: Box::new(data_type),
    }
}

fn array_type(nested_type: DataType) -> DataType {
    DataType::Array(Box::new(nested_type))
}

fn one_of_type(types: Vec<DataType>) -> DataType {
    DataType::OneOf(OneOf { types })
}

fn any_of_type(types: Vec<DataType>) -> DataType {
    DataType::AnyOf(AnyOf { types })
}

fn all_of_type(types: Vec<DataType>) -> DataType {
    DataType::AllOf(AllOf { types })
}

#[test]
fn should_parse_null() {
    let schema = parse("src/examples/parser/null.schema.json", &typed("null"));

    assert_eq!(*schema.data_type, primitive_type(PrimitiveType::Null));
}

#[test]
fn should_parse_boolean() {
    let schema = parse("src/examples/parser/boolean.schema.json", &typed("boolean"));

    assert_eq!(*schema.data_type, primitive_type(PrimitiveType::Boolean));
}

#[test]
fn should_parse_integer() {
    let schema = parse("src/examples/parser/integer.schema.json", &typed("integer"));

    assert_eq!(*schema.data_type, primitive_type(PrimitiveType::Integer));
}

#[test]
fn should_parse_number() {
    let schema = parse("src/examples/parser/number.schema.json", &typed("number"));

    assert_eq!(*schema.data_type, primitive_type(PrimitiveType::Number));
}

#[test]
fn should_parse_string() {
    let schema = parse("src/examples/parser/string.schema.json", &typed("string"));

    assert_eq!(*schema.data_type, primitive_type(PrimitiveType::String));
}

#[test]
fn should_parse_array() {
    let json = obj(vec![("type", s("array")), ("items", typed("string"))]);
    let schema = parse("src/examples/parser/array.schema.json", &json);

    assert_eq!(
        *schema.data_type,
        array_type(primitive_type(PrimitiveType::String))
    );
}

#[test]
fn should_parse_nested_array() {
    let json = obj(vec![
        ("type", s("array")),
        (
            "items",
            obj(vec![("type", s("array")), ("items", typed("string"))]),
        ),
    ]);
    let schema = parse("src/examples/parser/array.nested.schema.json", &json);

    assert_eq!(
        *schema.data_type,
        array_type(array_type(primitive_type(PrimitiveType::String)))
    );
}

#[test]
fn should_parse_object_in_array() {
    let json = obj(vec![
        ("type", s("array")),
        (
            "items",
            obj(vec![
                ("type", s("object")),
                ("properties", obj(vec![("subProperty", typed("string"))])),
            ]),
        ),
    ]);
    let schema = parse("src/examples/parser/array.object.schema.json", &json);

    assert_eq!(
        *schema.data_type,
        array_type(object_type(
            String::from("src/examples/parser/array.object.schema.json/items"),
            vec![property(
                String::from("subProperty"),
                primitive_type(PrimitiveType::String),
            )]
        ))
    );
}

#[test]
fn should_parse_object() {
    let json = obj(vec![
        ("type", s("object")),
        ("properties", obj(vec![("property", typed("string"))])),
    ]);
    let schema = parse("src/examples/parser/object.schema.json", &json);

    assert_eq!(
        *schema.data_type,
        object_type(
            String::from("src/examples/parser/object.schema.json"),
            vec![property(
                String::from("property"),
                primitive_type(PrimitiveType::String),
            )]
        )
    );
}

#[test]
fn should_parse_pattern_properties_to_map() {
    let json = obj(vec![
        ("type", s("object")),
        ("patternProperties", obj(vec![("^.*$", typed("boolean"))])),
    ]);
    let schema = parse(
        "src/examples/parser/object.pattern.properties.schema.json",
        &json,
    );

    assert_eq!(
        *schema.data_type,
        DataType::Mapping(Box::new(primitive_type(PrimitiveType::Boolean)))
    );
}

#[test]
fn should_use_title() {
    let json = obj(vec![
        ("title", s("Some object")),
        ("type", s("object")),
        ("properties", obj(vec![("property", typed("string"))])),
    ]);
    let schema = parse("src/examples/parser/object.title.schema.json", &json);

    assert_eq!(
        *schema.data_type,
        DataType::Object(Object {
            src: String::from("src/examples/parser/object.title.schema.json"),
            name: String::from("Some object"),
            properties: vec![property(
                String::from("property"),
                primitive_type(PrimitiveType::String),
            )],
        })
    );
}

#[test]
fn should_use_property_name_as_fallback() {
    let json = obj(vec![
        ("type", s("object")),
        (
            "properties",
            obj(vec![(
                "someProperty",
                obj(vec![
                    ("type", s("object")),
                    ("properties", obj(vec![("property", typed("string"))])),
                ]),
            )]),
        ),
    ]);
    let schema = parse(
        "src/examples/parser/object.nested.property.name.fallback.schema.json",
        &json,
    );

    assert_eq!(
        *schema.data_type,
        object_type(
            String::from("src/examples/parser/object.nested.property.name.fallback.schema.json"),
            vec![property(
                String::from("someProperty"),
                DataType::Object(Object {
                    src: String::from("src/examples/parser/object.nested.property.name.fallback.schema.json/properties/someProperty"),
                    name: String::from("someProperty"),
                    properties: vec![property(
                        String::from("property"),
                        primitive_type(PrimitiveType::String),
                    )],
                }),
            )]
        )
    );
}

#[test]
fn should_make_property_required() {
    let json = obj(vec![
        ("type", s("object")),
        ("properties", obj(vec![("property", typed("string"))])),
        ("required", arr(vec![s("property")])),
    ]);
    let schema = parse("src/examples/parser/object.required.schema.json", &json);

    assert_eq!(
        *schema.data_type,
        object_type(
            String::from("src/examples/parser/object.required.schema.json"),
            vec![ObjectProperty {
                name: String::from("property"),
                required: true,
                data_type: Box::new(primitive_type(PrimitiveType::String)),
            }]
        )
    );
}

fn referenced_definition() -> Json {
    obj(vec![
        ("type", s("object")),
        ("properties", obj(vec![("property", typed("string"))])),
    ])
}

#[test]
fn should_read_defs() {
    let json = obj(vec![(
        "$defs",
        obj(vec![("referenced", referenced_definition())]),
    )]);
    let root = parse("src/examples/parser/defs.schema.json", &json);
    check_defs("src/examples/parser/defs.schema.json/$defs/referenced", root);
}

#[test]
fn should_read_definitions() {
    let json = obj(vec![(
        "definitions",
        obj(vec![("referenced", referenced_definition())]),
    )]);
    let root = parse("src/examples/parser/definitions.schema.json", &json);
    check_defs(
        "src/examples/parser/definitions.schema.json/definitions/referenced",
        root,
    );
}

fn check_defs(src: &str, root: Root) {
    let definitions = vec![(
        String::from("referenced"),
        DataType::Object(Object {
            src: String::from(src),
            name: String::from("referenced"),
            properties: vec![property(
                String::from("property"),
                primitive_type(PrimitiveType::String),
            )],
        }),
    )];

    assert_eq!(root.definitions, definitions);
}

fn alternatives() -> Json {
    arr(vec![
        obj(vec![
            ("type", s("object")),
            ("properties", obj(vec![("name", typed("string"))])),
        ]),
        obj(vec![
            ("type", s("object")),
            ("properties", obj(vec![("alias", typed("string"))])),
        ]),
    ])
}

fn generate_types(src: String) -> Vec<DataType> {
    vec![
        object_type(
            format!("{}/0", src),
            vec![property(
                String::from("name"),
                primitive_type(PrimitiveType::String),
            )],
        ),
        object_type(
            format!("{}/1", src),
            vec![property(
                String::from("alias"),
                primitive_type(PrimitiveType::String),
            )],
        ),
    ]
}

#[test]
fn should_parse_one_of() {
    let json = obj(vec![("oneOf", alternatives())]);
    let schema = parse("src/examples/parser/oneof.schema.json", &json);

    assert_eq!(
        *schema.data_type,
        one_of_type(generate_types(String::from(
            "src/examples/parser/oneof.schema.json/oneOf"
        )))
    );
}

#[test]
fn should_parse_any_of() {
    let json = obj(vec![("anyOf", alternatives())]);
    let schema = parse("src/examples/parser/anyof.schema.json", &json);

    assert_eq!(
        *schema.data_type,
        any_of_type(generate_types(String::from(
            "src/examples/parser/anyof.schema.json/anyOf"
        )))
    );
}

#[test]
fn should_parse_all_of() {
    let json = obj(vec![("allOf", alternatives())]);
    let schema = parse("src/examples/parser/allof.schema.json", &json);

    assert_eq!(
        *schema.data_type,
        all_of_type(generate_types(String::from(
            "src/examples/parser/allof.schema.json/allOf"
        )))
    );
}

#[test]
fn should_inherit_root_properties() {
    let json = obj(vec![
        ("title", s("Root title")),
        ("required", arr(vec![s("property")])),
        (
            "oneOf",
            arr(vec![
                obj(vec![
                    ("type", s("object")),
                    ("properties", obj(vec![("property", typed("string"))])),
                ]),
                typed("string"),
            ]),
        ),
    ]);
    let schema = parse(
        "src/examples/parser/oneof.inherit.properties.schema.json",
        &json,
    );

    assert_eq!(
        *schema.data_type,
        one_of_type(vec![
            DataType::Object(Object {
                src: String::from("src/examples/parser/oneof.inherit.properties.schema.json/oneOf/0"),
                name: String::from("Root title"),
                properties: vec![ObjectProperty {
                    name: String::from("property"),
                    required: true,
                    data_type: Box::new(primitive_type(PrimitiveType::String)),
                }],
            }),
            DataType::PrimitiveType(PrimitiveType::String),
        ])
    );
}

#[test]
fn should_fallback_to_map_for_empty_objects() {
    let schema = parse("", &typed("object"));

    assert_eq!(*schema.data_type, DataType::Mapping(Box::new(DataType::Any)));
}

#[test]
fn should_fallback_to_any() {
    let schema = parse("", &obj(vec![]));

    assert_eq!(*schema.data_type, DataType::Any);
}

#[test]
fn should_fallback_to_any_if_items_is_missing() {
    let schema = parse("", &typed("array"));

    assert_eq!(*schema.data_type, DataType::Array(Box::new(DataType::Any)));
}

#[test]
fn should_reject_bad_type_keyword() {
    let json = obj(vec![("type", Json::Number)]);
    let r = parse_root(String::from("bad.json"), &json);
    assert_eq!(
        r,
        Err(schema_records::error::GenError::ParseError(String::from(
            "bad.json"
        )))
    );
}

#[test]
fn should_reject_non_object_document() {
    let r = parse_root(String::from("bad.json"), &Json::Bool(true));
    assert_eq!(
        r,
        Err(schema_records::error::GenError::ParseError(String::from(
            "bad.json"
        )))
    );
}

#[test]
fn should_reject_non_string_required_entry() {
    let json = obj(vec![
        ("type", s("object")),
        ("properties", obj(vec![("property", typed("string"))])),
        ("required", arr(vec![Json::Number])),
    ]);
    let r = parse_root(String::from("bad.json"), &json);
    assert!(r.is_err());
}

#[test]
fn should_reject_non_object_properties_keyword() {
    let json = obj(vec![("type", s("object")), ("properties", Json::Null)]);
    let r = parse_root(String::from("bad.json"), &json);
    assert!(r.is_err());
}

#[test]
fn should_reject_boolean_items_keyword() {
    let json = obj(vec![("type", s("array")), ("items", Json::Bool(true))]);
    let r = parse_root(String::from("bad.json"), &json);
    assert!(r.is_err());
}

#[test]
fn should_ignore_unknown_keywords() {
    let json = obj(vec![
        ("describedBy", s("elsewhere")),
        ("type", s("string")),
    ]);
    let schema = parse("unknown.json", &json);
    assert_eq!(*schema.data_type, primitive_type(PrimitiveType::String));
}

#[test]
fn should_prefer_ref_over_siblings() {
    let json = obj(vec![
        ("$ref", s("#/definitions/x")),
        ("type", s("string")),
    ]);
    let schema = parse("ref.json", &json);
    assert_eq!(
        *schema.data_type,
        DataType::Ref(schema_records::parser::Ref {
            ref_path: String::from("#/definitions/x"),
        })
    );
}
