use schema_records::generated::{GeneratedProperty, GeneratedType, SerdeOptions};
use schema_records::generator::{EntryWithPosition, Generator};
use schema_records::json::Json;
use schema_records::parser::{
    parse_root, AllOf, AnyOf, DataType, Object, ObjectProperty, OneOf, PrimitiveType, Root,
};

fn s(x: &str) -> Json {
    Json::Str(String::from(x))
}

fn obj(members: Vec<(&str, Json)>) -> Json {
    Json::Obj(
        members
            .into_iter()
            .map(|(k, v)| (String::from(k), v))
            .collect(),
    )
}

fn empty_root() -> Root {
    Root {
        file: String::from(""),
        data_type: Box::new(DataType::Any),
        definitions: Vec::new(),
    }
}

#[test]
fn should_be_ordered_by_position() {
    let mut list = vec![
        EntryWithPosition {
            payload: String::from("a"),
            position: 3,
        },
        EntryWithPosition {
            payload: String::from("b"),
            position: 1,
        },
        EntryWithPosition {
            payload: String::from("c"),
            position: 2,
        },
    ];

    list.sort();

    assert_eq!(
        list,
        vec![
            EntryWithPosition {
                payload: String::from("b"),
                position: 1,
            },
            EntryWithPosition {
                payload: String::from("c"),
                position: 2,
            },
            EntryWithPosition {
                payload: String::from("a"),
                position: 3,
            },
        ]
    );
}

#[test]
fn should_add_object() {
    let mut generator = Generator::new();

    let reference = add_object(&mut generator);

    assert_eq!(reference, "AwesomeFoo");

    assert_eq!(
        generator.types[0],
        EntryWithPosition {
            position: 0,
            payload: GeneratedType {
                src: String::from("correct src"),
                name: String::from("AwesomeFoo"),
                properties: vec![GeneratedProperty {
                    name: String::from("awesome_property"),
                    property_type: String::from("Value"),
                    serde_options: SerdeOptions {
                        rename: Some(String::from("awesome property")),
                        skip_serializing_if: Some(String::from("Option::is_none")),
                    },
                }],
            },
        }
    )
}

fn known_name_for<'a>(generator: &'a Generator, src: &str) -> Option<&'a String> {
    generator
        .known_type_names
        .iter()
        .find(|(s, _)| s == src)
        .map(|(_, n)| n)
}

#[test]
fn should_add_known_type() {
    let mut generator = Generator::new();

    add_object(&mut generator);

    assert_eq!(
        known_name_for(&generator, "correct src"),
        Some(&String::from("AwesomeFoo"))
    );
}

#[test]
fn should_detect_type_cycles() {
    let mut generator = Generator::new();
    generator
        .known_type_names
        .push((String::from("correct src"), String::from("some type")));

    let reference = add_object(&mut generator);

    assert_eq!(reference, "some type");

    assert_eq!(generator.types.len(), 0)
}

#[test]
fn should_detect_reference_cycles() {
    let mut generator = Generator::new();

    let reference = generator
        .add_object(
            &String::from(""),
            &empty_root(),
            String::from("correct src"),
            &object_with_property(),
            vec![String::from("correct src")],
        )
        .unwrap();

    assert_eq!(reference, "Box<AwesomeFoo>");

    assert_eq!(
        known_name_for(&generator, "correct src"),
        Some(&String::from("AwesomeFoo"))
    );
}

#[test]
fn should_not_add_the_same_type_twice() {
    let mut generator = Generator::new();

    let reference = add_object(&mut generator);
    assert_eq!(reference, "AwesomeFoo");

    let reference = add_object(&mut generator);
    assert_eq!(reference, "AwesomeFoo");

    assert_eq!(generator.types.len(), 1);

    assert_eq!(generator.known_type_names.len(), 1);
}

#[test]
fn should_add_types_in_the_correct_order() {
    let mut generator = Generator::new();

    generator
        .add_object(
            &String::from(""),
            &empty_root(),
            String::from("correct src"),
            &Object {
                src: String::from("wrong src"),
                name: String::from("awesome foo"),
                properties: vec![ObjectProperty {
                    name: String::from("awesome property"),
                    required: false,
                    data_type: Box::new(DataType::Object(Object {
                        src: String::from("nested src"),
                        name: String::from("awesome foo part 2"),
                        properties: vec![ObjectProperty {
                            name: String::from("awesome property part 2"),
                            required: false,
                            data_type: Box::new(DataType::Any),
                        }],
                    })),
                }],
            },
            Vec::new(),
        )
        .unwrap();

    assert_eq!(
        generator
            .types
            .iter()
            .find(|e| e.payload.src == "correct src")
            .map(|e| e.position),
        Some(0)
    );

    assert_eq!(
        generator
            .types
            .iter()
            .find(|e| e.payload.src == "nested src")
            .map(|e| e.position),
        Some(1)
    );
}

fn add_object(generator: &mut Generator) -> String {
    generator
        .add_object(
            &String::from(""),
            &empty_root(),
            String::from("correct src"),
            &object_with_property(),
            Vec::new(),
        )
        .unwrap()
}

fn object_with_property() -> Object {
    object_with_custom_property(ObjectProperty {
        name: String::from("awesome property"),
        required: false,
        data_type: Box::new(DataType::Any),
    })
}

fn object_with_custom_property(property: ObjectProperty) -> Object {
    Object {
        src: String::from("wrong src"),
        name: String::from("awesome foo"),
        properties: vec![property],
    }
}

#[test]
fn should_add_null_type() {
    let mut generator = Generator::new();

    assert_eq!(
        add_primitive_type(&mut generator, PrimitiveType::Null, true),
        String::from("Value")
    );
}

#[test]
fn should_add_bool_type() {
    let mut generator = Generator::new();

    assert_eq!(
        add_primitive_type(&mut generator, PrimitiveType::Boolean, true),
        String::from("bool")
    );
}

#[test]
fn should_add_integer_type() {
    let mut generator = Generator::new();

    assert_eq!(
        add_primitive_type(&mut generator, PrimitiveType::Integer, true),
        String::from("i64")
    );
}

#[test]
fn should_add_number_type() {
    let mut generator = Generator::new();

    assert_eq!(
        add_primitive_type(&mut generator, PrimitiveType::Number, true),
        String::from("f64")
    );
}

#[test]
fn should_add_string_type() {
    let mut generator = Generator::new();

    assert_eq!(
        add_primitive_type(&mut generator, PrimitiveType::String, true),
        String::from("String")
    );
}

#[test]
fn should_add_optional_string_type() {
    let mut generator = Generator::new();

    assert_eq!(
        add_primitive_type(&mut generator, PrimitiveType::String, false),
        String::from("Option<String>")
    );
}

fn add_primitive_type(
    generator: &mut Generator,
    primitive_type: PrimitiveType,
    required: bool,
) -> String {
    add_type(generator, DataType::PrimitiveType(primitive_type), required)
}

#[test]
fn should_add_array_type() {
    let mut generator = Generator::new();

    let reference = add_type(&mut generator, DataType::Array(Box::new(DataType::Any)), true);

    assert_eq!(reference, "Vec<Value>");
}

#[test]
fn should_add_object_type() {
    let mut generator = Generator::new();

    let reference = add_type(&mut generator, DataType::Object(object_with_property()), true);

    assert_eq!(reference, "AwesomeFoo");
}

#[test]
fn should_add_optional_object_type() {
    let mut generator = Generator::new();

    let reference = add_type(
        &mut generator,
        DataType::Object(object_with_property()),
        false,
    );

    assert_eq!(reference, "Option<AwesomeFoo>");
}

#[test]
fn should_add_map_type() {
    let mut generator = Generator::new();

    let reference = add_type(&mut generator, DataType::Mapping(Box::new(DataType::Any)), true);

    assert_eq!(reference, "BTreeMap<String, Value>");
}

#[test]
fn should_add_ref_type() {
    let mut generator = Generator::new();

    let reference = add_type(
        &mut generator,
        DataType::Ref(schema_records::parser::Ref {
            ref_path: String::from("#/$defs/foo"),
        }),
        true,
    );

    assert_eq!(reference, "AwesomeFoo");
}

#[test]
fn should_add_optional_ref_type() {
    let mut generator = Generator::new();

    let reference = add_type(
        &mut generator,
        DataType::Ref(schema_records::parser::Ref {
            ref_path: String::from("#/$defs/foo"),
        }),
        false,
    );

    assert_eq!(reference, "Option<AwesomeFoo>");
}

#[test]
fn should_add_one_of_type() {
    let mut generator = Generator::new();

    let reference = add_type(
        &mut generator,
        DataType::OneOf(OneOf {
            types: vec![DataType::Any],
        }),
        true,
    );

    assert_eq!(reference, "Value");
}

#[test]
fn should_add_any_of_type() {
    let mut generator = Generator::new();

    let reference = add_type(
        &mut generator,
        DataType::AnyOf(AnyOf {
            types: vec![DataType::Any],
        }),
        true,
    );

    assert_eq!(reference, "Value");
}

#[test]
fn should_add_all_of_type() {
    let mut generator = Generator::new();

    let reference = add_type(
        &mut generator,
        DataType::AllOf(AllOf {
            types: vec![DataType::Any],
        }),
        true,
    );

    assert_eq!(reference, "Value");
}

#[test]
fn should_add_any_type() {
    let mut generator = Generator::new();

    let reference = add_type(&mut generator, DataType::Any, true);

    assert_eq!(reference, "Value");
}

fn loop1_json() -> Json {
    obj(vec![
        ("title", s("Loop")),
        ("type", s("object")),
        (
            "properties",
            obj(vec![("a", obj(vec![("$ref", s("#/definitions/b"))]))]),
        ),
        (
            "definitions",
            obj(vec![(
                "b",
                obj(vec![
                    ("type", s("object")),
                    (
                        "properties",
                        obj(vec![(
                            "c",
                            obj(vec![("$ref", s("loop2.schema.json#/definitions/c"))]),
                        )]),
                    ),
                ]),
            )]),
        ),
    ])
}

fn loop2_json() -> Json {
    obj(vec![(
        "definitions",
        obj(vec![(
            "c",
            obj(vec![
                ("type", s("object")),
                (
                    "properties",
                    obj(vec![(
                        "b",
                        obj(vec![("$ref", s("loop1.schema.json#/definitions/b"))]),
                    )]),
                ),
            ]),
        )]),
    )])
}

#[test]
fn should_detect_loops() {
    let file = "src/examples/generator/loop1.schema.json";

    let mut generator = Generator::new();
    generator.load_root(
        String::from(file),
        parse_root(String::from(file), &loop1_json()).unwrap(),
    );
    let loop2 = "src/examples/generator/loop2.schema.json";
    generator.load_root(
        String::from(loop2),
        parse_root(String::from(loop2), &loop2_json()).unwrap(),
    );
    generator.add_file(&String::from(file)).unwrap();

    let types: Vec<GeneratedType> = generator.into_types();

    assert_eq!(
        types,
        vec![
            GeneratedType {
                src: String::from("src/examples/generator/loop1.schema.json"),
                name: String::from("Loop"),
                properties: vec![GeneratedProperty {
                    name: String::from("a"),
                    serde_options: SerdeOptions {
                        rename: None,
                        skip_serializing_if: Some(String::from("Option::is_none")),
                    },
                    property_type: String::from("Option<B>"),
                }],
            },
            GeneratedType {
                src: String::from("src/examples/generator/loop1.schema.json#/definitions/b"),
                name: String::from("B"),
                properties: vec![GeneratedProperty {
                    name: String::from("c"),
                    serde_options: SerdeOptions {
                        rename: None,
                        skip_serializing_if: Some(String::from("Option::is_none")),
                    },
                    property_type: String::from("Option<C>"),
                }],
            },
            GeneratedType {
                src: String::from("src/examples/generator/loop2.schema.json#/definitions/c"),
                name: String::from("C"),
                properties: vec![GeneratedProperty {
                    name: String::from("b"),
                    serde_options: SerdeOptions {
                        rename: None,
                        skip_serializing_if: Some(String::from("Option::is_none")),
                    },
                    property_type: String::from("Option<Box<B>>"),
                }],
            }
        ]
    );
}

#[test]
fn should_create_referenced_types_once() {
    let file = "src/examples/generator/reference.twice.schema.json";

    let json = obj(vec![
        ("title", s("Twice")),
        ("type", s("object")),
        (
            "properties",
            obj(vec![
                ("a", obj(vec![("$ref", s("#/definitions/c"))])),
                ("b", obj(vec![("$ref", s("#/definitions/c"))])),
            ]),
        ),
        (
            "definitions",
            obj(vec![(
                "c",
                obj(vec![
                    ("type", s("object")),
                    ("properties", obj(vec![("foo", obj(vec![]))])),
                ]),
            )]),
        ),
    ]);

    let mut generator = Generator::new();
    generator.load_root(
        String::from(file),
        parse_root(String::from(file), &json).unwrap(),
    );
    generator.add_file(&String::from(file)).unwrap();

    let types: Vec<GeneratedType> = generator.into_types();

    assert_eq!(
        types,
        vec![
            GeneratedType {
                src: String::from(file),
                name: String::from("Twice"),
                properties: vec![
                    GeneratedProperty {
                        name: String::from("a"),
                        serde_options: SerdeOptions {
                            rename: None,
                            skip_serializing_if: Some(String::from("Option::is_none")),
                        },
                        property_type: String::from("Option<C>"),
                    },
                    GeneratedProperty {
                        name: String::from("b"),
                        serde_options: SerdeOptions {
                            rename: None,
                            skip_serializing_if: Some(String::from("Option::is_none")),
                        },
                        property_type: String::from("Option<C>"),
                    }
                ],
            },
            GeneratedType {
                src: String::from(format!("{}#/definitions/c", file)),
                name: String::from("C"),
                properties: vec![GeneratedProperty {
                    name: String::from("foo"),
                    serde_options: SerdeOptions {
                        rename: None,
                        skip_serializing_if: Some(String::from("Option::is_none")),
                    },
                    property_type: String::from("Value"),
                }],
            }
        ]
    );
}

fn anon_a() -> Json {
    obj(vec![
        ("title", s("A")),
        ("type", s("object")),
        ("properties", obj(vec![("foo", obj(vec![]))])),
    ])
}

#[test]
fn should_prevent_name_collisions() {
    let file = "src/examples/generator/name.collision.schema.json";

    let json = obj(vec![
        ("title", s("Collision")),
        ("type", s("object")),
        (
            "properties",
            obj(vec![("a", anon_a()), ("b", anon_a()), ("c", anon_a())]),
        ),
    ]);

    let mut generator = Generator::new();
    generator.load_root(
        String::from(file),
        parse_root(String::from(file), &json).unwrap(),
    );
    generator.add_file(&String::from(file)).unwrap();

    let types: Vec<GeneratedType> = generator.into_types();

    let foo_value = |name: &str, ptype: &str| GeneratedType {
        src: String::from(format!("{}/properties/{}", file, name)),
        name: String::from(ptype),
        properties: vec![GeneratedProperty {
            name: String::from("foo"),
            serde_options: SerdeOptions {
                rename: None,
                skip_serializing_if: Some(String::from("Option::is_none")),
            },
            property_type: String::from("Value"),
        }],
    };

    assert_eq!(
        types,
        vec![
            GeneratedType {
                src: String::from(file),
                name: String::from("Collision"),
                properties: vec![
                    GeneratedProperty {
                        name: String::from("a"),
                        serde_options: SerdeOptions {
                            rename: None,
                            skip_serializing_if: Some(String::from("Option::is_none")),
                        },
                        property_type: String::from("Option<A>"),
                    },
                    GeneratedProperty {
                        name: String::from("b"),
                        serde_options: SerdeOptions {
                            rename: None,
                            skip_serializing_if: Some(String::from("Option::is_none")),
                        },
                        property_type: String::from("Option<A1>"),
                    },
                    GeneratedProperty {
                        name: String::from("c"),
                        serde_options: SerdeOptions {
                            rename: None,
                            skip_serializing_if: Some(String::from("Option::is_none")),
                        },
                        property_type: String::from("Option<A2>"),
                    }
                ],
            },
            foo_value("a", "A"),
            foo_value("b", "A1"),
            foo_value("c", "A2"),
        ]
    );
}

#[test]
fn should_convert_into_a_sorted_type_list() {
    let mut generator = Generator::new();

    add_type(
        &mut generator,
        DataType::Object(object_with_custom_property(ObjectProperty {
            name: String::from("first property"),
            required: false,
            data_type: Box::new(DataType::Object(object_with_property())),
        })),
        true,
    );

    let types: Vec<GeneratedType> = generator.into_types();

    assert_eq!(
        types,
        vec![
            GeneratedType {
                src: String::from(""),
                name: String::from("AwesomeFoo"),
                properties: vec![GeneratedProperty {
                    name: String::from("first_property"),
                    serde_options: SerdeOptions {
                        rename: Some(String::from("first property")),
                        skip_serializing_if: Some(String::from("Option::is_none")),
                    },
                    property_type: String::from("Option<AwesomeFoo1>"),
                }],
            },
            GeneratedType {
                src: String::from("wrong src"),
                name: String::from("AwesomeFoo1"),
                properties: vec![GeneratedProperty {
                    name: String::from("awesome_property"),
                    serde_options: SerdeOptions {
                        rename: Some(String::from("awesome property")),
                        skip_serializing_if: Some(String::from("Option::is_none")),
                    },
                    property_type: String::from("Value"),
                }],
            }
        ]
    );
}

fn add_type(generator: &mut Generator, data_type: DataType, required: bool) -> String {
    let definitions = vec![(
        String::from("foo"),
        DataType::Object(object_with_property()),
    )];

    let root = Root {
        file: String::from(""),
        data_type: Box::new(DataType::Any),
        definitions,
    };

    generator
        .add_type(
            &String::from(""),
            &root,
            Some(String::from("")),
            &data_type,
            required,
            Vec::new(),
        )
        .unwrap()
}
