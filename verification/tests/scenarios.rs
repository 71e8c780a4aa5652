use schema_records::error::GenError;
use schema_records::generated::{GeneratedProperty, GeneratedType, SerdeOptions};
use schema_records::generator::Generator;
use schema_records::json::Json;
use schema_records::parser::{parse_root, DataType, ObjectProperty, PrimitiveType, Root};

fn s(x: &str) -> Json {
    Json::Str(String::from(x))
}

fn obj(members: Vec<(&str, Json)>) -> Json {
    Json::Obj(
        members
            .into_iter()
            .map(|(k, v)| (String::from(k), v))
            .collect(),
    )
}

fn arr(items: Vec<Json>) -> Json {
    Json::Arr(items)
}

fn generate(file: &str, json: &Json) -> Vec<GeneratedType> {
    let mut generator = Generator::new();
    generator.load_root(
        String::from(file),
        parse_root(String::from(file), json).unwrap(),
    );
    generator.add_file(&String::from(file)).unwrap();
    generator.into_types()
}

#[test]
fn primitive_schema_yields_no_records() {
    let json = obj(vec![("type", s("string"))]);
    let file = "dir/prim.schema.json";
    let root = parse_root(String::from(file), &json).unwrap();

    let mut generator = Generator::new();
    let reference = generator
        .add_type(
            &String::from("dir"),
            &root,
            None,
            &root.data_type,
            true,
            Vec::new(),
        )
        .unwrap();

    assert_eq!(reference, "String");
    assert_eq!(generator.into_types().len(), 0);
}

#[test]
fn flat_object_yields_one_record() {
    let json = obj(vec![
        ("title", s("Foo")),
        ("type", s("object")),
        ("properties", obj(vec![("bar", obj(vec![("type", s("integer"))]))])),
        ("required", arr(vec![s("bar")])),
    ]);
    let types = generate("dir/foo.schema.json", &json);

    assert_eq!(
        types,
        vec![GeneratedType {
            src: String::from("dir/foo.schema.json"),
            name: String::from("Foo"),
            properties: vec![GeneratedProperty {
                name: String::from("bar"),
                property_type: String::from("i64"),
                serde_options: SerdeOptions {
                    rename: None,
                    skip_serializing_if: None,
                },
            }],
        }]
    );
}

#[test]
fn nested_object_uses_property_name_fallback() {
    let json = obj(vec![
        ("type", s("object")),
        (
            "properties",
            obj(vec![(
                "someProperty",
                obj(vec![
                    ("type", s("object")),
                    ("properties", obj(vec![("p", obj(vec![("type", s("string"))]))])),
                ]),
            )]),
        ),
    ]);
    let types = generate("dir/nested.schema.json", &json);

    assert_eq!(types.len(), 2);
    assert_eq!(types[0].name, "Unknown");
    assert_eq!(types[1].name, "SomeProperty");
    assert_eq!(types[0].properties[0].property_type, "Option<SomeProperty>");
}

#[test]
fn sanitisation_carries_renames() {
    let root = Root {
        file: String::from("dir/x.json"),
        data_type: Box::new(DataType::Any),
        definitions: Vec::new(),
    };
    let mut generator = Generator::new();

    let dollar = generator
        .create_property(
            &String::from("dir"),
            &root,
            &ObjectProperty {
                name: String::from("$schema"),
                required: true,
                data_type: Box::new(DataType::PrimitiveType(PrimitiveType::String)),
            },
            Vec::new(),
        )
        .unwrap();
    assert_eq!(dollar.name, "dollar_schema");
    assert_eq!(dollar.serde_options.rename, Some(String::from("$schema")));

    let reserved = generator
        .create_property(
            &String::from("dir"),
            &root,
            &ObjectProperty {
                name: String::from("enum"),
                required: true,
                data_type: Box::new(DataType::PrimitiveType(PrimitiveType::String)),
            },
            Vec::new(),
        )
        .unwrap();
    assert_eq!(reserved.name, "enum_");
    assert_eq!(reserved.serde_options.rename, Some(String::from("enum")));
}

#[test]
fn unchanged_property_name_has_no_rename() {
    let root = Root {
        file: String::from("dir/x.json"),
        data_type: Box::new(DataType::Any),
        definitions: Vec::new(),
    };
    let mut generator = Generator::new();
    let p = generator
        .create_property(
            &String::from("dir"),
            &root,
            &ObjectProperty {
                name: String::from("plain"),
                required: false,
                data_type: Box::new(DataType::PrimitiveType(PrimitiveType::Boolean)),
            },
            Vec::new(),
        )
        .unwrap();
    assert_eq!(p.name, "plain");
    assert_eq!(p.serde_options.rename, None);
    assert_eq!(
        p.serde_options.skip_serializing_if,
        Some(String::from("Option::is_none"))
    );
    assert_eq!(p.property_type, "Option<bool>");
}

#[test]
fn optional_containers_stay_bare() {
    let mut generator = Generator::new();
    let root = Root {
        file: String::from("dir/x.json"),
        data_type: Box::new(DataType::Any),
        definitions: Vec::new(),
    };

    let array = generator
        .add_type(
            &String::from("dir"),
            &root,
            None,
            &DataType::Array(Box::new(DataType::PrimitiveType(PrimitiveType::String))),
            false,
            Vec::new(),
        )
        .unwrap();
    assert_eq!(array, "Vec<String>");

    let map = generator
        .add_type(
            &String::from("dir"),
            &root,
            None,
            &DataType::Mapping(Box::new(DataType::Any)),
            false,
            Vec::new(),
        )
        .unwrap();
    assert_eq!(map, "BTreeMap<String, Value>");

    let fallback = generator
        .add_type(
            &String::from("dir"),
            &root,
            None,
            &DataType::Any,
            false,
            Vec::new(),
        )
        .unwrap();
    assert_eq!(fallback, "Value");

    let null = generator
        .add_type(
            &String::from("dir"),
            &root,
            None,
            &DataType::PrimitiveType(PrimitiveType::Null),
            false,
            Vec::new(),
        )
        .unwrap();
    assert_eq!(null, "Value");
}

fn two_file_output() -> Vec<(String, String, u64)> {
    let loop1 = obj(vec![
        ("title", s("Loop")),
        ("type", s("object")),
        (
            "properties",
            obj(vec![("a", obj(vec![("$ref", s("#/definitions/b"))]))]),
        ),
        (
            "definitions",
            obj(vec![(
                "b",
                obj(vec![
                    ("type", s("object")),
                    (
                        "properties",
                        obj(vec![(
                            "c",
                            obj(vec![("$ref", s("loop2.json#/definitions/c"))]),
                        )]),
                    ),
                ]),
            )]),
        ),
    ]);
    let loop2 = obj(vec![(
        "definitions",
        obj(vec![(
            "c",
            obj(vec![
                ("type", s("object")),
                (
                    "properties",
                    obj(vec![(
                        "b",
                        obj(vec![("$ref", s("loop1.json#/definitions/b"))]),
                    )]),
                ),
            ]),
        )]),
    )]);

    let mut generator = Generator::new();
    generator.load_root(
        String::from("dir/loop1.json"),
        parse_root(String::from("dir/loop1.json"), &loop1).unwrap(),
    );
    generator.load_root(
        String::from("dir/loop2.json"),
        parse_root(String::from("dir/loop2.json"), &loop2).unwrap(),
    );
    generator.add_file(&String::from("dir/loop1.json")).unwrap();
    generator
        .types
        .iter()
        .map(|e| (e.payload.src.clone(), e.payload.name.clone(), e.position))
        .collect()
}

#[test]
fn emission_is_stable_across_runs() {
    let first = two_file_output();
    let second = two_file_output();
    assert_eq!(first, second);
    assert_eq!(
        first
            .iter()
            .map(|(_, _, p)| *p)
            .collect::<Vec<u64>>(),
        vec![0, 1, 2]
    );
}

#[test]
fn mutual_cycle_boxes_exactly_the_back_edge() {
    let loop1 = obj(vec![
        ("title", s("Loop")),
        ("type", s("object")),
        (
            "properties",
            obj(vec![("a", obj(vec![("$ref", s("#/definitions/b"))]))]),
        ),
        (
            "definitions",
            obj(vec![(
                "b",
                obj(vec![
                    ("type", s("object")),
                    (
                        "properties",
                        obj(vec![(
                            "c",
                            obj(vec![("$ref", s("loop2.json#/definitions/c"))]),
                        )]),
                    ),
                ]),
            )]),
        ),
    ]);
    let loop2 = obj(vec![(
        "definitions",
        obj(vec![(
            "c",
            obj(vec![
                ("type", s("object")),
                (
                    "properties",
                    obj(vec![(
                        "b",
                        obj(vec![("$ref", s("loop1.json#/definitions/b"))]),
                    )]),
                ),
            ]),
        )]),
    )]);

    let mut generator = Generator::new();
    generator.load_root(
        String::from("dir/loop1.json"),
        parse_root(String::from("dir/loop1.json"), &loop1).unwrap(),
    );
    generator.load_root(
        String::from("dir/loop2.json"),
        parse_root(String::from("dir/loop2.json"), &loop2).unwrap(),
    );
    generator.add_file(&String::from("dir/loop1.json")).unwrap();
    let types = generator.into_types();

    assert_eq!(types.len(), 3);
    assert_eq!(types[0].properties[0].property_type, "Option<B>");
    assert_eq!(types[1].properties[0].property_type, "Option<C>");
    assert_eq!(types[2].properties[0].property_type, "Option<Box<B>>");
}

#[test]
fn dedup_keeps_one_record_per_src() {
    let json = obj(vec![
        ("title", s("Holder")),
        ("type", s("object")),
        (
            "properties",
            obj(vec![
                ("x", obj(vec![("$ref", s("#/definitions/d"))])),
                ("y", obj(vec![("$ref", s("#/definitions/d"))])),
                ("z", obj(vec![("$ref", s("#/definitions/d"))])),
            ]),
        ),
        (
            "definitions",
            obj(vec![(
                "d",
                obj(vec![
                    ("title", s("Shared")),
                    ("type", s("object")),
                    ("properties", obj(vec![("v", obj(vec![("type", s("boolean"))]))])),
                ]),
            )]),
        ),
    ]);
    let types = generate("dir/dedup.schema.json", &json);

    assert_eq!(types.len(), 2);
    let shared: Vec<&GeneratedType> = types.iter().filter(|t| t.name == "Shared").collect();
    assert_eq!(shared.len(), 1);
    for p in &types[0].properties {
        assert_eq!(p.property_type, "Option<Shared>");
    }
}

#[test]
fn generate_runs_the_whole_pipeline() {
    let json = obj(vec![
        ("title", s("Foo")),
        ("type", s("object")),
        ("properties", obj(vec![("bar", obj(vec![("type", s("integer"))]))])),
        ("required", arr(vec![s("bar")])),
    ]);
    let file = String::from("dir/foo.schema.json");
    let root = schema_records::parser::parse_root(file.clone(), &json).unwrap();

    let types = schema_records::generate(vec![(file.clone(), root)], &file).unwrap();

    assert_eq!(types.len(), 1);
    assert_eq!(types[0].name, "Foo");
    assert_eq!(types[0].properties[0].property_type, "i64");
}

#[test]
fn generate_reports_files_it_needs() {
    let json = obj(vec![
        ("type", s("object")),
        (
            "properties",
            obj(vec![("a", obj(vec![("$ref", s("other.json"))]))]),
        ),
    ]);
    let file = String::from("dir/entry.json");
    let root = schema_records::parser::parse_root(file.clone(), &json).unwrap();

    let r = schema_records::generate(vec![(file.clone(), root)], &file);
    assert_eq!(r, Err(GenError::FileNotFound(String::from("dir/other.json"))));
}

#[test]
fn missing_file_is_reported_for_loading() {
    let mut generator = Generator::new();
    let r = generator.add_file(&String::from("dir/absent.json"));
    assert_eq!(
        r,
        Err(GenError::FileNotFound(String::from("dir/absent.json")))
    );
}

#[test]
fn path_without_directory_is_rejected() {
    let mut generator = Generator::new();
    let r = generator.add_file(&String::from(""));
    assert_eq!(r, Err(GenError::NoParent(String::from(""))));
}

#[test]
fn composition_children_are_registered() {
    let json = obj(vec![
        (
            "oneOf",
            arr(vec![obj(vec![
                ("title", s("Alt")),
                ("type", s("object")),
                ("properties", obj(vec![("q", obj(vec![("type", s("string"))]))])),
            ])]),
        ),
    ]);
    let types = generate("dir/oneof.schema.json", &json);

    assert_eq!(types.len(), 1);
    assert_eq!(types[0].name, "Alt");
    assert_eq!(types[0].src, "dir/oneof.schema.json/oneOf/0");
}

#[test]
fn decimal_counter_renders_past_nine() {
    let mut generator = Generator::new();
    let root = Root {
        file: String::from("dir/x.json"),
        data_type: Box::new(DataType::Any),
        definitions: Vec::new(),
    };
    let mut names: Vec<String> = Vec::new();
    for i in 0..12 {
        let n = generator
            .add_object(
                &String::from("dir"),
                &root,
                format!("src {}", i),
                &schema_records::parser::Object {
                    src: String::from("ignored"),
                    name: String::from("Same"),
                    properties: Vec::new(),
                },
                Vec::new(),
            )
            .unwrap();
        names.push(n);
    }
    assert_eq!(names[0], "Same");
    assert_eq!(names[1], "Same1");
    assert_eq!(names[10], "Same10");
    assert_eq!(names[11], "Same11");
}
