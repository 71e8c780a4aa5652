use schema_records::parser::{DataType, Object, ObjectProperty, PrimitiveType, Root};
use schema_records::resolver::{ResolveResult, Resolver};

fn root_with(file: &str, data_type: DataType, definitions: Vec<(String, DataType)>) -> Root {
    Root {
        file: String::from(file),
        data_type: Box::new(data_type),
        definitions,
    }
}

#[test]
fn should_resolve_local_definition() {
    let resolver = Resolver::new();
    let referenced_value = DataType::Any;
    let definitions = vec![(String::from("foo"), referenced_value.clone())];

    let root = root_with("does not exist", DataType::Any, definitions);

    assert_eq!(
        resolver
            .resolve(&root, &String::from("#/definitions/foo"))
            .unwrap(),
        ResolveResult {
            root: root.clone(),
            data_type: referenced_value,
            path: Some(String::from("/definitions/foo")),
        }
    );
}

#[test]
fn should_resolve_file_definition() {
    let mut resolver = Resolver::new();
    let referenced_value = DataType::PrimitiveType(PrimitiveType::Integer);

    let root = root_with(
        "src/examples/resolver/only-here-for-the-base-dir",
        DataType::Any,
        Vec::new(),
    );

    let new_root = root_with(
        "src/examples/resolver/definitions.json",
        create_root_object(),
        vec![(String::from("foo"), referenced_value.clone())],
    );
    resolver.load(
        String::from("src/examples/resolver/definitions.json"),
        new_root.clone(),
    );

    assert_eq!(
        resolver
            .resolve(&root, &String::from("definitions.json#/definitions/foo"))
            .unwrap(),
        ResolveResult {
            root: new_root,
            data_type: referenced_value,
            path: Some(String::from("/definitions/foo")),
        }
    );
}

#[test]
fn should_resolve_file() {
    let mut resolver = Resolver::new();

    let root = root_with(
        "src/examples/resolver/only-here-for-the-base-dir",
        DataType::Any,
        Vec::new(),
    );

    let root_object = create_root_object();

    let new_root = root_with(
        "src/examples/resolver/definitions.json",
        root_object.clone(),
        vec![(
            String::from("foo"),
            DataType::PrimitiveType(PrimitiveType::Integer),
        )],
    );
    resolver.load(
        String::from("src/examples/resolver/definitions.json"),
        new_root.clone(),
    );

    assert_eq!(
        resolver
            .resolve(&root, &String::from("definitions.json"))
            .unwrap(),
        ResolveResult {
            root: new_root,
            data_type: root_object,
            path: None,
        }
    );
}

fn create_root_object() -> DataType {
    DataType::Object(Object {
        src: String::from("src/examples/resolver/definitions.json"),
        name: String::from("r00t"),
        properties: vec![ObjectProperty {
            name: String::from("foo"),
            required: false,
            data_type: Box::new(DataType::PrimitiveType(PrimitiveType::String)),
        }],
    })
}

#[test]
fn should_resolve_root_on_empty_path() {
    let resolver = Resolver::new();
    let root_type = DataType::Any;

    let root = root_with("does not exist", root_type.clone(), Vec::new());

    assert_eq!(
        resolver.resolve(&root, &String::from("")).unwrap(),
        ResolveResult {
            root: root.clone(),
            data_type: root_type,
            path: None,
        }
    );
}

#[test]
fn should_report_missing_file() {
    let resolver = Resolver::new();
    let root = root_with("dir/current.json", DataType::Any, Vec::new());
    let r = resolver.resolve(&root, &String::from("other.json#/definitions/foo"));
    assert_eq!(
        r,
        Err(schema_records::error::GenError::FileNotFound(String::from(
            "dir/other.json"
        )))
    );
}

#[test]
fn should_report_missing_definition() {
    let resolver = Resolver::new();
    let root = root_with("does not exist", DataType::Any, Vec::new());
    let r = resolver.resolve(&root, &String::from("#/definitions/nope"));
    assert_eq!(
        r,
        Err(schema_records::error::GenError::MissingDefinition(
            String::from("/definitions/nope")
        ))
    );
}

#[test]
fn should_reject_fragment_outside_definitions() {
    let resolver = Resolver::new();
    let root = root_with("does not exist", DataType::Any, Vec::new());
    let r = resolver.resolve(&root, &String::from("#/properties/foo"));
    assert_eq!(
        r,
        Err(schema_records::error::GenError::BadRef(String::from(
            "/properties/foo"
        )))
    );
}

#[test]
fn should_shadow_earlier_definitions() {
    let resolver = Resolver::new();
    let defs = vec![
        (String::from("foo"), DataType::Any),
        (
            String::from("foo"),
            DataType::PrimitiveType(PrimitiveType::String),
        ),
    ];
    let root = root_with("does not exist", DataType::Any, defs);
    let r = resolver
        .resolve(&root, &String::from("#/definitions/foo"))
        .unwrap();
    assert_eq!(r.data_type, DataType::PrimitiveType(PrimitiveType::String));
}
