//! The library's core behaviour: per-file parsing, the object model, the
//! enumerations and the collection, driven from in-memory sources.

use malt::collection::{PathsCollection, RootListing};
use malt::enums::{AccessKind, ArgumentKind, Kind};
use malt::objects::{Argument, Class, Function, MatlabObject, Object, Property};
use malt::parser::{parse_file, FileParser};

fn src(text: &str) -> Result<Vec<u8>, String> {
    Ok(text.as_bytes().to_vec())
}

#[test]
fn test_parse_function() {
    let result = parse_file(
        "test_function.m".to_string(),
        src("function y = test_function(x)\ny = x + 1;\nend\n"),
    );

    assert!(result.is_ok(), "Failed to parse function: {:?}", result.err());

    let obj = result.unwrap();
    assert_eq!(obj.name(), "test_function");
    assert_eq!(obj.kind(), Kind::Function);
}

#[test]
fn test_parse_class() {
    let result = parse_file(
        "MyClass.m".to_string(),
        src("classdef MyClass\nproperties\nValue\nend\nend\n"),
    );

    assert!(result.is_ok(), "Failed to parse class: {:?}", result.err());

    let obj = result.unwrap();
    assert_eq!(obj.name(), "MyClass");
    assert_eq!(obj.kind(), Kind::Class);
}

#[test]
fn test_parse_script() {
    let result = parse_file("my_script.m".to_string(), src("x = 1;\ndisp(x);\n"));

    assert!(result.is_ok(), "Failed to parse script: {:?}", result.err());

    let obj = result.unwrap();
    assert_eq!(obj.name(), "my_script");
    assert_eq!(obj.kind(), Kind::Script);
}

#[test]
fn test_file_parser_api() {
    let parser = FileParser::new(
        "test_function.m".to_string(),
        src("function y = test_function(x)\ny = x + 1;\nend\n"),
    )
    .expect("Failed to create parser");

    let obj = parser.parse().expect("Failed to parse file");

    assert_eq!(obj.name(), "test_function");
    assert_eq!(obj.kind(), Kind::Function);
}

#[test]
fn test_multiple_files() {
    let files = vec![
        ("test_function.m", "function y = test_function(x)\ny = x + 1;\nend\n"),
        ("MyClass.m", "classdef MyClass\nend\n"),
        ("my_script.m", "x = 1;\ndisp(x);\n"),
    ];

    for (filename, text) in files {
        let result = parse_file(filename.to_string(), src(text));
        assert!(
            result.is_ok(),
            "Failed to parse {}: {:?}",
            filename,
            result.err()
        );

        let obj = result.unwrap();
        println!("Parsed {}: {} ({:?})", filename, obj.name(), obj.kind());
    }
}

#[test]
fn test_enum_values() {
    // Kind
    assert_eq!(Kind::Function.as_str(), "function");
    assert_eq!(Kind::Class.as_str(), "class");
    assert_eq!(Kind::Script.as_str(), "script");
    assert_eq!(Kind::Property.as_str(), "property");

    // ArgumentKind
    assert_eq!(ArgumentKind::PositionalOnly.as_str(), "positional-only");
    assert_eq!(ArgumentKind::Optional.as_str(), "optional");
    assert_eq!(ArgumentKind::KeywordOnly.as_str(), "keyword-only");
    assert_eq!(ArgumentKind::Varargin.as_str(), "varargin");

    // AccessKind
    assert_eq!(AccessKind::Public.as_str(), "public");
    assert_eq!(AccessKind::Protected.as_str(), "protected");
    assert_eq!(AccessKind::Private.as_str(), "private");
    assert_eq!(AccessKind::Immutable.as_str(), "immutable");
}

#[test]
fn test_object_creation() {
    let obj = Object::new("TestObject".to_string(), Kind::Function);
    assert_eq!(obj.name, "TestObject");
    assert_eq!(obj.kind, Kind::Function);
    assert_eq!(obj.lineno, None);
    assert_eq!(obj.endlineno, None);
    assert!(!obj.has_docstring());

    let func = Function::new("TestFunction".to_string());
    assert_eq!(func.base.name, "TestFunction");
    assert_eq!(func.base.kind, Kind::Function);
    assert!(!func.is_method);
    assert!(!func.is_setter);
    assert!(!func.is_getter);

    let class = Class::new("TestClass".to_string());
    assert_eq!(class.base.name, "TestClass");
    assert_eq!(class.base.kind, Kind::Class);
    assert_eq!(class.bases.len(), 0);
    assert_eq!(class.properties.len(), 0);
    assert_eq!(class.methods.len(), 0);

    let arg = Argument::new("test_arg".to_string());
    assert_eq!(arg.name, "test_arg");
    assert_eq!(arg.kind, None);
    assert!(arg.is_required());

    let prop = Property::new("test_prop".to_string());
    assert_eq!(prop.name, "test_prop");
    assert_eq!(prop.access, None);
    assert!(!prop.constant);
    assert!(!prop.dependent);
}

#[test]
fn test_collection_basic() {
    let listing = RootListing::DirRoot {
        path: "subdir".to_string(),
        items: vec![
            malt::collection::WalkItem::Directory {
                path: "subdir".to_string(),
                depth: 0,
            },
            malt::collection::WalkItem::File {
                path: "subdir/alpha.m".to_string(),
                depth: 1,
                source: src("function y = alpha(x)\ny = x;\nend\n"),
            },
            malt::collection::WalkItem::File {
                path: "subdir/beta.m".to_string(),
                depth: 1,
                source: src("disp('beta');\n"),
            },
        ],
    };
    let collection =
        PathsCollection::new(vec![listing], false).expect("Failed to create collection");

    assert!(collection.len() > 0, "Collection should not be empty");

    for key in collection.keys() {
        assert!(collection.contains(key.as_str()), "Key {} not found", key);
    }
}

#[test]
fn test_error_handling() {
    // a path that could not be read never yields a default object
    let result = parse_file(
        "nonexistent.m".to_string(),
        Err("No such file or directory".to_string()),
    );
    assert!(result.is_err(), "Should fail for non-existent file");

    let result = FileParser::new(
        "nonexistent.m".to_string(),
        Err("No such file or directory".to_string()),
    );
    assert!(result.is_err(), "Should fail for non-existent file");
}

#[test]
fn test_matlab_object_enum() {
    let func = Function::new("test".to_string());
    let obj = MatlabObject::Function(func);

    assert_eq!(obj.name(), "test");
    assert_eq!(obj.kind(), Kind::Function);

    let class = Class::new("TestClass".to_string());
    let obj = MatlabObject::Class(class);

    assert_eq!(obj.name(), "TestClass");
    assert_eq!(obj.kind(), Kind::Class);
}

#[test]
fn test_kind_equality() {
    assert_eq!(Kind::Function, Kind::Function);
    assert_ne!(Kind::Function, Kind::Class);

    let obj = Object::new("test".to_string(), Kind::Function);
    assert!(obj.is_kind(Kind::Function));
    assert!(!obj.is_kind(Kind::Class));
}
