//! Edge cases of the structural parser: definition order, fallback names,
//! line numbers and script naming.

use malt::enums::Kind;
use malt::objects::MatlabObject;
use malt::parser::parse_file;

fn parse(path: &str, text: &str) -> MatlabObject {
    parse_file(path.to_string(), Ok(text.as_bytes().to_vec())).expect("parse failed")
}

#[test]
fn test_function_before_class_wins() {
    let obj = parse(
        "mixed.m",
        "function y = first_fn(x)\ny = x;\nend\nclassdef Later\nend\n",
    );
    assert_eq!(obj.kind(), Kind::Function);
    assert_eq!(obj.name(), "first_fn");
}

#[test]
fn test_function_line_numbers() {
    let obj = parse("spanned.m", "function y = spanned(x)\ny = x;\nend\n");
    match obj {
        MatlabObject::Function(f) => {
            assert_eq!(f.base.lineno, Some(1));
            assert_eq!(f.base.endlineno, Some(3));
            assert!(f.arguments.is_empty());
            assert!(!f.is_method);
        }
        other => panic!("expected a function, got {:?}", other.kind()),
    }
}

#[test]
fn test_script_name_strips_extension_only() {
    let obj = parse("some/dir/my.analysis.m", "x = 1;\n");
    assert_eq!(obj.kind(), Kind::Script);
    assert_eq!(obj.name(), "my.analysis");
}

#[test]
fn test_script_name_without_extension() {
    let obj = parse("plain", "x = 1;\n");
    assert_eq!(obj.kind(), Kind::Script);
    assert_eq!(obj.name(), "plain");
}

#[test]
fn test_empty_file_is_script() {
    let obj = parse("empty.m", "");
    assert_eq!(obj.kind(), Kind::Script);
    assert_eq!(obj.name(), "empty");
}

#[test]
fn test_comment_only_file_is_script() {
    let obj = parse("notes.m", "% just a comment\n% and another\n");
    assert_eq!(obj.kind(), Kind::Script);
    assert_eq!(obj.name(), "notes");
}
