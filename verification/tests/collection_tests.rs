//! The path collector's layout conventions and the alias resolver.

use malt::collection::{is_class_folder, is_namespace, PathsCollection, RootListing, WalkItem};
use malt::enums::Kind;
use malt::errors::MaltError;
use malt::objects::{Alias, Function, MatlabObject, Script};

fn src(text: &str) -> Result<Vec<u8>, String> {
    Ok(text.as_bytes().to_vec())
}

fn file(path: &str, depth: usize, text: &str) -> WalkItem {
    WalkItem::File {
        path: path.to_string(),
        depth,
        source: src(text),
    }
}

#[test]
fn test_missing_root_fails() {
    let result = PathsCollection::new(
        vec![RootListing::Missing {
            path: "no/such/dir".to_string(),
        }],
        true,
    );
    match result {
        Err(MaltError::FilePath(msg)) => {
            assert_eq!(msg, "Path does not exist: no/such/dir");
        }
        other => panic!("expected a path error, got {:?}", other.map(|c| c.len())),
    }
}

#[test]
fn test_recursive_collects_every_depth_but_private() {
    let listing = RootListing::DirRoot {
        path: "root".to_string(),
        items: vec![
            WalkItem::Directory {
                path: "root".to_string(),
                depth: 0,
            },
            file("root/top.m", 1, "function y = top(x)\ny = x;\nend\n"),
            WalkItem::Directory {
                path: "root/sub".to_string(),
                depth: 1,
            },
            file("root/sub/deep.m", 2, "function y = deep(x)\ny = x;\nend\n"),
            WalkItem::Directory {
                path: "root/private".to_string(),
                depth: 1,
            },
            file(
                "root/private/hidden.m",
                2,
                "function y = hidden(x)\ny = x;\nend\n",
            ),
            file("root/notes.txt", 1, "not matlab"),
        ],
    };
    let c = PathsCollection::new(vec![listing], true).expect("collection failed");
    assert!(c.contains("top"));
    assert!(c.contains("deep"));
    assert!(!c.contains("hidden"));
    assert!(!c.contains("notes"));
    assert_eq!(c.len(), 2);
}

#[test]
fn test_nonrecursive_depth_limit() {
    let listing = RootListing::DirRoot {
        path: "root".to_string(),
        items: vec![
            file("root/top.m", 1, "function y = top(x)\ny = x;\nend\n"),
            file("root/sub/deep.m", 2, "function y = deep(x)\ny = x;\nend\n"),
        ],
    };
    let c = PathsCollection::new(vec![listing], false).expect("collection failed");
    assert!(c.contains("top"));
    assert!(!c.contains("deep"));
    assert_eq!(c.len(), 1);
}

#[test]
fn test_contents_file_always_excluded() {
    let listing = RootListing::DirRoot {
        path: "root".to_string(),
        items: vec![
            file("root/Contents.m", 1, "% listing\n"),
            file("root/sub/Contents.m", 2, "% listing\n"),
            file("root/real.m", 1, "function y = real_fn(x)\ny = x;\nend\n"),
        ],
    };
    let c = PathsCollection::new(vec![listing], true).expect("collection failed");
    assert_eq!(c.len(), 1);
    assert!(c.contains("real_fn"));

    let file_root = RootListing::FileRoot {
        path: "pkg/Contents.m".to_string(),
        source: src("% listing\n"),
    };
    let c2 = PathsCollection::new(vec![file_root], false).expect("collection failed");
    assert!(c2.is_empty());
}

#[test]
fn test_file_root_collection() {
    let file_root = RootListing::FileRoot {
        path: "dir/foo.m".to_string(),
        source: src("function y = foo(x)\ny = x;\nend\n"),
    };
    let c = PathsCollection::new(vec![file_root], false).expect("collection failed");
    assert_eq!(c.len(), 1);
    let obj = c.get("foo").expect("foo not found");
    assert_eq!(obj.kind(), Kind::Function);
    assert_eq!(c.values().len(), 1);
    assert_eq!(c.paths.len(), 1);
}

#[test]
fn test_last_write_wins() {
    let listing = RootListing::DirRoot {
        path: "root".to_string(),
        items: vec![
            file("root/a/same.m", 2, "function y = same(x)\ny = x;\nend\n"),
            file("root/b/same.m", 2, "classdef same\nend\n"),
        ],
    };
    let c = PathsCollection::new(vec![listing], true).expect("collection failed");
    assert_eq!(c.len(), 1);
    assert_eq!(c.get("same").unwrap().kind(), Kind::Class);
}

#[test]
fn test_walk_failure_aborts() {
    let listing = RootListing::DirRoot {
        path: "root".to_string(),
        items: vec![WalkItem::Failure {
            message: "permission denied".to_string(),
        }],
    };
    let result = PathsCollection::new(vec![listing], true);
    assert!(matches!(result, Err(MaltError::Io(_))));
}

#[test]
fn test_classfolder_bundle_layout() {
    // `@Bar/Bar.m` defines the class; `@Bar/private/helper.m` stays hidden
    // even though the walk saw it
    let listing = RootListing::DirRoot {
        path: "@Bar".to_string(),
        items: vec![
            WalkItem::Directory {
                path: "@Bar".to_string(),
                depth: 0,
            },
            file("@Bar/Bar.m", 1, "classdef Bar\nend\n"),
            file(
                "@Bar/private/helper.m",
                2,
                "function y = helper(x)\ny = x;\nend\n",
            ),
        ],
    };
    let c = PathsCollection::new(vec![listing], false).expect("collection failed");
    assert!(c.contains("Bar"));
    assert_eq!(c.get("Bar").unwrap().kind(), Kind::Class);
    assert!(!c.contains("helper"));
    assert!(is_class_folder("@Bar"));
}

#[test]
fn test_layout_markers() {
    assert!(is_namespace("+pkg"));
    assert!(is_namespace("some/where/+pkg"));
    assert!(!is_namespace("pkg"));
    assert!(!is_namespace(""));
    assert!(is_class_folder("src/@Thing"));
    assert!(!is_class_folder("src/Thing"));
    assert!(!is_class_folder("+Thing"));
}

fn alias_collection() -> PathsCollection {
    let mut objects: Vec<(String, MatlabObject)> = Vec::new();
    objects.push((
        "a".to_string(),
        MatlabObject::Alias(Alias::new("a".to_string(), "b".to_string())),
    ));
    objects.push((
        "b".to_string(),
        MatlabObject::Alias(Alias::new("b".to_string(), "c".to_string())),
    ));
    objects.push((
        "c".to_string(),
        MatlabObject::Function(Function::new("c".to_string())),
    ));
    objects.push((
        "x".to_string(),
        MatlabObject::Alias(Alias::new("x".to_string(), "y".to_string())),
    ));
    objects.push((
        "y".to_string(),
        MatlabObject::Alias(Alias::new("y".to_string(), "x".to_string())),
    ));
    objects.push((
        "dangling".to_string(),
        MatlabObject::Alias(Alias::new("dangling".to_string(), "gone".to_string())),
    ));
    objects.push((
        "plain".to_string(),
        MatlabObject::Script(Script::new("plain".to_string())),
    ));
    PathsCollection {
        paths: Vec::new(),
        objects,
    }
}

#[test]
fn test_alias_chain_resolves_to_final_target() {
    let c = alias_collection();
    let obj = c.resolve_alias("a").expect("chain should resolve");
    assert_eq!(obj.name(), "c");
    assert_eq!(obj.kind(), Kind::Function);

    let direct = c.resolve_alias("plain").expect("non-alias resolves to itself");
    assert_eq!(direct.name(), "plain");
}

#[test]
fn test_alias_cycle_detected_with_chain() {
    let c = alias_collection();
    match c.resolve_alias("x") {
        Err(MaltError::CyclicAlias { chain }) => {
            assert_eq!(chain, vec!["x".to_string(), "y".to_string(), "x".to_string()]);
        }
        other => panic!("expected a cycle error, got {:?}", other.map(|o| o.name())),
    }
}

#[test]
fn test_alias_unresolved_target() {
    let c = alias_collection();
    match c.resolve_alias("dangling") {
        Err(MaltError::NameResolution(msg)) => {
            assert!(msg.contains("gone"));
        }
        other => panic!("expected a resolution error, got {:?}", other.map(|o| o.name())),
    }

    assert!(matches!(
        c.resolve_alias("absent"),
        Err(MaltError::NameResolution(_))
    ));
}

#[test]
fn test_directory_with_single_function() {
    let listing = RootListing::DirRoot {
        path: "work".to_string(),
        items: vec![
            WalkItem::Directory {
                path: "work".to_string(),
                depth: 0,
            },
            file("work/foo.m", 1, "function y = foo(x)\ny = x;\nend\n"),
        ],
    };
    let c = PathsCollection::new(vec![listing], false).expect("collection failed");
    assert_eq!(c.len(), 1);
    let obj = c.get("foo").expect("foo not found");
    assert_eq!(obj.name(), "foo");
    assert_eq!(obj.kind(), Kind::Function);
}
