//! The lint engine: configuration decisions, the rule registry, violation
//! rendering and per-file orchestration, plus the builtins table behind
//! expression documentation lookups.

use malt::expressions::{get_matlab_builtins, init_matlab_builtins, Expr};
use malt::errors::MaltError;
use malt::lint::{LintConfig, LintEngine, LintInput, Rule, RuleRegistry, Violation};

fn src(text: &str) -> Result<Vec<u8>, String> {
    Ok(text.as_bytes().to_vec())
}

#[test]
fn test_rule_defaults() {
    let rule = Rule::new(
        "L001".to_string(),
        "line-length".to_string(),
        "Lines should be short".to_string(),
    );
    assert_eq!(rule.id, "L001");
    assert_eq!(rule.name, "line-length");
    assert_eq!(rule.severity, "warning");
    assert!(rule.enabled);
}

#[test]
fn test_registry_register_and_get() {
    let mut reg = RuleRegistry::new();
    assert!(reg.is_empty());
    reg.register(Rule::new(
        "L001".to_string(),
        "one".to_string(),
        "first".to_string(),
    ));
    reg.register(Rule::new(
        "L002".to_string(),
        "two".to_string(),
        "second".to_string(),
    ));
    assert_eq!(reg.len(), 2);
    assert!(!reg.is_empty());
    assert_eq!(reg.get("L001").unwrap().name, "one");
    assert!(reg.get("L999").is_none());

    // registering again overwrites by id
    reg.register(Rule::new(
        "L001".to_string(),
        "one-renamed".to_string(),
        "first".to_string(),
    ));
    assert_eq!(reg.len(), 2);
    assert_eq!(reg.get("L001").unwrap().name, "one-renamed");

    let mut ids = reg.rule_ids();
    ids.sort();
    assert_eq!(ids, vec!["L001".to_string(), "L002".to_string()]);
}

#[test]
fn test_registry_enable_disable() {
    let mut reg = RuleRegistry::new();
    reg.register(Rule::new(
        "L001".to_string(),
        "one".to_string(),
        "first".to_string(),
    ));
    assert!(reg.disable_rule("L001"));
    assert!(!reg.get("L001").unwrap().enabled);
    assert_eq!(reg.get_enabled_rules().len(), 0);
    assert!(reg.enable_rule("L001"));
    assert!(reg.get("L001").unwrap().enabled);
    assert_eq!(reg.get_enabled_rules().len(), 1);
    assert!(!reg.enable_rule("L999"));
    assert!(!reg.disable_rule("L999"));
}

#[test]
fn test_is_rule_enabled_cases() {
    let mut config = LintConfig::new();

    // empty allowlist: everything on
    assert!(config.is_rule_enabled("L001"));

    // the denylist always wins
    config.disabled_rules.push("L001".to_string());
    assert!(!config.is_rule_enabled("L001"));
    assert!(config.is_rule_enabled("L002"));

    // a non-empty allowlist admits only its members
    config.enabled_rules.push("L002".to_string());
    assert!(config.is_rule_enabled("L002"));
    assert!(!config.is_rule_enabled("L003"));

    // denylist membership beats allowlist membership
    config.enabled_rules.push("L001".to_string());
    assert!(!config.is_rule_enabled("L001"));
}

#[test]
fn test_is_path_excluded() {
    let mut config = LintConfig::new();
    // nothing is excluded under an empty configuration
    assert!(!config.is_path_excluded("src/thing.m"));

    // exclusion is a component-wise path prefix, not a character prefix
    config.exclude_paths.push("vendor".to_string());
    assert!(config.is_path_excluded("vendor/dep.m"));
    assert!(config.is_path_excluded("vendor"));
    assert!(!config.is_path_excluded("vendor2/a.m"));
    assert!(!config.is_path_excluded("vendo"));
    assert!(!config.is_path_excluded("src/vendor.m"));

    // a trailing separator on the exclusion changes nothing
    let mut trailing = LintConfig::new();
    trailing.exclude_paths.push("vendor/".to_string());
    assert!(trailing.is_path_excluded("vendor/dep.m"));
    assert!(trailing.is_path_excluded("vendor"));
    assert!(!trailing.is_path_excluded("vendor2/a.m"));
}

#[test]
fn test_violation_fields_and_render() {
    let v = Violation::new(
        "L001".to_string(),
        "line too long".to_string(),
        "src/a.m".to_string(),
        42,
        7,
        "warning".to_string(),
    );
    assert_eq!(v.rule_id, "L001");
    assert_eq!(v.line, 42);
    assert_eq!(v.column, 7);
    assert_eq!(v.severity, "warning");
    assert_eq!(v.render(), "src/a.m:42:7: line too long [L001]");
}

#[test]
fn test_lint_engine_new_defaults() {
    let engine = LintEngine::new(None, None).expect("engine should build");
    assert!(engine.registry.is_empty());
    assert_eq!(engine.config.exclude_paths.len(), 0);

    let mut reg = RuleRegistry::new();
    reg.register(Rule::new(
        "L001".to_string(),
        "one".to_string(),
        "first".to_string(),
    ));
    let engine = LintEngine::new(Some(reg), None).expect("engine should build");
    assert_eq!(engine.registry.len(), 1);
}

#[test]
fn test_lint_file_paths() {
    let mut config = LintConfig::new();
    config.exclude_paths.push("skip/".to_string());
    let engine = LintEngine::new(None, Some(config)).expect("engine should build");

    // an excluded file is skipped without touching its bytes
    let v = engine
        .lint_file("skip/broken.m", &Err("unreadable".to_string()))
        .expect("excluded file should be skipped");
    assert!(v.is_empty());

    // a readable file parses and currently yields no violations
    let v = engine
        .lint_file("src/ok.m", &src("x = 1;\n"))
        .expect("parseable file should lint");
    assert!(v.is_empty());

    // a failed read is an I/O error
    let r = engine.lint_file("src/gone.m", &Err("unreadable".to_string()));
    assert!(matches!(r, Err(MaltError::Io(_))));
}

#[test]
fn test_lint_files_stops_at_first_error() {
    let engine = LintEngine::new(None, None).expect("engine should build");
    let ok = engine.lint_files(vec![
        LintInput {
            path: "a.m".to_string(),
            source: src("x = 1;\n"),
        },
        LintInput {
            path: "b.m".to_string(),
            source: src("y = 2;\n"),
        },
    ]);
    assert!(ok.expect("all files lint").is_empty());

    let bad = engine.lint_files(vec![
        LintInput {
            path: "a.m".to_string(),
            source: src("x = 1;\n"),
        },
        LintInput {
            path: "gone.m".to_string(),
            source: Err("unreadable".to_string()),
        },
    ]);
    assert!(matches!(bad, Err(MaltError::Io(_))));
}

#[test]
fn test_expr_doc_url() {
    let table = init_matlab_builtins(vec![
        ("plot".to_string(), "ref/plot.html".to_string()),
        ("disp".to_string(), "ref/disp.html".to_string()),
    ]);

    let hit = Expr::new("call plot now".to_string());
    assert_eq!(
        hit.doc_url(&table),
        Some("https://www.mathworks.com/help/matlab/ref/plot.html".to_string())
    );

    // the first matching token wins
    let first = Expr::new("disp plot".to_string());
    assert_eq!(
        first.doc_url(&table),
        Some("https://www.mathworks.com/help/matlab/ref/disp.html".to_string())
    );

    // tokens must match exactly
    let miss = Expr::new("plot(x)".to_string());
    assert_eq!(miss.doc_url(&table), None);

    let empty = Expr::new("".to_string());
    assert_eq!(empty.doc_url(&table), None);

    // an uninitialized table documents nothing
    let bare = get_matlab_builtins();
    assert_eq!(hit.doc_url(&bare), None);
}
