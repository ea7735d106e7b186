use repo_graph::error::AppError;
use repo_graph::models::props_get;
use repo_graph::text::{basename, count_lines, extension, parent_path, str_contains};

#[test]
fn path_decomposition() {
    assert_eq!(basename(&"repo/src/index.ts".to_string()), "index.ts");
    assert_eq!(basename(&"index.ts".to_string()), "index.ts");
    assert_eq!(parent_path(&"repo/src/index.ts".to_string()), "repo/src");
    assert_eq!(parent_path(&"index.ts".to_string()), "");
    assert_eq!(extension(&"repo/a.test.ts".to_string()), "ts");
    assert_eq!(extension(&"repo/Makefile".to_string()), "");
    assert_eq!(extension(&"repo/.gitignore".to_string()), "");
}

#[test]
fn substring_search() {
    assert!(str_contains(
        &"repo/node_modules/x".to_string(),
        &"node_modules".to_string()
    ));
    assert!(!str_contains(&"repo/src/x".to_string(), &"node_modules".to_string()));
    assert!(str_contains(&"abc".to_string(), &"".to_string()));
}

#[test]
fn line_counting_matches_display_lines() {
    assert_eq!(count_lines(&"".to_string()), 0);
    assert_eq!(count_lines(&"a".to_string()), 1);
    assert_eq!(count_lines(&"a\n".to_string()), 1);
    assert_eq!(count_lines(&"a\nb".to_string()), 2);
    assert_eq!(count_lines(&"a\nb\n".to_string()), 2);
}

#[test]
fn property_lookup_takes_first_binding() {
    let props = vec![
        ("target".to_string(), "./index".to_string()),
        ("target".to_string(), "./other".to_string()),
    ];
    assert_eq!(props_get(&props, &"target".to_string()), Some("./index".to_string()));
    assert_eq!(props_get(&props, &"missing".to_string()), None);
}

#[test]
fn error_messages_carry_category_and_detail() {
    assert_eq!(
        AppError::UnsupportedLanguage("py".to_string()).message(),
        "Unsupported language: py"
    );
    assert_eq!(
        AppError::EnvVarParseError("PORT".to_string(), "not a number".to_string()).message(),
        "Failed to parse environment variable: PORT: not a number"
    );
}
