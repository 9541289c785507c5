use rhino::config::{commented_schema, parse, ConfigError, Document};

#[test]
fn predecessor_comments_are_rejected_without_a_legacy_decoder() {
    assert_eq!(commented_schema("\n# note\nkey: value\n"), None);
    assert_eq!(
        commented_schema("\n# schema: rhino/repo-config/v1\nkey: value\n"),
        Some(("rhino/repo-config/v1".to_string(), 2))
    );
    assert!(matches!(
        parse("# schema: rhino/repo-config/v1\n"),
        Err(ConfigError::SchemaUnrecognized { .. })
    ));
}

#[test]
fn stable_errors_render_missing_undeclared_and_terminal_comment_cases() {
    assert!(ConfigError::Missing
        .message()
        .contains("no configuration file"));
    assert!(ConfigError::Unreadable("denied".to_string())
        .message()
        .contains("denied"));
    assert!(ConfigError::SchemaUndeclared
        .message()
        .contains("declares no schema"));
    assert!(matches!(
        parse("repository: {}\n"),
        Err(ConfigError::SchemaUndeclared)
    ));
    assert!(matches!(parse("["), Err(ConfigError::Malformed(_))));
    assert_eq!(commented_schema("# note\n# another"), None);
}

#[test]
fn the_stable_schema_is_read_and_a_predecessor_is_refused() {
    assert!(matches!(parse("schema: rhino/repo-config/v2\n"), Ok(Document::V0_4)));
    assert!(matches!(
        parse("schema: ose/repo-config/v2\n"),
        Err(ConfigError::SchemaUnrecognized { line: 1, .. })
    ));
}

#[test]
fn an_unrecognized_schema_names_its_line_and_the_accepted_one() {
    let error = ConfigError::SchemaUnrecognized {
        declared: "ose/repo-config/v2".to_string(),
        line: 3,
    };
    assert_eq!(
        error.message(),
        "repo-config.yml: line 3: unrecognized schema `ose/repo-config/v2`: this stable build accepts only `rhino/repo-config/v2` and no longer accepts predecessor configuration"
    );
    let semantic = ConfigError::Semantic {
        key: "scan".to_string(),
        line: 12,
        reason: "unknown key".to_string(),
    };
    assert_eq!(semantic.message(), "repo-config.yml: line 12: scan: unknown key");
}

#[test]
fn a_comment_after_blank_lines_is_found_on_its_own_line() {
    assert_eq!(
        commented_schema("\n\n  #schema:   old/v9  \n"),
        Some(("old/v9".to_string(), 3))
    );
    assert_eq!(commented_schema("key: value\n# schema: old\n"), None);
}
