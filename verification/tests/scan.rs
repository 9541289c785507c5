use rhino::config::{Config, Scan};
use rhino::runtime::MemoryTree;
use rhino::scan::{directories, glob_set, is_excluded, is_markdown, Corpus, Scope, Surfaces, Unselectable, STDIN};

#[test]
fn corpus_scope_and_directory_walks_distinguish_read_state_and_declared_exclusions() {
    let mut tree = MemoryTree::default();
    tree.write("docs/README.MD", "# docs");
    tree.write("docs/nested/guide.md", "# guide");
    tree.write("generated/ignored.md", "# ignored");
    tree.write("docs/gone.md", "# gone");
    tree.mark_vanished("docs/gone.md");
    let config = Config {
        scan: Some(Scan {
            exclude_directories: vec!["generated".to_string()],
        }),
        ..Config::default()
    };
    assert!(Corpus::read(&tree, &config).is_ok());
    assert!(directories(&tree, &config, "docs").contains(&"docs/nested".to_string()));
    assert!(is_markdown("docs/README.MD"));
    assert!(!is_markdown("docs/readme"));
    assert!(is_excluded("generated/ignored.md", config.excluded()));
    assert_eq!(
        Surfaces::compile("test", &["docs/*.md"])
            .unwrap()
            .governing("docs/a.md"),
        Some(0)
    );

    let scope = Scope {
        files: vec![STDIN.to_string(), "missing.md".to_string()],
        directory: None,
        stdin: Some("standard input".to_string()),
    };
    assert_eq!(
        scope.documents(&tree),
        vec![
            (STDIN.to_string(), Ok("standard input".to_string())),
            ("missing.md".to_string(), Err(Unselectable::Missing))
        ]
    );
    tree.mark_binary("docs/nested/guide.md");
    assert!(Corpus::read(&tree, &config).is_err());
}

#[test]
fn directory_walks_list_each_directory_once_in_path_order_and_skip_exclusions() {
    let mut tree = MemoryTree::default();
    tree.write("docs/b/x.md", "x");
    tree.write("docs/a/y.md", "y");
    tree.write("docs/a/deep/z.md", "z");
    tree.write("docs/generated/w.md", "w");
    tree.write("elsewhere/v.md", "v");
    let config = Config {
        scan: Some(Scan {
            exclude_directories: vec!["generated".to_string()],
        }),
        ..Config::default()
    };
    assert_eq!(
        directories(&tree, &config, "docs"),
        vec![
            "docs".to_string(),
            "docs/a".to_string(),
            "docs/a/deep".to_string(),
            "docs/b".to_string(),
        ]
    );
    assert_eq!(directories(&tree, &config, "absent"), Vec::<String>::new());
}

#[test]
fn a_glob_too_large_to_compile_is_refused_not_matched() {
    let huge = "?".repeat(300_000);
    let refused = glob_set("surfaces", &[huge.as_str()]);
    assert!(refused.is_err());
    assert!(refused.err().unwrap().starts_with("surfaces: `"));
    let fine = glob_set("surfaces", &["docs/**/*.md"]).ok().unwrap();
    assert!(fine.is_match("DOCS/a/b.MD"));
}
