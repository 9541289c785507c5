use rhino::cli::{
    leaves, not_repository_relative, parse, scope_note, unrecognized, Accepts, Format, Help, Leaf,
    Parsed,
};

fn arguments(words: &[&str]) -> Vec<String> {
    words.iter().map(|word| (*word).to_string()).collect()
}

#[test]
fn help_and_version_answer_to_every_published_spelling() {
    for words in [
        &["--help"][..],
        &["-h"][..],
        &["help"][..],
        &["gate", "--help"][..],
        &["help", "gate"][..],
    ] {
        assert!(matches!(parse(&arguments(words)), Ok(Parsed::Help(_))));
    }
    for words in [&["--version"][..], &["-V"][..], &["version"][..]] {
        assert!(matches!(
            parse(&arguments(words)),
            Ok(Parsed::Run(invocation)) if invocation.category == "version"
        ));
    }
}

#[test]
fn a_help_block_scopes_a_flag_without_reciting_the_whole_tree() {
    let table = leaves();
    let all: Vec<&Leaf> = table.iter().collect();
    let accepting = |flag: Accepts| -> Vec<&Leaf> {
        all.iter()
            .copied()
            .filter(|leaf| leaf.accepts.contains(&flag))
            .collect()
    };

    assert_eq!(
        scope_note(&accepting(Accepts::Json), Accepts::Json),
        String::new()
    );

    assert_eq!(accepting(Accepts::Json).len(), 1);
    assert!(scope_note(&all, Accepts::Json).contains("accepted by `version` only"));

    assert!(scope_note(&all, Accepts::Apply).contains(", "));
}

#[test]
fn a_refusal_carries_the_format_the_caller_had_already_asked_for() {
    for words in [
        &["--output", "json", "--no-such-flag"][..],
        &["--json", "--no-such-flag"][..],
        &["--output", "json", "--root"][..],
    ] {
        assert!(matches!(
            parse(&arguments(words)),
            Err(refusal) if refusal.format == Format::Json
        ));
    }

    let refusal = parse(&arguments(&["--output"])).err().expect("it refuses");
    assert_eq!(refusal.format, Format::Text);
    assert_eq!(refusal.to_text(), "rhino: `--output` needs a value");
}

#[test]
fn gate_flag_contract_refuses_cross_surface_and_incomplete_range_combinations() {
    for invocation in [
        &[
            "gate",
            "run",
            "--surface",
            "pull-request",
            "--base",
            "abcdef1",
        ][..],
        &[
            "gate",
            "run",
            "--surface",
            "pre-commit",
            "--message-file",
            "message",
        ],
        &[
            "gate",
            "run",
            "--surface",
            "pre-commit",
            "--push-updates-stdin",
        ],
        &[
            "gate",
            "run",
            "--surface",
            "pre-commit",
            "--base",
            "abcdef1",
            "--head",
            "abcdef2",
        ],
    ] {
        assert!(parse(&arguments(invocation)).is_err());
    }
}

#[test]
fn grouped_adapter_leaves_refuse_the_retired_harness_selector() {
    for leaf in ["validate", "generate"] {
        let refusal = parse(&arguments(&[
            "harness",
            "adapters",
            leaf,
            "--harness",
            "alpha",
        ]))
        .err()
        .expect("grouped adapters do not select one profile");
        assert!(refusal.message.contains("--harness"));
    }
}

#[test]
fn parser_covers_help_projection_and_every_flag_family() {
    assert!(matches!(
        parse(&arguments(&["--help"])),
        Ok(Parsed::Help(Help(text))) if text.contains("repo-config validate")
    ));
    assert!(matches!(
        parse(&arguments(&["gate", "--help"])),
        Ok(Parsed::Help(Help(text))) if text.contains("--surface <name>")
    ));

    let invocation = parse(&arguments(&[
        "gate",
        "run",
        "--root",
        "repo",
        "--output",
        "json",
        "--surface",
        "pull-request",
        "--base",
        "base",
        "--head",
        "head",
        "--quiet",
    ]))
    .expect("valid pull-request gate");
    assert!(matches!(
        invocation,
        Parsed::Run(invocation)
            if invocation.category == "gate"
                && invocation.format == Format::Json
    ));

    let after_double_dash = parse(&arguments(&["--", "version"])).expect("valid version leaf");
    assert!(matches!(
        after_double_dash,
        Parsed::Run(invocation) if invocation.category == "version"
    ));

    let directory = parse(&arguments(&[
        "governance",
        "directory-map",
        "validate",
        "--directory",
        "docs",
    ]))
    .expect("valid directory selection");
    assert!(matches!(
        directory,
        Parsed::Run(invocation) if invocation.directory.as_deref() == Some("docs")
    ));

    let mermaid = parse(&arguments(&[
        "md",
        "mermaid",
        "validate",
        "--file",
        "docs/a.md",
        "--file",
        "-",
    ]))
    .expect("valid file selection");
    assert!(matches!(
        mermaid,
        Parsed::Run(invocation) if invocation.files == vec!["docs/a.md", "-"]
    ));

    let restore = parse(&arguments(&[
        "env", "restore", "--dir", "backup", "--force",
    ]))
    .expect("valid restore flags");
    assert!(matches!(
        restore,
        Parsed::Run(invocation) if invocation.force && !invocation.apply
    ));
    let initialization = parse(&arguments(&["env", "init", "--apply"]))
        .expect("valid initialization authorization");
    assert!(matches!(
        initialization,
        Parsed::Run(invocation) if invocation.apply
    ));
}

#[test]
fn parser_refuses_unknown_incompatible_and_escaping_input_without_guessing() {
    for invocation in [
        &["unknown"][..],
        &["--help", "unknown"],
        &["repo-config", "validate", "--output", "xml"],
        &["repo-config", "validate", "--file", "docs/a.md"],
        &["md", "mermaid", "validate", "--file", "/tmp/a.md"],
        &[
            "governance",
            "directory-map",
            "validate",
            "--directory",
            "../outside",
        ],
        &["version", "--json", "--output", "text"],
        &["env", "restore", "--dir"],
        &["version", "--unknown"],
    ] {
        assert!(
            parse(&arguments(invocation)).is_err(),
            "{}",
            invocation.join(" ")
        );
    }
    assert_eq!(not_repository_relative(""), Some("names nothing"));
    assert!(not_repository_relative("/absolute").is_some());
    assert!(not_repository_relative("a/../../outside").is_some());
    assert!(not_repository_relative("docs/./a").is_none());
    assert_eq!(unrecognized(&[]), "no command given; try `rhino --help`");
    assert_eq!(
        unrecognized(&["not", "a", "command"]),
        "unrecognized command `not a command`"
    );
}

#[test]
fn a_refused_output_format_names_what_it_accepts() {
    let refusal = parse(&arguments(&["repo-config", "validate", "--output", "xml"]))
        .err()
        .expect("xml is refused");
    assert_eq!(
        refusal.message,
        "`--output xml` is not a format this build writes; expected `text` or `json`"
    );
    assert_eq!(refusal.format, Format::Text);
}

#[test]
fn an_escaping_file_selection_is_refused_with_its_reason() {
    let refusal = parse(&arguments(&["md", "mermaid", "validate", "--file", "a/../../x"]))
        .err()
        .expect("escapes");
    assert_eq!(refusal.message, "`--file a/../../x` escapes the repository root");
}
