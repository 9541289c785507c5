use rhino::cli::Format;
use rhino::config::{Config, Emoji, Globbed};
use rhino::convention::emoji::{is_emoji, validate};
use rhino::runtime::MemoryTree;

fn policy(glob: &str) -> Emoji {
    Emoji {
        prohibited: vec![Globbed {
            glob: glob.to_string(),
        }],
    }
}

#[test]
fn declared_ranges_flag_emoji_but_not_neighbouring_prose_symbols() {
    for character in ['🦏', '✓', '⬆', '\u{FE0F}', '㊗'] {
        assert!(is_emoji(character), "{character}");
    }
    for character in ['—', '©', '+', 'A'] {
        assert!(!is_emoji(character), "{character}");
    }
}

#[test]
fn validator_walks_only_declared_files_and_distinguishes_read_faults() {
    let mut tree = MemoryTree::default();
    tree.write("config/a.json", "first 🦏\nsecond ✓\n");
    tree.write("notes/a.md", "🦏 is allowed here\n");
    let clean =
        validate(&tree, &Config::default(), &policy("config/**/*.json")).render(Format::Text);
    assert_eq!(clean.exit_code, 1);
    assert!(clean.stderr.contains("U+1F98F"));
    assert!(clean.stderr.contains("U+2713"));

    tree.mark_unreadable("config/a.json");
    assert_eq!(
        validate(&tree, &Config::default(), &policy("config/**/*.json"))
            .render(Format::Text)
            .exit_code,
        2
    );
    let mut binary = MemoryTree::default();
    binary.write("config/a.json", "bytes");
    binary.mark_binary("config/a.json");
    assert_eq!(
        validate(&binary, &Config::default(), &policy("config/**/*.json"))
            .render(Format::Text)
            .exit_code,
        2
    );
    let mut vanished = MemoryTree::default();
    vanished.write("config/a.json", "gone before validation");
    vanished.mark_vanished("config/a.json");
    assert_eq!(
        validate(&vanished, &Config::default(), &policy("config/**/*.json"))
            .render(Format::Text)
            .exit_code,
        0
    );
    assert_eq!(
        validate(&tree, &Config::default(), &policy("["))
            .render(Format::Text)
            .exit_code,
        2
    );
}

#[test]
fn each_emoji_line_is_one_finding_with_its_padded_code_point() {
    let findings = rhino::convention::emoji::inspect("a.json", "plain\n✓ and 🦏\n\u{FE0F}\n");
    assert_eq!(findings.len(), 2);
    assert_eq!(findings[0].line, Some(2));
    assert!(matches!(&findings[0].details[0].1, rhino::report::Detail::Text(t) if t == "U+2713"));
    assert!(matches!(&findings[1].details[0].1, rhino::report::Detail::Text(t) if t == "U+FE0F"));
}

#[test]
fn an_unreadable_prohibited_file_refuses_with_its_path() {
    let mut tree = MemoryTree::default();
    tree.write("config/a.json", "x");
    tree.mark_unreadable("config/a.json");
    let outcome = validate(&tree, &Config::default(), &policy("config/*.json")).render(Format::Text);
    assert_eq!(outcome.stderr, "[emoji] config/a.json: permission denied\n");
}
