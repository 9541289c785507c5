use rhino::cli::Format;
use rhino::config::{Config, Metadata, MetadataSchema, MetadataSurface};
use rhino::metadata::{identity, inspect, normalize, validate};
use rhino::runtime::MemoryTree;

fn kinds(path: &str, text: &str, kind: MetadataSchema) -> Vec<&'static str> {
    inspect(path, text, kind).iter().map(|f| f.kind).collect()
}

const DECLARATION: &str = "---\nname: alpha\ndescription: Reads the repository and reports what it found there.\nwhen_to_use: >\n  Use when a maintainer asks what a tree holds. Never otherwise.\ncompatibility: all\n---\n# Alpha\n";

#[test]
fn a_complete_skill_declaration_is_clean() {
    assert!(kinds("skills/alpha/index.md", DECLARATION, MetadataSchema::Skill).is_empty());
}

#[test]
fn a_block_that_never_closes_is_one_finding_at_the_top() {
    let findings = inspect("a.md", "---\nname: a\n", MetadataSchema::Governance);
    assert_eq!(findings.len(), 1);
    assert_eq!(findings[0].kind, "metadata-frontmatter-unterminated");
    assert_eq!(findings[0].line, Some(1));
}

#[test]
fn a_document_without_front_matter_misses_every_required_key_at_line_one() {
    let findings = inspect("docs/a.md", "# Title\n", MetadataSchema::Governance);
    let fields: Vec<Option<String>> = findings.iter().map(|f| f.field.clone()).collect();
    assert_eq!(
        fields,
        vec![Some("description".to_string()), Some("when_to_use".to_string())]
    );
    assert!(findings.iter().all(|f| f.line == Some(1)));
}

#[test]
fn repeated_unknown_and_misordered_keys_are_each_reported_once() {
    let text = "---\nwhen_to_use: >\n  Use this when the question is about governance.\ndescription: Governs how the repository documents itself.\ndescription: again and again and again and again\nextra: value\n---\n";
    let found = kinds("docs/a.md", text, MetadataSchema::Governance);
    assert_eq!(
        found,
        vec![
            "metadata-duplicate-key",
            "metadata-unknown-key",
            "metadata-key-order"
        ]
    );
    let duplicate = &inspect("docs/a.md", text, MetadataSchema::Governance)[0];
    assert_eq!(
        duplicate.message,
        "is declared again, and a decoder would silently keep one of the two (first at line 4)"
    );
    assert_eq!(duplicate.line, Some(5));
}

#[test]
fn capability_lists_keep_the_portable_vocabulary_in_order() {
    let text = "---\nname: helper\ndescription: Helps with the repository when asked to.\nwhen_to_use: >\n  Use when delegating a bounded task.\ntier: fast\ncapabilities:\n  - shell\n  - repository-read\n  - shell\n  - browser\n---\n";
    let found = kinds("agents/helper.md", text, MetadataSchema::Agent);
    assert_eq!(
        found,
        vec![
            "metadata-array-order",
            "metadata-array-duplicate",
            "metadata-capability-unknown"
        ]
    );
}

#[test]
fn a_name_must_be_the_identity_its_path_states() {
    assert_eq!(identity("skills/alpha/index.md", MetadataSchema::Skill), Some("alpha".to_string()));
    assert_eq!(identity("flows/build/readme.md", MetadataSchema::Workflow), Some("build".to_string()));
    assert_eq!(identity("flows/build.md", MetadataSchema::Workflow), Some("build".to_string()));
    let text = DECLARATION.replace("name: alpha", "name: beta");
    assert_eq!(
        kinds("skills/alpha/index.md", &text, MetadataSchema::Skill),
        vec!["metadata-name-path-mismatch"]
    );
}

#[test]
fn whitespace_is_collapsed_before_lengths_and_comparisons() {
    assert_eq!(normalize("  a \t b\n\nc  "), "a b c");
    assert_eq!(normalize(""), "");
}

#[test]
fn the_validator_applies_the_last_matching_surface() {
    let mut tree = MemoryTree::default();
    tree.write("skills/alpha/index.md", DECLARATION);
    tree.write("notes/b.md", "# no front matter\n");
    let metadata = Metadata {
        surfaces: vec![
            MetadataSurface {
                glob: "**/*.md".to_string(),
                schema: MetadataSchema::Governance,
            },
            MetadataSurface {
                glob: "skills/**/*.md".to_string(),
                schema: MetadataSchema::Skill,
            },
        ],
    };
    let outcome = validate(&tree, &Config::default(), &metadata).render(Format::Text);
    assert_eq!(outcome.exit_code, 1, "{}", outcome.stderr);
    assert!(outcome.stderr.contains("notes/b.md"));
    assert!(!outcome.stderr.contains("skills/alpha/index.md"));
}
