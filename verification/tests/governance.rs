use rhino::config::{Config, DirectoryMap, Tree as Root, WordRule};
use rhino::governance::{companion, directory_map, instructions, word_budget};
use rhino::runtime::{MemoryTree, TreeError};
use rhino::scan::Scope;

fn kinds(report: &rhino::report::Report) -> Vec<&'static str> {
    report.findings().iter().map(|f| f.kind).collect()
}

#[test]
fn a_directory_map_reports_an_entry_that_names_nothing_and_a_sibling_it_omits() {
    let mut tree = MemoryTree::default();
    tree.write(
        "docs/README.md",
        "# Docs\n\n## Directory Map\n\n- [Guide](guide.md)\n- [Gone](gone.md)\n",
    );
    tree.write("docs/guide.md", "# Guide");
    tree.write("docs/extra.md", "# Extra");
    let map = DirectoryMap {
        trees: vec![Root { path: "docs".to_string() }],
    };
    let report = directory_map::validate(&tree, &Config::default(), &map, &Scope::default());
    assert_eq!(report.refusal(), None);
    assert_eq!(report.inspected_count(), 1);
    assert_eq!(kinds(&report), vec!["invalid-map-entry", "missing-map-entry"]);
    let findings = report.findings();
    assert_eq!(findings[0].line, Some(6));
    assert_eq!(
        findings[0].message,
        "invalid map entry `gone.md`: an entry has to name a direct sibling by a relative path that exists"
    );
    assert_eq!(
        findings[1].message,
        "missing map entry for `docs/extra.md`: every direct sibling appears exactly once"
    );
}

#[test]
fn a_directory_map_without_its_section_or_readme_is_reported_once() {
    let mut tree = MemoryTree::default();
    tree.write("docs/README.md", "# Docs\n\nNo map here.\n");
    tree.write("docs/sub/page.md", "# Page");
    let map = DirectoryMap {
        trees: vec![Root { path: "docs".to_string() }],
    };
    let report = directory_map::validate(&tree, &Config::default(), &map, &Scope::default());
    assert_eq!(report.inspected_count(), 2);
    assert_eq!(kinds(&report), vec!["missing-directory-map", "missing-readme"]);
    assert_eq!(report.findings()[1].path, "docs/sub");
}

#[test]
fn a_selected_directory_that_is_not_one_is_refused() {
    let tree = MemoryTree::default();
    let scope = Scope {
        directory: Some("nowhere".to_string()),
        ..Scope::default()
    };
    let map = DirectoryMap { trees: vec![] };
    let report = directory_map::validate(&tree, &Config::default(), &map, &scope);
    assert_eq!(
        report.refusal().map(|s| s.as_str()),
        Some("nowhere is not a directory in this repository")
    );
}

#[test]
fn an_unreadable_readme_refuses_the_directory_map_run() {
    let mut tree = MemoryTree::default();
    tree.write("docs/README.md", "# Docs");
    tree.mark_unreadable("docs/README.md");
    let map = DirectoryMap {
        trees: vec![Root { path: "docs".to_string() }],
    };
    let report = directory_map::validate(&tree, &Config::default(), &map, &Scope::default());
    assert_eq!(
        report.refusal().map(|s| s.as_str()),
        Some("docs/README.md: permission denied")
    );
}

const SPINE: &str = "# Guide\n\n## Repository Contract\n\n## Ownership\n\n## Required Workflow\n\n## Authoring Rules\n\n## Harnesses\n\n## Local Notes\n";

#[test]
fn a_complete_spine_and_an_exact_import_are_clean() {
    let mut tree = MemoryTree::default();
    tree.write("GUIDE.md", SPINE);
    tree.write("ROUTE.md", "  @GUIDE.md\n");
    let report = instructions::validate(&tree, "GUIDE.md", "ROUTE.md");
    assert_eq!(report.inspected_count(), 2);
    assert!(report.findings().is_empty());
}

#[test]
fn an_interrupted_and_misordered_spine_is_reported_at_the_section_that_moved() {
    let mut tree = MemoryTree::default();
    tree.write(
        "GUIDE.md",
        "## Repository Contract\n## Required Workflow\n## Notes\n## Ownership\n## Authoring Rules\n## Harnesses\n",
    );
    tree.write("ROUTE.md", "see @GUIDE.md");
    let report = instructions::validate(&tree, "GUIDE.md", "ROUTE.md");
    assert_eq!(
        kinds(&report),
        vec![
            "interrupted-instruction-spine",
            "misordered-spine-section",
            "inexact-instruction-import"
        ]
    );
    let findings = report.findings();
    assert!(findings[0].message.starts_with("`Notes` is written between spine sections"));
    assert_eq!(findings[1].message, "`Required Workflow` is out of spine order");
}

#[test]
fn a_missing_spine_section_and_a_missing_body_are_findings() {
    let mut tree = MemoryTree::default();
    tree.write("GUIDE.md", "## Repository Contract\n## Ownership\n## Required Workflow\n## Harnesses\n");
    let report = instructions::validate(&tree, "GUIDE.md", "ROUTE.md");
    assert_eq!(kinds(&report), vec!["missing-spine-section"]);
    assert!(report.findings()[0].message.starts_with("declares no `Authoring Rules` section"));
    assert_eq!(report.inspected_count(), 1);

    let empty = MemoryTree::default();
    let report = instructions::validate(&empty, "GUIDE.md", "ROUTE.md");
    assert_eq!(kinds(&report), vec!["missing-canonical-instruction"]);
    assert_eq!(report.inspected_count(), 1);
}

#[test]
fn a_heading_inside_a_fence_is_not_a_spine_section() {
    let mut tree = MemoryTree::default();
    tree.write(
        "GUIDE.md",
        "```\n## Repository Contract\n## Ownership\n## Required Workflow\n## Authoring Rules\n## Harnesses\n```\n",
    );
    let report = instructions::validate(&tree, "GUIDE.md", "ROUTE.md");
    assert_eq!(report.findings().len(), 5);
}

#[test]
fn an_ordered_companion_set_reports_its_index_its_prefixes_and_its_gaps() {
    let mut tree = MemoryTree::default();
    tree.write("repo-governance/standards/style.md", "# Style\n\n1. [Intro](style/001-intro.md)\n");
    tree.write(
        "repo-governance/standards/style/README.md",
        "- [Intro](001-intro.md)\n- [Terms](003-terms.md)\n- [Old](002-old.md)\n",
    );
    tree.write("repo-governance/standards/style/001-intro.md", "# Intro");
    tree.write("repo-governance/standards/style/003-terms.md", "# Terms");
    tree.write("repo-governance/standards/style/notes.md", "# Notes");
    let report = companion::validate(&tree);
    assert_eq!(report.refusal(), None);
    assert_eq!(report.inspected_count(), 1);
    assert_eq!(
        kinds(&report),
        vec![
            "unindexed-companion-module",
            "missing-indexed-companion",
            "unordered-module-in-ordered-set",
            "non-contiguous-companion-ordinals"
        ]
    );
    let findings = report.findings();
    assert_eq!(findings[0].path, "repo-governance/standards/style/notes.md");
    assert_eq!(findings[1].message, "indexes `002-old.md`, which is not there");
}

#[test]
fn an_unordered_set_may_not_carry_ordinals_and_a_suffixed_directory_is_renamed_first() {
    let mut tree = MemoryTree::default();
    tree.write("repo-governance/a/doc.md", "# Doc\n\n- [One](doc/001-one.md)\n");
    tree.write("repo-governance/a/doc/001-one.md", "# One");
    tree.write("repo-governance/b/page.md", "# Page");
    tree.write("repo-governance/b/page-details/part.md", "# Part");
    let report = companion::validate(&tree);
    assert_eq!(
        kinds(&report),
        vec![
            "missing-companion-index",
            "ordinal-in-unordered-set",
            "suffixed-companion-directory"
        ]
    );
    assert_eq!(report.inspected_count(), 2);
    assert!(report.findings()[2].message.starts_with("is named after `page.md` with a suffix"));
}

#[test]
fn words_are_counted_by_the_declared_rule() {
    assert_eq!(word_budget::count("one two  three", WordRule::WhitespaceSeparated), 3);
    assert_eq!(word_budget::count("it's a well-known fact", WordRule::LettersAndDigits), 4);
    assert_eq!(word_budget::count("", WordRule::WhitespaceSeparated), 0);
}

#[test]
fn a_body_or_import_that_cannot_be_read_refuses_the_check() {
    let refused = instructions::answer(
        "GUIDE.md",
        "ROUTE.md",
        Err(TreeError::Unreadable("permission denied".to_string())),
        Err(TreeError::NotFound),
    );
    assert_eq!(
        refused.refusal().map(|s| s.as_str()),
        Some("GUIDE.md: permission denied")
    );
    let refused = instructions::answer("GUIDE.md", "ROUTE.md", Ok(SPINE.to_string()), Err(TreeError::NotText));
    assert_eq!(refused.refusal().map(|s| s.as_str()), Some("ROUTE.md: holds no text"));
    let clean = instructions::answer("GUIDE.md", "ROUTE.md", Ok(SPINE.to_string()), Err(TreeError::NotFound));
    assert!(clean.findings().is_empty());
    assert_eq!(clean.inspected_count(), 1);
}

#[test]
fn a_directory_map_that_lists_a_sibling_twice_is_reported() {
    let mut tree = MemoryTree::default();
    tree.write(
        "docs/README.md",
        "## Directory Map\n- [a](a.md)\n- [a again](a.md)\n",
    );
    tree.write("docs/a.md", "a");
    let map = DirectoryMap {
        trees: vec![Root { path: "docs".to_string() }],
    };
    let report = directory_map::validate(&tree, &Config::default(), &map, &Scope::default());
    assert_eq!(report.refusal(), None);
    assert_eq!(kinds(&report), vec!["duplicate-map-entry"]);
    assert_eq!(report.findings()[0].line, Some(3));
    assert_eq!(
        report.findings()[0].message,
        "duplicate map entry for `docs/a.md`: every direct sibling appears exactly once"
    );
    assert_eq!(report.render(rhino::cli::Format::Text).exit_code, 1);
}
