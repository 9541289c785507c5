use rhino::cli::Format;
use rhino::config::v2::Document;
use rhino::config::{Config, Frontmatter, FrontmatterSurface, Surface, WordBudget, WordRule};
use rhino::governance::{structure, word_budget};
use rhino::markdown::frontmatter;
use rhino::runtime::MemoryTree;

fn document(local: &[&str]) -> Document {
    Document {
        visibility: "public".to_string(),
        local_categories: local.iter().map(|s| s.to_string()).collect(),
        gates: Vec::new(),
    }
}

#[test]
fn the_last_matching_word_budget_surface_governs_and_a_count_at_fail_passes() {
    let mut tree = MemoryTree::default();
    tree.write("docs/a.md", "one two three");
    let budget = WordBudget {
        count: WordRule::WhitespaceSeparated,
        surfaces: vec![
            Surface { glob: "**/*.md".to_string(), fail: 1, warn: None, target: None },
            Surface { glob: "docs/*.md".to_string(), fail: 3, warn: None, target: None },
        ],
    };
    let out = word_budget::validate(&tree, &Config::default(), &budget).render(Format::Text);
    assert_eq!(out.exit_code, 0);
    assert_eq!(out.stdout, "[word-budget] checked 1 file, no findings\n[word-budget] scanned docs/a.md\n");
    assert_eq!(out.stderr, "");
}

#[test]
fn an_undeclared_governance_category_is_found_until_it_is_declared() {
    let mut tree = MemoryTree::default();
    tree.write("repo-governance/conventions/writing/a.md", "# a");
    tree.write("repo-governance/conventions/custom/b.md", "# b");
    let report = structure::validate(&tree, &document(&[]));
    assert_eq!(report.findings().len(), 1);
    assert_eq!(report.findings()[0].kind, "undeclared-governance-category");
    assert_eq!(report.findings()[0].path, "repo-governance/conventions/custom");
    assert_eq!(report.render(Format::Text).exit_code, 1);
    let declared = structure::validate(&tree, &document(&["conventions/custom"]));
    assert_eq!(declared.render(Format::Text).exit_code, 0);
}

#[test]
fn front_matter_reports_a_missing_key_and_an_impossible_date() {
    let mut tree = MemoryTree::default();
    tree.write("docs/a.md", "---\nupdated: 2026-02-30\n---\n# A\n");
    let rules = Frontmatter {
        surfaces: vec![FrontmatterSurface {
            glob: "docs/*.md".to_string(),
            require: vec!["title".to_string()],
            values: Vec::new(),
            iso_date: vec!["updated".to_string()],
            forbid: Vec::new(),
        }],
    };
    let out = frontmatter::validate(&tree, &Config::default(), &rules).render(Format::Text);
    assert_eq!(out.exit_code, 1);
    assert_eq!(
        out.stderr,
        "[frontmatter] docs/a.md:1: front matter declares no `title`\n[frontmatter] docs/a.md:2: `updated` does not hold an ISO calendar date (value=2026-02-30)\n"
    );
}
