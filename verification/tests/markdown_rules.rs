use rhino::config::{Config, Globbed, HeadingHierarchy, ReadmeIndex, Tree as Root};
use rhino::markdown::frontmatter::is_iso_date;
use rhino::markdown::{heading_hierarchy, readme_index};
use rhino::runtime::MemoryTree;

fn kinds(report: &rhino::report::Report) -> Vec<&'static str> {
    report.findings().iter().map(|f| f.kind).collect()
}

#[test]
fn every_directory_under_a_declared_tree_carries_a_readme() {
    let mut tree = MemoryTree::default();
    tree.write("docs/a.md", "# a");
    tree.write("docs/sub/README.md", "# sub");
    tree.write("docs/sub/b.md", "# b");
    let index = ReadmeIndex {
        trees: vec![Root { path: "docs".to_string() }],
    };
    let report = readme_index::validate(&tree, &Config::default(), &index);
    assert_eq!(report.inspected_count(), 2);
    assert_eq!(kinds(&report), vec!["missing-readme-index"]);
    assert_eq!(report.findings()[0].path, "docs");
}

#[test]
fn headings_need_one_top_level_title_and_no_skipped_levels() {
    let mut tree = MemoryTree::default();
    tree.write("docs/a.md", "# One\n### Deep\n# Two\n");
    tree.write("docs/b.md", "## No title\n");
    tree.write("other/c.md", "### ungoverned\n");
    let rules = HeadingHierarchy {
        surfaces: vec![Globbed {
            glob: "docs/**".to_string(),
        }],
        single_h1: true,
        max_level_jump: 1,
    };
    let report = heading_hierarchy::validate(&tree, &Config::default(), &rules);
    assert_eq!(report.inspected_count(), 2);
    assert_eq!(
        kinds(&report),
        vec!["multiple-h1", "heading-level-jump", "missing-h1"]
    );
    assert_eq!(report.findings()[1].line, Some(2));
}

#[test]
fn iso_dates_are_calendar_dates() {
    let chars = |s: &str| s.chars().collect::<Vec<char>>();
    assert!(is_iso_date(&chars("2024-02-29")));
    assert!(!is_iso_date(&chars("2023-02-29")));
    assert!(!is_iso_date(&chars("2024-13-01")));
    assert!(!is_iso_date(&chars("2024-1-01")));
    assert!(is_iso_date(&chars("2000-12-31")));
}

#[test]
fn a_readme_that_is_there_but_cannot_be_opened_is_present() {
    let mut tree = MemoryTree::default();
    tree.write("docs/README.md", "# docs");
    tree.mark_unreadable("docs/README.md");
    tree.write("docs/sub/README.md", "# sub");
    tree.write("docs/sub/a.md", "# a");
    let index = ReadmeIndex {
        trees: vec![Root { path: "docs".to_string() }],
    };
    let out = readme_index::validate(&tree, &Config::default(), &index).render(rhino::cli::Format::Text);
    assert_eq!(out.exit_code, 0);
    assert_eq!(out.stdout, "[readme-index] checked 2 directories, no findings\n");
    assert_eq!(out.stderr, "");
}
