use rhino::config::Config;
use rhino::markdown::internal_link;
use rhino::markdown::sibling_links;
use rhino::runtime::MemoryTree;

fn kinds(report: &rhino::report::Report) -> Vec<&'static str> {
    report.findings().iter().map(|f| f.kind).collect()
}

#[test]
fn local_links_resolve_and_external_images_and_fragments_are_skipped() {
    let mut tree = MemoryTree::default();
    tree.write(
        "docs/a.md",
        "See [b](b.md), [gone](missing.md), ![img](x.png), [web](https://e.com), [here](#top), [up](../../out.md).\n[ref]: c.md\n",
    );
    tree.write("docs/b.md", "# b");
    let report = internal_link::validate(&tree, &Config::default());
    assert_eq!(report.refusal(), None);
    assert_eq!(report.inspected_count(), 4);
    assert_eq!(
        kinds(&report),
        vec![
            "internal-link-missing",
            "internal-link-outside-repository",
            "internal-link-missing"
        ]
    );
    let findings = report.findings();
    assert_eq!(findings[0].message, "`missing.md` does not exist");
    assert_eq!(findings[0].line, Some(1));
    assert_eq!(findings[1].message, "`../../out.md` resolves outside the repository");
    assert_eq!(findings[2].message, "`c.md` does not exist");
    assert_eq!(findings[2].line, Some(2));
}

#[test]
fn an_absolute_target_is_outside_and_a_fenced_link_is_not_read() {
    let mut tree = MemoryTree::default();
    tree.write("a.md", "[root](/etc/passwd)\n```\n[x](nowhere.md)\n```\n[ok](a.md#part)\n");
    let report = internal_link::validate(&tree, &Config::default());
    assert_eq!(kinds(&report), vec!["internal-link-outside-repository"]);
    assert_eq!(report.inspected_count(), 2);
}

#[test]
fn an_excluded_source_is_not_read_but_stays_a_target() {
    let mut tree = MemoryTree::default();
    tree.write("archive/old.md", "[dead](dead.md)\n");
    tree.write("docs/a.md", "[old](../archive/old.md)\n");
    let mut config = Config::default();
    config.internal_link.exclude_sources = vec!["archive/**".to_string()];
    let report = internal_link::validate(&tree, &config);
    assert!(report.findings().is_empty());
    assert_eq!(report.inspected_count(), 1);
}

#[test]
fn an_exclusion_glob_that_leaves_the_root_refuses_the_run() {
    let tree = MemoryTree::default();
    let mut config = Config::default();
    config.internal_link.exclude_sources = vec!["/abs/**".to_string()];
    let report = internal_link::validate(&tree, &config);
    assert!(report.refusal().is_some());
}

#[test]
fn sibling_links_are_named_once_in_name_order_with_their_first_line() {
    let links = sibling_links("- [B](./b.md)\n- [A](a.md#x)\n- [B again](b.md)\n- [deep](sub/c.md)\n- [web](http://x.org)\n");
    assert_eq!(links, vec![("a.md".to_string(), 2), ("b.md".to_string(), 1)]);
}
