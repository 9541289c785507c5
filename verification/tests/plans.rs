use rhino::plan::{self, entries, is_kebab_case, shared_slugs};
use rhino::runtime::MemoryTree;

fn kinds(report: &rhino::report::Report) -> Vec<&'static str> {
    report.findings().iter().map(|f| f.kind).collect()
}

fn formal(tree: &mut MemoryTree, at: &str) {
    for name in ["README.md", "brd.md", "learnings.md", "tech-docs.md"] {
        tree.write(&format!("{at}/{name}"), "# Document\n");
    }
}

#[test]
fn a_plan_is_held_to_its_documents_criteria_and_checklist() {
    let mut tree = MemoryTree::default();
    formal(&mut tree, "plans/backlog/alpha");
    tree.write(
        "plans/backlog/alpha/prd.md",
        "```gherkin\nScenario: [AC-01] one\nScenario: [AC-01] again\n```\n",
    );
    tree.write(
        "plans/backlog/alpha/delivery.md",
        "## Phase 1\n- [AI] do [AC-02]\n- [BOT] task\n## Plan Archival\n- [HUMAN] archive\n",
    );
    tree.write("plans/someday/x/README.md", "# x");
    let report = plan::validate(&tree);
    assert_eq!(report.refusal(), None);
    assert_eq!(report.inspected_count(), 2);
    assert_eq!(
        kinds(&report),
        vec![
            "PLAN-LIFECYCLE-001",
            "PLAN-CRITERION-001",
            "PLAN-CRITERION-002",
            "PLAN-DELIVERY-002",
            "PLAN-DOCUMENT-001",
            "PLAN-DOCUMENT-001",
            "PLAN-DOCUMENT-001",
            "PLAN-DOCUMENT-001",
            "PLAN-DOCUMENT-003"
        ]
    );
    let findings = report.findings();
    assert_eq!(findings[0].path, "plans/someday");
    assert_eq!(findings[0].field.as_deref(), Some("someday"));
    assert_eq!(findings[1].path, "plans/backlog/alpha/prd.md");
    assert_eq!(findings[1].line, Some(3));
    assert_eq!(findings[2].path, "plans/backlog/alpha/delivery.md");
    assert_eq!(findings[2].field.as_deref(), Some("AC-02"));
    assert_eq!(findings[3].line, Some(3));
    assert_eq!(findings[3].field.as_deref(), Some("BOT"));
    assert_eq!(findings[4].field.as_deref(), Some("brd.md"));
}

#[test]
fn an_archival_section_first_and_an_unnumbered_phase_are_delivery_findings() {
    let mut tree = MemoryTree::default();
    formal(&mut tree, "plans/in-progress/beta");
    tree.write("plans/in-progress/beta/prd.md", "Scenario: [AC-01] one\n");
    tree.write(
        "plans/in-progress/beta/delivery.md",
        "## Execution Checkout\n- main branch\n## Plan Archival\n- [ ] [AI] archive\n## Phase Two\n- [ ] untagged\n- [Guide](guide.md)\n",
    );
    let report = plan::validate(&tree);
    assert_eq!(
        kinds(&report),
        vec!["PLAN-DELIVERY-004", "PLAN-DELIVERY-003", "PLAN-DELIVERY-001"]
    );
    let findings = report.findings();
    assert_eq!(findings[0].line, Some(3));
    assert_eq!(findings[1].field.as_deref(), Some("Phase Two"));
    assert_eq!(findings[2].line, Some(6));
}

#[test]
fn lifecycle_slugs_answer_where_a_plan_is_in_its_life() {
    let mut tree = MemoryTree::default();
    tree.write("plans/done/2026-01-15__shipped/README.md", "# a");
    tree.write("plans/done/finished/README.md", "# b");
    tree.write("plans/backlog/2026-01-15-early/README.md", "# c");
    tree.write("plans/ideas/Bad_Name/README.md", "# d");
    tree.write("plans/backlog/twice/README.md", "# e");
    tree.write("plans/ideas/twice/README.md", "# f");
    let report = plan::validate(&tree);
    assert_eq!(
        kinds(&report)
            .into_iter()
            .filter(|k| k.starts_with("PLAN-LIFECYCLE"))
            .collect::<Vec<_>>(),
        vec![
            "PLAN-LIFECYCLE-002",
            "PLAN-LIFECYCLE-003",
            "PLAN-LIFECYCLE-004",
            "PLAN-LIFECYCLE-005"
        ]
    );
}

#[test]
fn companion_modules_carry_contiguous_unique_ordinals_the_index_lists() {
    let mut tree = MemoryTree::default();
    formal(&mut tree, "plans/backlog/gamma");
    tree.write("plans/backlog/gamma/tech-docs/README.md", "- [A](001-a.md)\n- [Z](009-z.md)\n");
    tree.write("plans/backlog/gamma/tech-docs/001-a.md", "# a");
    tree.write("plans/backlog/gamma/tech-docs/001-B.md", "# b");
    let report = plan::validate(&tree);
    let companions: Vec<&'static str> = kinds(&report)
        .into_iter()
        .filter(|k| k.starts_with("PLAN-COMPANION"))
        .collect();
    assert_eq!(
        companions,
        vec![
            "PLAN-COMPANION-004",
            "PLAN-COMPANION-005",
            "PLAN-COMPANION-003",
            "PLAN-COMPANION-006"
        ]
    );
}

#[test]
fn names_entries_and_shared_slugs_follow_the_plan_root() {
    assert!(is_kebab_case("one-two-3"));
    assert!(!is_kebab_case("one--two"));
    assert!(!is_kebab_case("-one"));
    assert!(!is_kebab_case("One"));
    assert!(!is_kebab_case(""));
    let files = vec![
        "plans/backlog/a/README.md".to_string(),
        "plans/done/a/README.md".to_string(),
        "plans/ideas/brief.md".to_string(),
        "plans/backlog/b/x/y.md".to_string(),
    ];
    let found = entries(&files, "plans/");
    assert_eq!(found.len(), 3);
    assert_eq!(
        found[2],
        ("backlog".to_string(), "b".to_string(), "x/y.md".to_string())
    );
    assert_eq!(shared_slugs(&files, "plans/"), vec!["a".to_string()]);
}
