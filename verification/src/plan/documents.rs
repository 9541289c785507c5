//! The six documents, and the one technical shape.
//!
//! Five documents are the same in every plan. The sixth is the technical
//! one, which is a file while it fits in a file and a directory once it does
//! not; a plan carrying both, or neither, is a plan whose reader does not
//! know where to start.
use super::{Plan, PlanView};
use crate::report::{Finding, FindingView, Report, ReportView};
use vstd::prelude::*;

verus! {

/// The five documents whose names never change.
pub open spec fn required() -> Seq<Seq<char>> {
    seq!["README.md"@, "brd.md"@, "delivery.md"@, "learnings.md"@, "prd.md"@]
}

/// The technical document, in the two shapes it is allowed to take.
pub const TECHNICAL: &'static str = "tech-docs";

/// A finding at a line, in the first column, about a named field.
pub open spec fn located(kind: Seq<char>, path: Seq<char>, message: Seq<char>, line: nat, field: Seq<char>) -> FindingView {
    FindingView {
        kind,
        path,
        line: Some(line),
        column: Some(1),
        field: Some(field),
        message,
        details: Seq::empty(),
    }
}

/// One finding for each of the first `k` required documents the plan does
/// not hold.
pub open spec fn missing_documents(plan: PlanView, k: nat) -> Seq<FindingView>
    decreases k,
{
    if k == 0 {
        Seq::empty()
    } else {
        let name = required()[k - 1];
        missing_documents(plan, (k - 1) as nat) + if plan.held.contains(name) {
            Seq::empty()
        } else {
            seq![located("PLAN-DOCUMENT-001"@, plan.path, "required plan document is missing"@, 1, name)]
        }
    }
}

pub open spec fn holds_directory_spec(plan: PlanView, relative: Seq<char>) -> bool {
    exists|k: int| 0 <= k < plan.held.len() && (relative + seq!['/']).is_prefix_of(#[trigger] plan.held[k])
}

/// What the document rules find in a plan.
pub open spec fn document_findings(plan: PlanView) -> Seq<FindingView> {
    let single = plan.held.contains(TECHNICAL@ + ".md"@);
    let directory = holds_directory_spec(plan, TECHNICAL@);
    missing_documents(plan, 5) + if single && directory {
        seq![located("PLAN-DOCUMENT-002"@, plan.path, "plan carries both technical shapes"@, 1, TECHNICAL@)]
    } else if !single && !directory {
        seq![located("PLAN-DOCUMENT-003"@, plan.path, "plan carries no technical shape"@, 1, TECHNICAL@)]
    } else {
        Seq::empty()
    }
}

/// Checks that a plan holds its five fixed documents and exactly one
/// technical shape.
pub fn inspect(plan: &Plan, report: &mut Report)
    ensures
        final(report)@ == (ReportView { findings: old(report)@.findings + document_findings(plan@), ..old(report)@ }),
{
    let names = vec!["README.md", "brd.md", "delivery.md", "learnings.md", "prd.md"];
    assert(crate::cli::str_views(names@) =~= required());
    let ghost base = report@.findings;
    let mut k: usize = 0;
    while k < 5
        invariant
            k <= 5,
            names@.len() == 5,
            crate::cli::str_views(names@) == required(),
            report@ == (ReportView { findings: base + missing_documents(plan@, k as nat), ..old(report)@ }),
        decreases 5 - k,
    {
        assert(names@[k as int]@ == required()[k as int]) by {
            assert(crate::cli::str_views(names@)[k as int] == names@[k as int]@);
        }
        if !plan.holds(names[k]) {
            report.found(
                Finding::new("PLAN-DOCUMENT-001", plan.path.as_str(), "required plan document is missing").at(1, 1).about(
                    names[k],
                ),
            );
            assert(report@.findings =~= base + missing_documents(plan@, (k + 1) as nat));
        } else {
            assert(base + missing_documents(plan@, k as nat) =~= base + missing_documents(plan@, (k + 1) as nat));
        }
        k += 1;
    }
    let ghost mid = report@.findings;
    let single = plan.holds("tech-docs.md");
    proof {
        reveal_strlit("tech-docs.md");
        reveal_strlit("tech-docs");
        reveal_strlit(".md");
        assert("tech-docs.md"@ =~= TECHNICAL@ + ".md"@);
    }
    let directory = plan.holds_directory(TECHNICAL);
    if single && directory {
        report.found(
            Finding::new("PLAN-DOCUMENT-002", plan.path.as_str(), "plan carries both technical shapes").at(1, 1).about(
                TECHNICAL,
            ),
        );
    } else if !single && !directory {
        report.found(
            Finding::new("PLAN-DOCUMENT-003", plan.path.as_str(), "plan carries no technical shape").at(1, 1).about(
                TECHNICAL,
            ),
        );
    }
    assert(report@.findings =~= base + document_findings(plan@));
}

} // verus!
