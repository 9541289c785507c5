//! The instruction spine.
//!
//! Every repository keeps one canonical instruction body, opening with five
//! top-level sections in a fixed order. Repository-specific sections may
//! follow; none may be inserted between spine sections, because a reader
//! looking for the same fact in two repositories has to find it in the same
//! place. A second harness file, where there is one, is exactly an import of
//! that body. The two paths are the caller's to name.
use crate::markdown::{numbered_views, prose_lines, prose_spec};
use crate::markdown::naming::refused_view;
use crate::report::{Finding, FindingView, Report, ReportView};
use crate::runtime::{read_view, Tree, TreeError, TreeFault};
use crate::text::{chars_of, extend, extend_str, slice, starts_with_str, string_of, trim, trim_spec, views};
use vstd::prelude::*;

verus! {

/// The five sections, in the order they are written.
pub open spec fn spine_names() -> Seq<Seq<char>> {
    seq!["Repository Contract"@, "Ownership"@, "Required Workflow"@, "Authoring Rules"@, "Harnesses"@]
}

fn spine_texts() -> (r: Vec<&'static str>)
    ensures
        crate::cli::str_views(r@) == spine_names(),
{
    let r = vec!["Repository Contract", "Ownership", "Required Workflow", "Authoring Rules", "Harnesses"];
    assert(crate::cli::str_views(r@) =~= spine_names());
    r
}

/// The heading prefix a spine section is written with.
pub const LEVEL: &'static str = "## ";

/// The names of the level-two headings among prose lines, trimmed.
pub open spec fn sections_from(lines: Seq<(nat, Seq<char>)>) -> Seq<Seq<char>>
    decreases lines.len(),
{
    if lines.len() == 0 {
        Seq::empty()
    } else {
        let rest = sections_from(lines.drop_last());
        let line = lines.last().1;
        if LEVEL@.is_prefix_of(line) {
            rest.push(trim_spec(line.skip(LEVEL@.len() as int)))
        } else {
            rest
        }
    }
}

pub open spec fn sections_spec(text: Seq<char>) -> Seq<Seq<char>> {
    sections_from(prose_spec(text))
}

/// Where a name stands in the spine, if it is a spine section.
pub open spec fn position_of(name: Seq<char>) -> Option<nat> {
    if name == spine_names()[0] {
        Some(0)
    } else if name == spine_names()[1] {
        Some(1)
    } else if name == spine_names()[2] {
        Some(2)
    } else if name == spine_names()[3] {
        Some(3)
    } else if name == spine_names()[4] {
        Some(4)
    } else {
        None
    }
}

pub open spec fn missing_message(name: Seq<char>) -> Seq<char> {
    "declares no `"@ + name
        + "` section; the spine is five sections in one order, and a repository missing one has moved the fact somewhere a reader of another repository will not look"@
}

pub open spec fn plain(kind: Seq<char>, path: Seq<char>, message: Seq<char>) -> FindingView {
    FindingView { kind, path, line: None, column: None, field: None, message, details: Seq::empty() }
}

/// One finding for each of the first `k` spine sections the document does
/// not declare.
pub open spec fn missing_from(sections: Seq<Seq<char>>, canonical: Seq<char>, k: nat) -> Seq<FindingView>
    decreases k,
{
    if k == 0 {
        Seq::empty()
    } else {
        let name = spine_names()[k - 1];
        missing_from(sections, canonical, (k - 1) as nat) + if sections.contains(name) {
            Seq::empty()
        } else {
            seq![plain("missing-spine-section"@, canonical, missing_message(name))]
        }
    }
}

/// The first section written after part of the spine but before all of it,
/// reading from the front, given the furthest spine position seen so far.
pub open spec fn interruption(sections: Seq<Seq<char>>, highest: Option<nat>) -> Option<Seq<char>>
    decreases sections.len(),
{
    if sections.len() == 0 {
        None
    } else {
        let s = sections[0];
        match position_of(s) {
            Some(p) => interruption(
                sections.drop_first(),
                Some(
                    match highest {
                        Some(h) => if h < p {
                            p
                        } else {
                            h
                        },
                        None => p,
                    },
                ),
            ),
            None => if highest is Some && highest != Some(4nat) {
                Some(s)
            } else {
                interruption(sections.drop_first(), highest)
            },
        }
    }
}

/// The spine sections among the sections, each with its spine position.
pub open spec fn positioned(sections: Seq<Seq<char>>) -> Seq<(nat, Seq<char>)>
    decreases sections.len(),
{
    if sections.len() == 0 {
        Seq::empty()
    } else {
        let rest = positioned(sections.drop_last());
        match position_of(sections.last()) {
            Some(p) => rest.push((p, sections.last())),
            None => rest,
        }
    }
}

/// The first spine section written before one the spine puts ahead of it.
pub open spec fn misordered(positions: Seq<(nat, Seq<char>)>) -> Option<Seq<char>>
    decreases positions.len(),
{
    if positions.len() == 0 {
        None
    } else if exists|j: int| 0 < j < positions.len() && #[trigger] positions[j].0 < positions[0].0 {
        Some(positions[0].1)
    } else {
        misordered(positions.drop_first())
    }
}

/// What the spine check finds in a canonical body.
pub open spec fn spine_findings(text: Seq<char>, canonical: Seq<char>) -> Seq<FindingView> {
    let sections = sections_spec(text);
    missing_from(sections, canonical, 5) + match interruption(sections, None) {
        Some(s) => seq![
            plain(
                "interrupted-instruction-spine"@,
                canonical,
                "`"@ + s
                    + "` is written between spine sections; repository-specific sections follow the spine rather than divide it"@,
            ),
        ],
        None => Seq::empty(),
    } + match misordered(positioned(sections)) {
        Some(s) => seq![plain("misordered-spine-section"@, canonical, "`"@ + s + "` is out of spine order"@)],
        None => Seq::empty(),
    }
}

fn sections(text: &str) -> (r: Vec<Vec<char>>)
    ensures
        views(r@) == sections_spec(text@),
{
    let lines = prose_lines(text);
    let ghost lv = numbered_views(lines@);
    let mut r: Vec<Vec<char>> = Vec::new();
    let mut i: usize = 0;
    proof {
        reveal_strlit("## ");
    }
    while i < lines.len()
        invariant
            i <= lines.len(),
            lv == numbered_views(lines@),
            lv == prose_spec(text@),
            views(r@) == sections_from(lv.take(i as int)),
            LEVEL@.len() == 3,
        decreases lines.len() - i,
    {
        assert(lv.take(i + 1).drop_last() =~= lv.take(i as int));
        assert(lv.take(i + 1).last() == (lines@[i as int].0 as nat, lines@[i as int].1@));
        let line = chars_of(lines[i].1.as_str());
        if starts_with_str(&line, LEVEL) {
            let ghost before = views(r@);
            let name = trim(&slice(&line, 3, line.len()));
            assert(line@.subrange(3, line@.len() as int) =~= line@.skip(3));
            r.push(name);
            assert(views(r@) =~= before.push(trim_spec(line@.skip(3))));
        }
        i += 1;
    }
    assert(lv.take(lines.len() as int) =~= lv);
    r
}

fn position(name: &Vec<char>) -> (r: Option<usize>)
    ensures
        match r {
            Some(p) => position_of(name@) == Some(p as nat) && p < 5,
            None => position_of(name@) is None,
        },
{
    if crate::text::is(name, "Repository Contract") {
        Some(0)
    } else if crate::text::is(name, "Ownership") {
        Some(1)
    } else if crate::text::is(name, "Required Workflow") {
        Some(2)
    } else if crate::text::is(name, "Authoring Rules") {
        Some(3)
    } else if crate::text::is(name, "Harnesses") {
        Some(4)
    } else {
        None
    }
}

fn contains_name(list: &Vec<Vec<char>>, name: &str) -> (r: bool)
    ensures
        r == views(list@).contains(name@),
{
    let mut i: usize = 0;
    while i < list.len()
        invariant
            i <= list.len(),
            forall|k: int| 0 <= k < i ==> views(list@)[k] != name@,
        decreases list.len() - i,
    {
        if crate::text::is(&list[i], name) {
            assert(views(list@)[i as int] == name@);
            return true;
        }
        i += 1;
    }
    false
}

fn quoted(before: &str, name: &Vec<char>, after: &str) -> (r: String)
    ensures
        r@ == before@ + name@ + after@,
{
    let mut m = chars_of(before);
    extend(&mut m, name);
    extend_str(&mut m, after);
    string_of(&m)
}

/// The five sections, present, in order, and uninterrupted.
fn spine(text: &str, canonical: &str, report: &mut Report)
    ensures
        final(report)@ == (ReportView { findings: old(report)@.findings + spine_findings(text@, canonical@), ..old(report)@ }),
{
    let found = sections(text);
    let ghost sv = views(found@);
    let names = spine_texts();
    let ghost base = report@.findings;
    let mut k: usize = 0;
    while k < names.len()
        invariant
            k <= names.len(),
            sv == views(found@),
            crate::cli::str_views(names@) == spine_names(),
            report@ == (ReportView { findings: base + missing_from(sv, canonical@, k as nat), ..old(report)@ }),
        decreases names.len() - k,
    {
        let ghost before = report@.findings;
        assert(names@[k as int]@ == spine_names()[k as int]) by {
            assert(crate::cli::str_views(names@)[k as int] == names@[k as int]@);
        }
        if !contains_name(&found, names[k]) {
            let m = quoted(
                "declares no `",
                &chars_of(names[k]),
                "` section; the spine is five sections in one order, and a repository missing one has moved the fact somewhere a reader of another repository will not look",
            );
            report.found(Finding::new("missing-spine-section", canonical, m.as_str()));
            assert(report@.findings =~= base + missing_from(sv, canonical@, (k + 1) as nat));
        } else {
            assert(base + missing_from(sv, canonical@, k as nat) + Seq::<FindingView>::empty() =~= base + missing_from(sv, canonical@, (k + 1) as nat));
        }
        k += 1;
    }
    assert(names@.len() == 5) by {
        assert(crate::cli::str_views(names@).len() == spine_names().len());
    }
    let ghost after_missing = report@.findings;
    assert(after_missing == base + missing_from(sv, canonical@, 5));
    // Interruption, reading the sections from the front.
    let mut highest: Option<usize> = None;
    let mut i: usize = 0;
    let mut interrupted = false;
    assert(sv.skip(0) =~= sv);
    while i < found.len()
        invariant_except_break
            i <= found.len(),
            !interrupted,
            report@.findings == after_missing,
            interruption(sv, None) == interruption(sv.skip(i as int), match highest {
                Some(h) => Some(h as nat),
                None => None,
            }),
            match highest {
                Some(h) => h < 5,
                None => true,
            },
        invariant
            report@ == (ReportView { findings: report@.findings, ..old(report)@ }),
            sv == views(found@),
        ensures
            report@.findings == after_missing + match interruption(sv, None) {
                Some(s) => seq![
                    plain(
                        "interrupted-instruction-spine"@,
                        canonical@,
                        "`"@ + s
                            + "` is written between spine sections; repository-specific sections follow the spine rather than divide it"@,
                    ),
                ],
                None => Seq::empty(),
            },
        decreases found.len() - i,
    {
        assert(sv.skip(i as int).drop_first() =~= sv.skip(i + 1));
        assert(sv.skip(i as int)[0] == found@[i as int]@);
        match position(&found[i]) {
            Some(p) => {
                highest = match highest {
                    Some(h) => if h < p {
                        Some(p)
                    } else {
                        Some(h)
                    },
                    None => Some(p),
                };
            },
            None => {
                let complete = match highest {
                    Some(h) => h + 1 == 5,
                    None => false,
                };
                if highest.is_some() && !complete {
                    let m = quoted(
                        "`",
                        &found[i],
                        "` is written between spine sections; repository-specific sections follow the spine rather than divide it",
                    );
                    report.found(Finding::new("interrupted-instruction-spine", canonical, m.as_str()));
                    interrupted = true;
                    break;
                }
            },
        }
        i += 1;
    }
    let ghost after_interruption = report@.findings;
    // Order: the first spine section written before one the spine puts
    // ahead of it.
    let mut positions: Vec<(usize, usize)> = Vec::new();
    let mut j: usize = 0;
    while j < found.len()
        invariant
            j <= found.len(),
            report@.findings == after_interruption,
            report@ == (ReportView { findings: report@.findings, ..old(report)@ }),
            sv == views(found@),
            positioned(sv.take(j as int)) == Seq::new(positions@.len(), |q: int| (positions@[q].0 as nat, sv[positions@[q].1 as int])),
            forall|q: int| 0 <= q < positions@.len() ==> positions@[q].1 < found.len() && positions@[q].0 < 5,
        decreases found.len() - j,
    {
        assert(sv.take(j + 1).drop_last() =~= sv.take(j as int));
        assert(sv.take(j + 1).last() == sv[j as int]);
        match position(&found[j]) {
            Some(p) => {
                positions.push((p, j));
            },
            None => {},
        }
        assert(positioned(sv.take(j + 1)) =~= Seq::new(positions@.len(), |q: int| (positions@[q].0 as nat, sv[positions@[q].1 as int])));
        j += 1;
    }
    assert(sv.take(found.len() as int) =~= sv);
    let ghost pv = Seq::new(positions@.len(), |q: int| (positions@[q].0 as nat, sv[positions@[q].1 as int]));
    let mut a: usize = 0;
    assert(pv.skip(0) =~= pv);
    while a < positions.len()
        invariant_except_break
            a <= positions.len(),
            misordered(pv) == misordered(pv.skip(a as int)),
            report@.findings == after_interruption,
        invariant
            report@ == (ReportView { findings: report@.findings, ..old(report)@ }),
            pv == Seq::new(positions@.len(), |q: int| (positions@[q].0 as nat, sv[positions@[q].1 as int])),
            forall|q: int| 0 <= q < positions@.len() ==> positions@[q].1 < found.len(),
            sv == views(found@),
        ensures
            report@.findings == after_interruption + match misordered(pv) {
                Some(s) => seq![plain("misordered-spine-section"@, canonical@, "`"@ + s + "` is out of spine order"@)],
                None => Seq::empty(),
            },
        decreases positions.len() - a,
    {
        let mut later = false;
        let mut b: usize = a + 1;
        while b < positions.len()
            invariant
                a < b <= positions.len(),
                pv == Seq::new(positions@.len(), |q: int| (positions@[q].0 as nat, sv[positions@[q].1 as int])),
                later == exists|q: int| a < q < b && #[trigger] pv[q].0 < pv[a as int].0,
            decreases positions.len() - b,
        {
            if positions[b].0 < positions[a].0 {
                later = true;
                assert(pv[b as int].0 < pv[a as int].0);
            } else {
                assert(!(pv[b as int].0 < pv[a as int].0));
            }
            b += 1;
        }
        let ghost rest = pv.skip(a as int);
        assert(later == exists|q: int| 0 < q < rest.len() && #[trigger] rest[q].0 < rest[0].0) by {
            if later {
                let q = choose|q: int| a < q < positions.len() && pv[q].0 < pv[a as int].0;
                assert(rest[q - a].0 < rest[0].0);
            }
            if exists|q: int| 0 < q < rest.len() && #[trigger] rest[q].0 < rest[0].0 {
                let q = choose|q: int| 0 < q < rest.len() && #[trigger] rest[q].0 < rest[0].0;
                assert(pv[q + a].0 < pv[a as int].0);
            }
        }
        if later {
            let m = quoted("`", &found[positions[a].1], "` is out of spine order");
            report.found(Finding::new("misordered-spine-section", canonical, m.as_str()));
            break;
        }
        assert(rest.drop_first() =~= pv.skip(a + 1));
        a += 1;
    }
    assert(report@.findings =~= base + spine_findings(text@, canonical@));
}

pub const MISSING_CANONICAL: &'static str = "is not there; every repository keeps one canonical instruction body, and every harness reaches it";

pub open spec fn inexact_message(canonical: Seq<char>) -> Seq<char> {
    "is not exactly `@"@ + canonical
        + "`; the exact import is the terminal state, reached after every statement it used to carry received a disposition"@
}

/// A refusal for a read of `path` that failed other than by absence.
pub open spec fn refusal_for(path: Seq<char>, fault: TreeFault) -> ReportView {
    refused_view(
        "governance-instructions"@,
        path + ": "@ + match fault {
            TreeFault::Unreadable(reason) => reason,
            _ => "holds no text"@,
        },
    )
}

/// What the check answers, given what reading the canonical body and, when
/// that was there, the import gave.
pub open spec fn instructions_report(
    canonical: Seq<char>,
    import: Seq<char>,
    body: Result<Seq<char>, TreeFault>,
    imported: Result<Seq<char>, TreeFault>,
) -> ReportView {
    let fresh = ReportView {
        category: "governance-instructions"@,
        subject: "instruction"@,
        inspected: 0,
        scanned: Seq::empty(),
        notes: Seq::empty(),
        measurements: Seq::empty(),
        findings: Seq::empty(),
        refusal: None,
    };
    match body {
        Err(TreeFault::NotFound) => ReportView {
            inspected: 1,
            findings: seq![plain("missing-canonical-instruction"@, canonical, MISSING_CANONICAL@)],
            ..fresh
        },
        Err(fault) => refusal_for(canonical, fault),
        Ok(text) => match imported {
            Err(TreeFault::NotFound) => ReportView { inspected: 1, findings: spine_findings(text, canonical), ..fresh },
            Err(fault) => refusal_for(import, fault),
            Ok(i) => ReportView {
                inspected: 2,
                findings: spine_findings(text, canonical) + if trim_spec(i) == "@"@ + canonical {
                    Seq::empty()
                } else {
                    seq![plain("inexact-instruction-import"@, import, inexact_message(canonical))]
                },
                ..fresh
            },
        },
    }
}

fn refuse(path: &str, error: TreeError) -> (r: Report)
    requires
        !(error is NotFound),
    ensures
        r@ == refusal_for(path@, error@),
{
    let mut m = chars_of(path);
    extend_str(&mut m, ": ");
    match error {
        TreeError::Unreadable(reason) => extend_str(&mut m, reason.as_str()),
        _ => extend_str(&mut m, "holds no text"),
    }
    Report::refused("governance-instructions", string_of(&m).as_str())
}

/// The report for what reading the canonical body and the import gave;
/// the import's answer counts only where the body was read.
pub fn answer(canonical: &'static str, import: &'static str, body: Result<String, TreeError>, imported: Result<String, TreeError>) -> (r: Report)
    ensures
        r@ == instructions_report(canonical@, import@, read_view(body), read_view(imported)),
{
    let ghost bv = read_view(body);
    let ghost iv = read_view(imported);
    let mut report = Report::new("governance-instructions", "instruction");
    let text = match body {
        Ok(text) => text,
        Err(TreeError::NotFound) => {
            report.inspected_one();
            report.found(Finding::new("missing-canonical-instruction", canonical, MISSING_CANONICAL));
            assert(report@ == instructions_report(canonical@, import@, bv, iv));
            return report;
        },
        Err(error) => {
            let r = refuse(canonical, error);
            assert(r@ == instructions_report(canonical@, import@, bv, iv));
            return r;
        },
    };
    report.inspected_one();
    spine(text.as_str(), canonical, &mut report);
    let ghost checked = report@;
    assert(checked.findings =~= spine_findings(text@, canonical@));
    match imported {
        Ok(i) => {
            report.inspected_one();
            assert(report@.findings + Seq::<FindingView>::empty() =~= report@.findings);
            let mut expected = chars_of("@");
            extend_str(&mut expected, canonical);
            assert(expected@ =~= "@"@ + canonical@);
            if !crate::text::same(&trim(&chars_of(i.as_str())), &expected) {
                let mut m = chars_of("is not exactly `@");
                extend_str(&mut m, canonical);
                extend_str(
                    &mut m,
                    "`; the exact import is the terminal state, reached after every statement it used to carry received a disposition",
                );
                assert(m@ =~= inexact_message(canonical@));
                report.found(Finding::new("inexact-instruction-import", import, string_of(&m).as_str()));
                assert(report@.findings =~= checked.findings + seq![
                    plain("inexact-instruction-import"@, import@, inexact_message(canonical@)),
                ]);
            }
        },
        Err(TreeError::NotFound) => {},
        Err(error) => {
            let r = refuse(import, error);
            assert(r@ == instructions_report(canonical@, import@, bv, iv));
            return r;
        },
    }
    assert(report@ == instructions_report(canonical@, import@, bv, iv));
    report
}

/// Checks the canonical instruction body at `canonical` for its spine, and
/// the file at `import`, when there is one, for being exactly an import of
/// it. The import is read only once the body has been.
pub fn validate<T: Tree>(tree: &T, canonical: &'static str, import: &'static str) -> (r: Report)
    ensures
        exists|body: Result<Seq<char>, TreeFault>, imported: Result<Seq<char>, TreeFault>|
            tree.reads_as(canonical@, body) && (body is Ok ==> tree.reads_as(import@, imported)) && r@
                == #[trigger] instructions_report(canonical@, import@, body, imported),
{
    let body = tree.read(canonical);
    let imported = match &body {
        Ok(_) => tree.read(import),
        Err(_) => Err(TreeError::NotFound),
    };
    let ghost bv = read_view(body);
    let ghost iv = read_view(imported);
    assert(tree.reads_as(canonical@, bv));
    assert(bv is Ok ==> tree.reads_as(import@, iv));
    let r = answer(canonical, import, body, imported);
    assert(r@ == instructions_report(canonical@, import@, bv, iv));
    r
}

proof fn lemma_missing_bounded(sections: Seq<Seq<char>>, canonical: Seq<char>, k: nat)
    ensures
        missing_from(sections, canonical, k).len() <= k,
    decreases k,
{
    if k > 0 {
        lemma_missing_bounded(sections, canonical, (k - 1) as nat);
    }
}

/// The spine check names each missing section once, and an interruption
/// and a misordering at most once each: seven findings at most, whatever
/// the document holds.
pub proof fn lemma_spine_findings_bounded(text: Seq<char>, canonical: Seq<char>)
    ensures
        spine_findings(text, canonical).len() <= 7,
{
    lemma_missing_bounded(sections_spec(text), canonical, 5);
}

} // verus!
