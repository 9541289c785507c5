//! Acceptance identifiers, defined once and cited only where defined.
//!
//! The identifier is the only thread between what a plan promised and what
//! its checklist claims to have delivered. A duplicate definition makes the
//! thread ambiguous; a citation with no definition makes it break.
use super::documents::located;
use super::{refusal, refuse, Plan, PlanView};
use crate::markdown::{numbered_views, prose_lines, prose_spec};
use crate::report::{Finding, FindingView, Report, ReportView};
use crate::runtime::{read_view, Tree, TreeError, TreeFault};
use crate::text::{
    chars_of, extend_str, find_from, is_digit, is_upper, lines, lines_spec, split_once, split_once_spec, starts_with_str,
    string_of, trim_start, trim_start_spec, views,
};
use vstd::prelude::*;

verus! {

pub const DEFINITIONS: &'static str = "prd.md";

pub const CITATIONS: &'static str = "delivery.md";

pub proof fn lemma_found_within(s: Seq<char>, p: Seq<char>, k: nat)
    ensures
        find_from(s, p, k) matches Some(j) ==> k <= j && j + p.len() <= s.len(),
    decreases s.len() + 1 - k,
{
    if k + p.len() <= s.len() && s.subrange(k as int, (k + p.len()) as int) != p {
        lemma_found_within(s, p, k + 1);
    }
}

/// Whether a bracketed candidate is shaped like an acceptance identifier:
/// uppercase letters, a hyphen, digits.
pub open spec fn is_identifier(candidate: Seq<char>) -> bool {
    match split_once_spec(candidate, seq!['-']) {
        Some((letters, digits)) => letters.len() > 0 && (forall|i: int| 0 <= i < letters.len() ==> is_upper(#[trigger] letters[i]))
            && digits.len() > 0 && (forall|i: int| 0 <= i < digits.len() ==> is_digit(#[trigger] digits[i])),
        None => false,
    }
}

/// Every bracketed acceptance identifier in a text, left to right. A `[`
/// that nothing closes ends the reading.
pub open spec fn identifiers_spec(rest: Seq<char>) -> Seq<Seq<char>>
    decreases rest.len(),
{
    match split_once_spec(rest, seq!['[']) {
        None => Seq::empty(),
        Some((_, after)) => {
            let (candidate, remainder) = match split_once_spec(after, seq![']']) {
                Some(pair) => pair,
                None => (Seq::empty(), Seq::empty()),
            };
            proof {
                lemma_found_within(rest, seq!['['], 0);
                lemma_found_within(after, seq![']'], 0);
            }
            (if is_identifier(candidate) {
                seq![candidate]
            } else {
                Seq::empty()
            }) + identifiers_spec(remainder)
        },
    }
}

#[verifier::loop_isolation(false)]
fn is_identifier_text(candidate: &Vec<char>) -> (r: bool)
    ensures
        r == is_identifier(candidate@),
{
    let hyphen = chars_of("-");
    proof {
        reveal_strlit("-");
    }
    assert(hyphen@ =~= seq!['-']);
    match split_once(candidate, &hyphen) {
        None => false,
        Some((letters, digits)) => {
            if letters.len() == 0 || digits.len() == 0 {
                return false;
            }
            let mut i: usize = 0;
            while i < letters.len()
                invariant
                    i <= letters.len(),
                    forall|k: int| 0 <= k < i ==> is_upper(#[trigger] letters@[k]),
                decreases letters.len() - i,
            {
                if !('A' <= letters[i] && letters[i] <= 'Z') {
                    assert(!is_upper(letters@[i as int]));
                    return false;
                }
                i += 1;
            }
            let mut j: usize = 0;
            while j < digits.len()
                invariant
                    j <= digits.len(),
                    forall|k: int| 0 <= k < j ==> is_digit(#[trigger] digits@[k]),
                decreases digits.len() - j,
            {
                if !('0' <= digits[j] && digits[j] <= '9') {
                    assert(!is_digit(digits@[j as int]));
                    return false;
                }
                j += 1;
            }
            true
        },
    }
}

fn identifiers(line: &Vec<char>) -> (r: Vec<Vec<char>>)
    ensures
        views(r@) == identifiers_spec(line@),
{
    let open = chars_of("[");
    let close = chars_of("]");
    proof {
        reveal_strlit("[");
        reveal_strlit("]");
    }
    assert(open@ =~= seq!['[']);
    assert(close@ =~= seq![']']);
    let mut found: Vec<Vec<char>> = Vec::new();
    let mut rest = crate::text::slice(line, 0, line.len());
    assert(rest@ =~= line@);
    loop
        invariant
            open@ == seq!['['],
            close@ == seq![']'],
            identifiers_spec(line@) == views(found@) + identifiers_spec(rest@),
        decreases rest@.len(),
    {
        match split_once(&rest, &open) {
            None => {
                assert(views(found@) + Seq::<Seq<char>>::empty() =~= views(found@));
                return found;
            },
            Some((_, after)) => {
                proof {
                    lemma_found_within(rest@, seq!['['], 0);
                    lemma_found_within(after@, seq![']'], 0);
                }
                let (candidate, remainder) = match split_once(&after, &close) {
                    Some(pair) => pair,
                    None => (Vec::new(), Vec::new()),
                };
                let ghost before = views(found@);
                if is_identifier_text(&candidate) {
                    let ghost cv = candidate@;
                    found.push(candidate);
                    assert(views(found@) =~= before + seq![cv]);
                    assert(before + (seq![cv] + identifiers_spec(remainder@)) =~= views(found@) + identifiers_spec(remainder@));
                } else {
                    assert(before + (Seq::<Seq<char>>::empty() + identifiers_spec(remainder@)) =~= views(found@) + identifiers_spec(remainder@));
                }
                rest = remainder;
            },
        }
    }
}

/// Duplicate definitions among one line's identifiers, given those already
/// defined.
pub open spec fn definitions_of(ids: Seq<Seq<char>>, seen: Set<Seq<char>>, path: Seq<char>, line: nat) -> (Set<Seq<char>>, Seq<FindingView>)
    decreases ids.len(),
{
    if ids.len() == 0 {
        (seen, Seq::empty())
    } else {
        let (s, found) = definitions_of(ids.drop_last(), seen, path, line);
        let id = ids.last();
        if s.contains(id) {
            (s, found.push(located("PLAN-CRITERION-001"@, path, "acceptance identifier is defined more than once"@, line, id)))
        } else {
            (s.insert(id), found)
        }
    }
}

/// The identifiers `Scenario:` lines define, and the duplicate definitions.
pub open spec fn definitions(ls: Seq<Seq<char>>, path: Seq<char>) -> (Set<Seq<char>>, Seq<FindingView>)
    decreases ls.len(),
{
    if ls.len() == 0 {
        (Set::empty(), Seq::empty())
    } else {
        let (seen, found) = definitions(ls.drop_last(), path);
        let line = ls.last();
        if "Scenario:"@.is_prefix_of(trim_start_spec(line)) {
            let (s, more) = definitions_of(identifiers_spec(line), seen, path, ls.len());
            (s, found + more)
        } else {
            (seen, found)
        }
    }
}

/// Citations of identifiers nothing defines, over prose lines.
pub open spec fn citations(ls: Seq<(nat, Seq<char>)>, defined: Set<Seq<char>>, path: Seq<char>) -> Seq<FindingView>
    decreases ls.len(),
{
    if ls.len() == 0 {
        Seq::empty()
    } else {
        let (number, line) = ls.last();
        let ids = identifiers_spec(line);
        citations(ls.drop_last(), defined, path) + undefined(ids, defined, path, number)
    }
}

pub open spec fn undefined(ids: Seq<Seq<char>>, defined: Set<Seq<char>>, path: Seq<char>, number: nat) -> Seq<FindingView>
    decreases ids.len(),
{
    if ids.len() == 0 {
        Seq::empty()
    } else {
        undefined(ids.drop_last(), defined, path, number) + if defined.contains(ids.last()) {
            Seq::empty()
        } else {
            seq![
                located(
                    "PLAN-CRITERION-002"@,
                    path,
                    "delivery item cites an undefined acceptance identifier"@,
                    number,
                    ids.last(),
                ),
            ]
        }
    }
}

/// What the criteria rules find, given the requirements document and the
/// checklist, when there is one.
pub open spec fn criteria_findings(plan: PlanView, requirements: Seq<char>, checklist: Option<Seq<char>>) -> Seq<FindingView> {
    let (defined, duplicates) = definitions(lines_spec(requirements), plan.path + seq!['/'] + DEFINITIONS@);
    duplicates + match checklist {
        Some(text) => citations(prose_spec(text), defined, plan.path + seq!['/'] + CITATIONS@),
        None => Seq::empty(),
    }
}

fn set_holds(list: &Vec<Vec<char>>, x: &Vec<char>) -> (r: bool)
    ensures
        r == views(list@).contains(x@),
{
    let mut i: usize = 0;
    while i < list.len()
        invariant
            i <= list.len(),
            forall|k: int| 0 <= k < i ==> views(list@)[k] != x@,
        decreases list.len() - i,
    {
        if crate::text::same(&list[i], x) {
            assert(views(list@)[i as int] == x@);
            return true;
        }
        i += 1;
    }
    false
}

/// Checks that every acceptance identifier is defined once, and that the
/// checklist cites only defined ones. Nothing is checked where the
/// requirements document is absent; a read that fails otherwise refuses.
pub fn inspect<T: Tree>(tree: &T, plan: &Plan, checklist: Option<&str>, report: &mut Report) -> (r: Result<(), Box<Report>>)
    ensures
        exists|answer: Result<Seq<char>, TreeFault>|
            tree.reads_as(plan@.path + seq!['/'] + DEFINITIONS@, answer) && match #[trigger] criteria_outcome(
                plan@,
                answer,
                text_view(checklist),
            ) {
                Ok(found) => r is Ok && final(report)@ == (ReportView { findings: old(report)@.findings + found, ..old(report)@ }),
                Err(v) => r matches Err(refused) && refused@ == v,
            },
{
    let mut path = chars_of(plan.path.as_str());
    path.push('/');
    extend_str(&mut path, DEFINITIONS);
    assert(path@ =~= plan@.path + seq!['/'] + DEFINITIONS@);
    let requirements = string_of(&path);
    let answer = tree.read(requirements.as_str());
    let ghost a = read_view(answer);
    assert(tree.reads_as(plan@.path + seq!['/'] + DEFINITIONS@, a));
    let text = match answer {
        Ok(text) => text,
        Err(TreeError::NotFound) => {
            assert(report@.findings + Seq::<FindingView>::empty() =~= report@.findings);
            assert(criteria_outcome(plan@, a, text_view(checklist)) == Ok::<Seq<FindingView>, ReportView>(Seq::empty()));
            return Ok(());
        },
        Err(error) => {
            return Err(Box::new(refuse(requirements.as_str(), &error)));
        },
    };
    let ls = lines(&chars_of(text.as_str()));
    let ghost lv = views(ls@);
    let ghost base = report@.findings;
    let mut seen: Vec<Vec<char>> = Vec::new();
    let mut i: usize = 0;
    while i < ls.len()
        invariant
            i <= ls.len(),
            lv == views(ls@),
            lv == lines_spec(text@),
            requirements@ == plan@.path + seq!['/'] + DEFINITIONS@,
            views(seen@).to_set() == definitions(lv.take(i as int), requirements@).0,
            report@ == (ReportView { findings: base + definitions(lv.take(i as int), requirements@).1, ..old(report)@ }),
        decreases ls.len() - i,
    {
        assert(lv.take(i + 1).drop_last() =~= lv.take(i as int));
        assert(lv.take(i + 1).last() == ls@[i as int]@);
        if starts_with_str(&trim_start(&ls[i]), "Scenario:") {
            let ids = identifiers(&ls[i]);
            let ghost iv = views(ids@);
            let ghost start = views(seen@).to_set();
            let ghost before = report@.findings;
            let mut j: usize = 0;
            while j < ids.len()
                invariant
                    j <= ids.len(),
                    i < ls.len(),
                    iv == views(ids@),
                    views(seen@).to_set() == definitions_of(iv.take(j as int), start, requirements@, (i + 1) as nat).0,
                    report@ == (ReportView {
                        findings: before + definitions_of(iv.take(j as int), start, requirements@, (i + 1) as nat).1,
                        ..old(report)@
                    }),
                decreases ids.len() - j,
            {
                assert(iv.take(j + 1).drop_last() =~= iv.take(j as int));
                assert(iv.take(j + 1).last() == ids@[j as int]@);
                if set_holds(&seen, &ids[j]) {
                    report.found(
                        Finding::new(
                            "PLAN-CRITERION-001",
                            requirements.as_str(),
                            "acceptance identifier is defined more than once",
                        ).at(i + 1, 1).about(string_of(&ids[j]).as_str()),
                    );
                } else {
                    let ghost prior = views(seen@);
                    let copy = crate::text::slice(&ids[j], 0, ids[j].len());
                    assert(copy@ =~= ids@[j as int]@);
                    seen.push(copy);
                    assert(views(seen@) =~= prior.push(ids@[j as int]@));
                    proof {
                        crate::text::lemma_push_to_set(prior, ids@[j as int]@);
                    }
                }
                j += 1;
            }
            assert(iv.take(ids.len() as int) =~= iv);
            assert(report@.findings =~= base + definitions(lv.take(i + 1), requirements@).1);
        }
        i += 1;
    }
    assert(lv.take(ls.len() as int) =~= lv);
    let ghost defined = views(seen@).to_set();
    match checklist {
        None => {
            assert(report@.findings =~= base + criteria_findings(plan@, text@, None));
            Ok(())
        },
        Some(c) => {
            let mut cpath = chars_of(plan.path.as_str());
            cpath.push('/');
            extend_str(&mut cpath, CITATIONS);
            assert(cpath@ =~= plan@.path + seq!['/'] + CITATIONS@);
            let prose = prose_lines(c);
            let ghost pv = numbered_views(prose@);
            let ghost mid = report@.findings;
            let mut k: usize = 0;
            while k < prose.len()
                invariant
                    k <= prose.len(),
                    pv == numbered_views(prose@),
                    pv == prose_spec(c@),
                    defined == views(seen@).to_set(),
                    cpath@ == plan@.path + seq!['/'] + CITATIONS@,
                    report@ == (ReportView { findings: mid + citations(pv.take(k as int), defined, cpath@), ..old(report)@ }),
                decreases prose.len() - k,
            {
                assert(pv.take(k + 1).drop_last() =~= pv.take(k as int));
                assert(pv.take(k + 1).last() == (prose@[k as int].0 as nat, prose@[k as int].1@));
                let ids = identifiers(&chars_of(prose[k].1.as_str()));
                let ghost iv = views(ids@);
                let ghost before = report@.findings;
                let number = prose[k].0;
                let mut j: usize = 0;
                while j < ids.len()
                    invariant
                        j <= ids.len(),
                        iv == views(ids@),
                        defined == views(seen@).to_set(),
                        report@ == (ReportView { findings: before + undefined(iv.take(j as int), defined, cpath@, number as nat), ..old(report)@ }),
                    decreases ids.len() - j,
                {
                    assert(iv.take(j + 1).drop_last() =~= iv.take(j as int));
                    assert(iv.take(j + 1).last() == ids@[j as int]@);
                    if !set_holds(&seen, &ids[j]) {
                        report.found(
                            Finding::new(
                                "PLAN-CRITERION-002",
                                string_of(&cpath).as_str(),
                                "delivery item cites an undefined acceptance identifier",
                            ).at(number, 1).about(string_of(&ids[j]).as_str()),
                        );
                        assert(report@.findings =~= before + undefined(iv.take(j + 1), defined, cpath@, number as nat));
                    } else {
                        assert(before + undefined(iv.take(j as int), defined, cpath@, number as nat) =~= before + undefined(iv.take(j + 1), defined, cpath@, number as nat));
                    }
                    j += 1;
                }
                assert(iv.take(ids.len() as int) =~= iv);
                assert(report@.findings =~= mid + citations(pv.take(k + 1), defined, cpath@));
                k += 1;
            }
            assert(pv.take(prose.len() as int) =~= pv);
            assert(report@.findings =~= base + criteria_findings(plan@, text@, Some(c@)));
            Ok(())
        },
    }
}

/// A checklist's text, where there is one.
pub open spec fn text_view(checklist: Option<&str>) -> Option<Seq<char>> {
    match checklist {
        Some(c) => Some(c@),
        None => None,
    }
}

/// What the criteria rules answer, given what reading the requirements
/// gave: nothing where they are absent, and a refusal where they could not
/// be read.
pub open spec fn criteria_outcome(plan: PlanView, answer: Result<Seq<char>, TreeFault>, checklist: Option<Seq<char>>) -> Result<Seq<FindingView>, ReportView> {
    match answer {
        Err(TreeFault::NotFound) => Ok(Seq::empty()),
        Err(fault) => Err(refusal(plan.path + seq!['/'] + DEFINITIONS@, fault)),
        Ok(text) => Ok(criteria_findings(plan, text, checklist)),
    }
}

} // verus!
