//! The delivery checklist: who executes each item, and what order the
//! phases run in.
//!
//! `delivery.md` is a document and not a table, so two things are decided
//! first: which of its bullets are checklist items, and which of its
//! sections are phases. A section that neither names itself a phase nor
//! holds an item is one of the declarations the contract requires before
//! the phases.
use super::documents::located;
use super::{Plan, PlanView};
use crate::markdown::{numbered_views, prose_lines, prose_spec};
use crate::report::{Finding, FindingView, Report, ReportView};
use crate::text::{chars_of, slice, split_once, split_once_spec, starts_with_str, string_of, trim, trim_spec};
use vstd::prelude::*;

verus! {

pub const CHECKLIST: &'static str = "delivery.md";

/// The heading that opens the archival section, which carries no phase
/// number because it is not a phase.
pub const ARCHIVAL: &'static str = "Plan Archival";

/// The prefix a phase heading carries.
pub const PHASE: &'static str = "Phase ";

pub const HEADING: &'static str = "## ";

/// What a bullet in the checklist turned out to be.
pub enum Bullet {
    /// A markdown link: never an item.
    Link,
    /// A bullet naming neither a checkbox nor a label.
    Bare,
    /// A checklist item whose checkbox is present and whose label is not.
    Unlabelled,
    /// A checklist item and the label it names.
    Labelled(String),
}

pub ghost enum BulletView {
    Link,
    Bare,
    Unlabelled,
    Labelled(Seq<char>),
}

impl View for Bullet {
    type V = BulletView;

    open spec fn view(&self) -> BulletView {
        match self {
            Bullet::Link => BulletView::Link,
            Bullet::Bare => BulletView::Bare,
            Bullet::Unlabelled => BulletView::Unlabelled,
            Bullet::Labelled(l) => BulletView::Labelled(l@),
        }
    }
}

/// The text after a task-list checkbox, when the item opens with one.
pub open spec fn marker_spec(item: Seq<char>) -> Option<Seq<char>> {
    if "[ ] "@.is_prefix_of(item) || "[x] "@.is_prefix_of(item) || "[X] "@.is_prefix_of(item) {
        Some(item.skip(4))
    } else {
        None
    }
}

/// The bracketed label an item opens with: `None` for none, `Some(None)`
/// for a link, `Some(Some(label))` for a label.
pub open spec fn label_spec(item: Seq<char>) -> Option<Option<Seq<char>>> {
    if item.len() > 0 && item[0] == '[' {
        match split_once_spec(item.skip(1), seq![']']) {
            Some((label, after)) => if after.len() > 0 && after[0] == '(' {
                Some(None)
            } else {
                Some(Some(label))
            },
            None => None,
        }
    } else {
        None
    }
}

/// Read one bullet: an optional checkbox, an optional backquote, then the
/// executor label. A code-formatted label without a checkbox is prose.
pub open spec fn classify_spec(item: Seq<char>) -> BulletView {
    let marked = marker_spec(item) is Some;
    let rest = match marker_spec(item) {
        Some(r) => r,
        None => item,
    };
    let quoted = rest.len() > 0 && rest[0] == '`';
    let rest = if quoted {
        rest.skip(1)
    } else {
        rest
    };
    if quoted && !marked {
        BulletView::Bare
    } else {
        match label_spec(rest) {
            Some(None) => BulletView::Link,
            Some(Some(label)) => BulletView::Labelled(label),
            None => if marked {
                BulletView::Unlabelled
            } else {
                BulletView::Bare
            },
        }
    }
}

fn classify(item: &Vec<char>) -> (r: Bullet)
    ensures
        r@ == classify_spec(item@),
{
    proof {
        reveal_strlit("[ ] ");
        reveal_strlit("[x] ");
        reveal_strlit("[X] ");
    }
    let marked = starts_with_str(item, "[ ] ") || starts_with_str(item, "[x] ") || starts_with_str(item, "[X] ");
    let rest = if marked {
        let r = slice(item, 4, item.len());
        assert(r@ =~= item@.skip(4));
        r
    } else {
        slice(item, 0, item.len())
    };
    assert(!marked ==> rest@ =~= item@);
    let quoted = rest.len() > 0 && rest[0] == '`';
    let rest = if quoted {
        let r = slice(&rest, 1, rest.len());
        assert(r@ =~= rest@.skip(1));
        r
    } else {
        rest
    };
    if quoted && !marked {
        return Bullet::Bare;
    }
    let label = if rest.len() > 0 && rest[0] == '[' {
        let inner = slice(&rest, 1, rest.len());
        assert(inner@ =~= rest@.skip(1));
        let close = chars_of("]");
        proof {
            reveal_strlit("]");
        }
        assert(close@ =~= seq![']']);
        match split_once(&inner, &close) {
            Some((label, after)) => {
                if after.len() > 0 && after[0] == '(' {
                    Some(None)
                } else {
                    Some(Some(label))
                }
            },
            None => None,
        }
    } else {
        None
    };
    match label {
        Some(None) => Bullet::Link,
        Some(Some(l)) => Bullet::Labelled(string_of(&l)),
        None => if marked {
            Bullet::Unlabelled
        } else {
            Bullet::Bare
        },
    }
}

/// One `## ` section of the checklist.
pub ghost struct SectionView {
    pub heading: Option<(nat, Seq<char>)>,
    pub bullets: Seq<(nat, BulletView)>,
}

/// The sections of the checklist's prose: those closed so far, and the one
/// still open.
pub open spec fn sections_from(lines: Seq<(nat, Seq<char>)>) -> (Seq<SectionView>, SectionView)
    decreases lines.len(),
{
    if lines.len() == 0 {
        (Seq::empty(), SectionView { heading: None, bullets: Seq::empty() })
    } else {
        let (done, current) = sections_from(lines.drop_last());
        let (number, line) = lines.last();
        if HEADING@.is_prefix_of(line) {
            (done.push(current), SectionView { heading: Some((number, trim_spec(line.skip(3)))), bullets: Seq::empty() })
        } else if "- "@.is_prefix_of(line) {
            (done, SectionView { bullets: current.bullets.push((number, classify_spec(line.skip(2)))), ..current })
        } else {
            (done, current)
        }
    }
}

pub open spec fn sections_spec(text: Seq<char>) -> Seq<SectionView> {
    let (done, current) = sections_from(prose_spec(text));
    done.push(current)
}

/// Whether a section holds anything recognisably a checklist item.
pub open spec fn holds_items(s: SectionView) -> bool {
    exists|i: int|
        0 <= i < s.bullets.len() && (#[trigger] s.bullets[i].1 is Unlabelled || s.bullets[i].1 is Labelled)
}

/// Whether a phase heading carries a number, in `Phase <n>` form.
pub open spec fn numbered_spec(heading: Seq<char>) -> bool {
    PHASE@.is_prefix_of(heading) && heading.len() > 6 && crate::text::is_digit(heading[6])
}

/// The label rules against one phase's items.
pub open spec fn item_findings(bullets: Seq<(nat, BulletView)>, path: Seq<char>) -> Seq<FindingView>
    decreases bullets.len(),
{
    if bullets.len() == 0 {
        Seq::empty()
    } else {
        let (number, bullet) = bullets.last();
        item_findings(bullets.drop_last(), path) + match bullet {
            BulletView::Link => Seq::empty(),
            BulletView::Bare | BulletView::Unlabelled => seq![
                located("PLAN-DELIVERY-001"@, path, "checklist item carries no executor label"@, number, "-"@),
            ],
            BulletView::Labelled(label) => if label == "AI"@ || label == "HUMAN"@ {
                Seq::empty()
            } else {
                seq![located("PLAN-DELIVERY-002"@, path, "executor label is not AI or HUMAN"@, number, label)]
            },
        }
    }
}

/// How many substantive phases the sections hold, and what the delivery
/// rules find in them.
pub open spec fn phases(sections: Seq<SectionView>, path: Seq<char>) -> (nat, Seq<FindingView>)
    decreases sections.len(),
{
    if sections.len() == 0 {
        (0, Seq::empty())
    } else {
        let (n, found) = phases(sections.drop_last(), path);
        let s = sections.last();
        match s.heading {
            None => (n, found),
            Some((number, heading)) => if heading == ARCHIVAL@ {
                (
                    n,
                    found + (if n == 0 {
                        seq![
                            located(
                                "PLAN-DELIVERY-004"@,
                                path,
                                "archival items appear before a substantive phase"@,
                                number,
                                "-"@,
                            ),
                        ]
                    } else {
                        Seq::empty()
                    }) + item_findings(s.bullets, path),
                )
            } else if !PHASE@.is_prefix_of(heading) && !holds_items(s) {
                (n, found)
            } else {
                (
                    n + 1,
                    found + (if numbered_spec(heading) {
                        Seq::empty()
                    } else {
                        seq![
                            located(
                                "PLAN-DELIVERY-003"@,
                                path,
                                "delivery phase heading carries no phase number"@,
                                number,
                                heading,
                            ),
                        ]
                    }) + item_findings(s.bullets, path),
                )
            },
        }
    }
}

/// What the delivery rules find in a checklist.
pub open spec fn delivery_findings(plan: PlanView, text: Seq<char>) -> Seq<FindingView> {
    phases(sections_spec(text), plan.path + seq!['/'] + CHECKLIST@).1
}

pub struct Section {
    pub heading: Option<(usize, Vec<char>)>,
    pub bullets: Vec<(usize, Bullet)>,
}

pub open spec fn section_view(s: Section) -> SectionView {
    SectionView {
        heading: match s.heading {
            Some((n, h)) => Some((n as nat, h@)),
            None => None,
        },
        bullets: Seq::new(s.bullets@.len(), |i: int| (s.bullets@[i].0 as nat, s.bullets@[i].1@)),
    }
}

fn report_items(section: &Section, path: &str, report: &mut Report)
    ensures
        final(report)@ == (ReportView {
            findings: old(report)@.findings + item_findings(section_view(*section).bullets, path@),
            ..old(report)@
        }),
{
    let ghost bv = section_view(*section).bullets;
    let ghost base = report@.findings;
    let mut i: usize = 0;
    while i < section.bullets.len()
        invariant
            i <= section.bullets.len(),
            bv == section_view(*section).bullets,
            report@ == (ReportView { findings: base + item_findings(bv.take(i as int), path@), ..old(report)@ }),
        decreases section.bullets.len() - i,
    {
        assert(bv.take(i + 1).drop_last() =~= bv.take(i as int));
        assert(bv.take(i + 1).last() == (section.bullets@[i as int].0 as nat, section.bullets@[i as int].1@));
        let number = section.bullets[i].0;
        let ghost before = report@.findings;
        match &section.bullets[i].1 {
            Bullet::Link => {
                assert(before + Seq::<FindingView>::empty() =~= before);
            },
            Bullet::Bare | Bullet::Unlabelled => {
                report.found(
                    Finding::new("PLAN-DELIVERY-001", path, "checklist item carries no executor label").at(number, 1).about(
                        "-",
                    ),
                );
            },
            Bullet::Labelled(label) => {
                let l = chars_of(label.as_str());
                if !crate::text::is(&l, "AI") && !crate::text::is(&l, "HUMAN") {
                    report.found(
                        Finding::new("PLAN-DELIVERY-002", path, "executor label is not AI or HUMAN").at(number, 1).about(
                            label.as_str(),
                        ),
                    );
                } else {
                    assert(before + Seq::<FindingView>::empty() =~= before);
                }
            },
        }
        assert(report@.findings =~= base + item_findings(bv.take(i + 1), path@));
        i += 1;
    }
    assert(bv.take(section.bullets.len() as int) =~= bv);
}

fn sections(text: &str) -> (r: Vec<Section>)
    ensures
        Seq::new(r@.len(), |i: int| section_view(r@[i])) == sections_spec(text@),
{
    let lines = prose_lines(text);
    let ghost lv = numbered_views(lines@);
    let mut done: Vec<Section> = Vec::new();
    let mut current = Section { heading: None, bullets: Vec::new() };
    proof {
        reveal_strlit("## ");
        reveal_strlit("- ");
    }
    let mut i: usize = 0;
    assert(lv.take(0) =~= Seq::<(nat, Seq<char>)>::empty());
    assert(section_view(current).bullets =~= Seq::<(nat, BulletView)>::empty());
    assert(Seq::new(done@.len(), |k: int| section_view(done@[k])) =~= Seq::<SectionView>::empty());
    while i < lines.len()
        invariant
            i <= lines.len(),
            lv == numbered_views(lines@),
            lv == prose_spec(text@),
            HEADING@.len() == 3,
            "- "@.len() == 2,
            (Seq::new(done@.len(), |k: int| section_view(done@[k])), section_view(current)) == sections_from(lv.take(i as int)),
        decreases lines.len() - i,
    {
        assert(lv.take(i + 1).drop_last() =~= lv.take(i as int));
        assert(lv.take(i + 1).last() == (lines@[i as int].0 as nat, lines@[i as int].1@));
        let number = lines[i].0;
        let line = chars_of(lines[i].1.as_str());
        if starts_with_str(&line, HEADING) {
            let heading = trim(&slice(&line, 3, line.len()));
            assert(line@.subrange(3, line@.len() as int) =~= line@.skip(3));
            let ghost before = Seq::new(done@.len(), |k: int| section_view(done@[k]));
            let ghost closed = section_view(current);
            let mut next = Section { heading: Some((number, heading)), bullets: Vec::new() };
            std::mem::swap(&mut current, &mut next);
            done.push(next);
            assert(Seq::new(done@.len(), |k: int| section_view(done@[k])) =~= before.push(closed));
            assert(section_view(current).bullets =~= Seq::<(nat, BulletView)>::empty());
        } else if starts_with_str(&line, "- ") {
            let item = slice(&line, 2, line.len());
            assert(item@ =~= line@.skip(2));
            let ghost before = section_view(current).bullets;
            let b = classify(&item);
            current.bullets.push((number, b));
            assert(section_view(current).bullets =~= before.push((number as nat, classify_spec(line@.skip(2)))));
        }
        i += 1;
    }
    assert(lv.take(lines.len() as int) =~= lv);
    let ghost before = Seq::new(done@.len(), |k: int| section_view(done@[k]));
    let ghost last = section_view(current);
    done.push(current);
    assert(Seq::new(done@.len(), |k: int| section_view(done@[k])) =~= before.push(last));
    done
}

fn has_items(section: &Section) -> (r: bool)
    ensures
        r == holds_items(section_view(*section)),
{
    let ghost bv = section_view(*section).bullets;
    let mut i: usize = 0;
    while i < section.bullets.len()
        invariant
            i <= section.bullets.len(),
            bv == section_view(*section).bullets,
            forall|k: int| 0 <= k < i ==> !(#[trigger] bv[k].1 is Unlabelled || bv[k].1 is Labelled),
        decreases section.bullets.len() - i,
    {
        assert(bv[i as int].1 == section.bullets@[i as int].1@);
        match &section.bullets[i].1 {
            Bullet::Unlabelled | Bullet::Labelled(_) => {
                return true;
            },
            _ => {},
        }
        i += 1;
    }
    false
}

/// Checks the checklist's executor labels, phase numbers, and where its
/// archival section stands. Nothing is checked without a checklist.
pub fn inspect(plan: &Plan, checklist: Option<&str>, report: &mut Report)
    ensures
        final(report)@ == (ReportView {
            findings: old(report)@.findings + match checklist {
                Some(text) => delivery_findings(plan@, text@),
                None => Seq::empty(),
            },
            ..old(report)@
        }),
{
    let text = match checklist {
        Some(t) => t,
        None => {
            assert(report@.findings + Seq::<FindingView>::empty() =~= report@.findings);
            return;
        },
    };
    let mut path = chars_of(plan.path.as_str());
    path.push('/');
    crate::text::extend_str(&mut path, CHECKLIST);
    assert(path@ =~= plan@.path + seq!['/'] + CHECKLIST@);
    let p = string_of(&path);
    let all = sections(text);
    let ghost sv = Seq::new(all@.len(), |i: int| section_view(all@[i]));
    let ghost base = report@.findings;
    let mut substantive: usize = 0;
    let mut i: usize = 0;
    while i < all.len()
        invariant
            i <= all.len(),
            sv == Seq::new(all@.len(), |i: int| section_view(all@[i])),
            p@ == plan@.path + seq!['/'] + CHECKLIST@,
            substantive as nat == phases(sv.take(i as int), p@).0,
            substantive <= i,
            report@ == (ReportView { findings: base + phases(sv.take(i as int), p@).1, ..old(report)@ }),
        decreases all.len() - i,
    {
        assert(sv.take(i + 1).drop_last() =~= sv.take(i as int));
        assert(sv.take(i + 1).last() == section_view(all@[i as int]));
        let section = &all[i];
        let ghost before = report@.findings;
        match &section.heading {
            None => {},
            Some((number, heading)) => {
                if crate::text::is(heading, ARCHIVAL) {
                    if substantive == 0 {
                        report.found(
                            Finding::new("PLAN-DELIVERY-004", p.as_str(), "archival items appear before a substantive phase").at(
                                *number,
                                1,
                            ).about("-"),
                        );
                    }
                    let ghost mid = report@.findings;
                    report_items(section, p.as_str(), report);
                    assert(report@.findings =~= base + phases(sv.take(i + 1), p@).1);
                } else if !starts_with_str(heading, PHASE) && !has_items(section) {
                } else {
                    substantive += 1;
                    let numbered = starts_with_str(heading, PHASE) && heading.len() > 6 && '0' <= heading[6] && heading[6]
                        <= '9';
                    proof {
                        reveal_strlit("Phase ");
                    }
                    if !numbered {
                        report.found(
                            Finding::new("PLAN-DELIVERY-003", p.as_str(), "delivery phase heading carries no phase number").at(
                                *number,
                                1,
                            ).about(string_of(heading).as_str()),
                        );
                    }
                    report_items(section, p.as_str(), report);
                    assert(report@.findings =~= base + phases(sv.take(i + 1), p@).1);
                }
            },
        }
        i += 1;
    }
    assert(sv.take(all.len() as int) =~= sv);
}

} // verus!
