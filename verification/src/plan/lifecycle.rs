//! Where a plan is in its life, read from the root it sits under and the
//! shape of its slug. A date on the front of a slug means the plan
//! finished; the root it sits under means the same thing; and a plan whose
//! two answers disagree is the defect this family exists to catch.
use super::documents::located;
use super::{entries, entries_spec, entry_views, kebab, roots, shared_slugs, shared_spec, Plan, PlanView, DONE};
use crate::report::{Finding, FindingView, Report, ReportView};
use crate::runtime::string_views;
use crate::text::{chars_of, is_digit, slice, split_once, split_once_spec, starts_with, string_of, strictly_sorted, views};
use vstd::prelude::*;

verus! {

/// The lifecycle root a path under the plan root sits in.
pub open spec fn root_of(path: Seq<char>, prefix: Seq<char>) -> Option<Seq<char>> {
    if prefix.is_prefix_of(path) {
        match split_once_spec(path.skip(prefix.len() as int), seq!['/']) {
            Some((root, _)) => Some(root),
            None => None,
        }
    } else {
        None
    }
}

pub const UNKNOWN_ROOT: &'static str = "plan root is not one of ideas, backlog, in-progress, done";

/// The unknown roots in the order they first appear, and a finding for
/// each.
pub open spec fn unknown_from(files: Seq<Seq<char>>, prefix: Seq<char>) -> (Seq<Seq<char>>, Seq<FindingView>)
    decreases files.len(),
{
    if files.len() == 0 {
        (Seq::empty(), Seq::empty())
    } else {
        let (seen, found) = unknown_from(files.drop_last(), prefix);
        match root_of(files.last(), prefix) {
            Some(root) => if roots().contains(root) || seen.contains(root) {
                (seen, found)
            } else {
                (seen.push(root), found.push(located("PLAN-LIFECYCLE-001"@, prefix + root, UNKNOWN_ROOT@, 1, root)))
            },
            None => (seen, found),
        }
    }
}

fn known_root(root: &Vec<char>) -> (r: bool)
    ensures
        r == roots().contains(root@),
{
    let r = crate::text::is(root, "ideas") || crate::text::is(root, "backlog") || crate::text::is(root, "in-progress")
        || crate::text::is(root, "done");
    proof {
        if r {
            if root@ == "ideas"@ {
                assert(roots()[0] == root@);
            } else if root@ == "backlog"@ {
                assert(roots()[1] == root@);
            } else if root@ == "in-progress"@ {
                assert(roots()[2] == root@);
            } else {
                assert(roots()[3] == root@);
            }
        }
    }
    r
}

fn holds_text(list: &Vec<Vec<char>>, x: &Vec<char>) -> (r: bool)
    ensures
        r == views(list@).contains(x@),
{
    let mut i: usize = 0;
    while i < list.len()
        invariant
            i <= list.len(),
            forall|k: int| 0 <= k < i ==> views(list@)[k] != x@,
        decreases list.len() - i,
    {
        if crate::text::same(&list[i], x) {
            assert(views(list@)[i as int] == x@);
            return true;
        }
        i += 1;
    }
    false
}

/// Reports every lifecycle root outside the four canonical names, and
/// answers with the set of them, in name order.
pub fn unknown_roots(files: &[String], prefix: &str, report: &mut Report) -> (r: Vec<String>)
    ensures
        strictly_sorted(string_views(r@)),
        string_views(r@).to_set() == unknown_from(string_views(files@), prefix@).0.to_set(),
        final(report)@ == (ReportView {
            findings: old(report)@.findings + unknown_from(string_views(files@), prefix@).1,
            ..old(report)@
        }),
{
    let ghost fv = string_views(files@);
    let ghost base = report@.findings;
    let p = chars_of(prefix);
    let slash = chars_of("/");
    proof {
        reveal_strlit("/");
    }
    assert(slash@ =~= seq!['/']);
    let mut seen: Vec<Vec<char>> = Vec::new();
    let mut sorted: Vec<Vec<char>> = Vec::new();
    let mut i: usize = 0;
    while i < files.len()
        invariant
            i <= files.len(),
            fv == string_views(files@),
            p@ == prefix@,
            slash@ == seq!['/'],
            views(seen@) == unknown_from(fv.take(i as int), prefix@).0,
            strictly_sorted(views(sorted@)),
            views(sorted@).to_set() == views(seen@).to_set(),
            report@ == (ReportView { findings: base + unknown_from(fv.take(i as int), prefix@).1, ..old(report)@ }),
        decreases files.len() - i,
    {
        assert(fv.take(i + 1).drop_last() =~= fv.take(i as int));
        assert(fv.take(i + 1).last() == files@[i as int]@);
        let path = chars_of(files[i].as_str());
        if starts_with(&path, &p) {
            let rest = slice(&path, p.len(), path.len());
            assert(rest@ =~= path@.skip(prefix@.len() as int));
            match split_once(&rest, &slash) {
                Some((root, _)) => {
                    if !known_root(&root) && !holds_text(&seen, &root) {
                        let ghost before = views(seen@);
                        let ghost rv = root@;
                        let mut at = slice(&p, 0, p.len());
                        crate::text::extend(&mut at, &root);
                        assert(at@ =~= prefix@ + rv);
                        report.found(
                            Finding::new("PLAN-LIFECYCLE-001", string_of(&at).as_str(), UNKNOWN_ROOT).at(1, 1).about(
                                string_of(&root).as_str(),
                            ),
                        );
                        let copy = slice(&root, 0, root.len());
                        assert(copy@ =~= rv);
                        seen.push(copy);
                        assert(views(seen@) =~= before.push(rv));
                        crate::text::insert_sorted(&mut sorted, root);
                        proof {
                            crate::text::lemma_push_to_set(before, rv);
                        }
                    }
                },
                None => {},
            }
        }
        i += 1;
    }
    assert(fv.take(files.len() as int) =~= fv);
    let mut r: Vec<String> = Vec::new();
    let mut k: usize = 0;
    while k < sorted.len()
        invariant
            k <= sorted.len(),
            string_views(r@) == views(sorted@).take(k as int),
        decreases sorted.len() - k,
    {
        let ghost before = string_views(r@);
        r.push(string_of(&sorted[k]));
        assert(string_views(r@) =~= before.push(sorted@[k as int]@));
        assert(views(sorted@).take(k + 1) =~= views(sorted@).take(k as int).push(sorted@[k as int]@));
        k += 1;
    }
    assert(views(sorted@).take(sorted.len() as int) =~= views(sorted@));
    r
}

/// `YYYY-MM-DD`.
pub open spec fn date_spec(text: Seq<char>) -> bool {
    text.len() == 10 && forall|i: int|
        0 <= i < 10 ==> if i == 4 || i == 7 {
            #[trigger] text[i] == '-'
        } else {
            is_digit(text[i])
        }
}

/// The name half of a completed slug: a date, then two underscores.
pub open spec fn completed_spec(slug: Seq<char>) -> Option<Seq<char>> {
    match split_once_spec(slug, "__"@) {
        Some((date, name)) => if date_spec(date) {
            Some(name)
        } else {
            None
        },
        None => None,
    }
}

/// Whether a slug opens with a date at all.
pub open spec fn opens_with_date(slug: Seq<char>) -> bool {
    slug.len() >= 10 && date_spec(slug.take(10))
}

/// The first lifecycle root, in path order, that holds a slug.
pub open spec fn first_root(entries: Seq<(Seq<char>, Seq<char>, Seq<char>)>, slug: Seq<char>) -> Option<Seq<char>>
    decreases entries.len(),
{
    if entries.len() == 0 {
        None
    } else if entries[0].1 == slug {
        Some(entries[0].0)
    } else {
        first_root(entries.drop_first(), slug)
    }
}

/// What the lifecycle rules find in a plan, given every entry under the
/// plan root. Each later rule asks a question the earlier ones answered no
/// to.
pub open spec fn lifecycle_findings(plan: PlanView, entries: Seq<(Seq<char>, Seq<char>, Seq<char>)>) -> Seq<FindingView> {
    let live = plan.root != DONE@;
    if live && opens_with_date(plan.slug) {
        seq![located("PLAN-LIFECYCLE-002"@, plan.path, "live plan slug carries a date"@, 1, plan.slug)]
    } else if !live && completed_spec(plan.slug) is None {
        seq![located("PLAN-LIFECYCLE-003"@, plan.path, "done plan slug has no YYYY-MM-DD__ prefix"@, 1, plan.slug)]
    } else if !kebab(
        match completed_spec(plan.slug) {
            Some(name) => name,
            None => plan.slug,
        },
    ) {
        seq![located("PLAN-LIFECYCLE-004"@, plan.path, "plan slug is not lowercase hyphen-separated"@, 1, plan.slug)]
    } else if shared_spec(entries).contains(plan.slug) && first_root(entries, plan.slug) != Some(plan.root) {
        seq![located("PLAN-LIFECYCLE-005"@, plan.path, "plan slug occupies more than one lifecycle root"@, 1, plan.slug)]
    } else {
        Seq::empty()
    }
}

fn is_a_date(text: &Vec<char>) -> (r: bool)
    ensures
        r == date_spec(text@),
{
    if text.len() != 10 {
        return false;
    }
    let mut i: usize = 0;
    while i < 10
        invariant
            i <= 10,
            text@.len() == 10,
            forall|k: int|
                0 <= k < i ==> if k == 4 || k == 7 {
                    #[trigger] text@[k] == '-'
                } else {
                    is_digit(text@[k])
                },
        decreases 10 - i,
    {
        let c = text[i];
        let ok = if i == 4 || i == 7 {
            c == '-'
        } else {
            '0' <= c && c <= '9'
        };
        if !ok {
            return false;
        }
        i += 1;
    }
    true
}

fn completed(slug: &Vec<char>) -> (r: Option<Vec<char>>)
    ensures
        match r {
            Some(name) => completed_spec(slug@) == Some(name@),
            None => completed_spec(slug@) is None,
        },
{
    let separator = chars_of("__");
    match split_once(slug, &separator) {
        Some((date, name)) => {
            if is_a_date(&date) {
                Some(name)
            } else {
                None
            }
        },
        None => None,
    }
}

fn first_root_of(all: &Vec<(String, String, String)>, slug: &Vec<char>) -> (r: Option<Vec<char>>)
    ensures
        match r {
            Some(root) => first_root(entry_views(all@), slug@) == Some(root@),
            None => first_root(entry_views(all@), slug@) is None,
        },
{
    let ghost ev = entry_views(all@);
    let mut i: usize = 0;
    assert(ev.skip(0) =~= ev);
    while i < all.len()
        invariant
            i <= all.len(),
            ev == entry_views(all@),
            first_root(ev, slug@) == first_root(ev.skip(i as int), slug@),
        decreases all.len() - i,
    {
        let ghost rest = ev.skip(i as int);
        assert(rest[0] == ev[i as int]);
        assert(rest.drop_first() =~= ev.skip(i + 1));
        if crate::text::same(&chars_of(all[i].1.as_str()), slug) {
            return Some(chars_of(all[i].0.as_str()));
        }
        i += 1;
    }
    None
}

/// Checks where a plan is in its life against the shape of its slug.
pub fn inspect(plan: &Plan, files: &[String], prefix: &str, report: &mut Report)
    ensures
        final(report)@ == (ReportView {
            findings: old(report)@.findings + lifecycle_findings(plan@, entries_spec(string_views(files@), prefix@)),
            ..old(report)@
        }),
{
    let slug = chars_of(plan.slug.as_str());
    let done = crate::text::is(&chars_of(plan.root.as_str()), DONE);
    let finished = completed(&slug);
    let opens = slug.len() >= 10 && is_a_date(&slice(&slug, 0, 10));
    assert(opens == opens_with_date(slug@)) by {
        if slug@.len() >= 10 {
            assert(slug@.subrange(0, 10) =~= slug@.take(10));
        }
    }
    let ghost base = report@.findings;
    if !done && opens {
        report.found(
            Finding::new("PLAN-LIFECYCLE-002", plan.path.as_str(), "live plan slug carries a date").at(1, 1).about(
                plan.slug.as_str(),
            ),
        );
        assert(report@.findings =~= base + lifecycle_findings(plan@, entries_spec(string_views(files@), prefix@)));
        return;
    }
    if done && finished.is_none() {
        report.found(
            Finding::new("PLAN-LIFECYCLE-003", plan.path.as_str(), "done plan slug has no YYYY-MM-DD__ prefix").at(1, 1).about(
                plan.slug.as_str(),
            ),
        );
        assert(report@.findings =~= base + lifecycle_findings(plan@, entries_spec(string_views(files@), prefix@)));
        return;
    }
    let name = match finished {
        Some(n) => n,
        None => slug,
    };
    if !super::is_kebab_case(string_of(&name).as_str()) {
        report.found(
            Finding::new("PLAN-LIFECYCLE-004", plan.path.as_str(), "plan slug is not lowercase hyphen-separated").at(1, 1).about(
                plan.slug.as_str(),
            ),
        );
        assert(report@.findings =~= base + lifecycle_findings(plan@, entries_spec(string_views(files@), prefix@)));
        return;
    }
    let shared = shared_slugs(files, prefix);
    let mut in_shared = false;
    let mut k: usize = 0;
    while k < shared.len()
        invariant
            k <= shared.len(),
            in_shared == exists|j: int| 0 <= j < k && #[trigger] string_views(shared@)[j] == plan@.slug,
        decreases shared.len() - k,
    {
        if crate::text::same(&chars_of(shared[k].as_str()), &chars_of(plan.slug.as_str())) {
            in_shared = true;
            assert(string_views(shared@)[k as int] == plan@.slug);
        }
        k += 1;
    }
    assert(in_shared == string_views(shared@).contains(plan@.slug));
    let all = entries(files, prefix);
    let first = first_root_of(&all, &chars_of(plan.slug.as_str()));
    let elsewhere = match &first {
        Some(root) => !crate::text::same(root, &chars_of(plan.root.as_str())),
        None => true,
    };
    if in_shared && elsewhere {
        report.found(
            Finding::new("PLAN-LIFECYCLE-005", plan.path.as_str(), "plan slug occupies more than one lifecycle root").at(
                1,
                1,
            ).about(plan.slug.as_str()),
        );
    }
    assert(report@.findings =~= base + lifecycle_findings(plan@, entries_spec(string_views(files@), prefix@)));
}

/// The lifecycle rules report at most one defect for a plan: each later
/// rule is asked only where the earlier ones found nothing.
pub proof fn lemma_one_lifecycle_finding(plan: PlanView, entries: Seq<(Seq<char>, Seq<char>, Seq<char>)>)
    ensures
        lifecycle_findings(plan, entries).len() <= 1,
{
}

} // verus!
