//! The technical directory's modules, and the index that orders them.
//!
//! A plan splits its technical document when it outgrows one file, and the
//! split is only useful if the pieces have an order a reader can follow:
//! ordinals contiguous from 001, one per module, and listed by the index.
use super::documents::{located, TECHNICAL};
use super::{kebab, refusal, refuse, Plan, PlanView};
use crate::governance::companion::{contiguous, rsplit, rsplit_spec};
use crate::markdown::internal_link::destinations_spec;
use crate::markdown::{first_line, sibling_links, sibling_set};
use crate::report::{Finding, FindingView, Report, ReportView};
use crate::runtime::{read_view, string_views, Tree, TreeError, TreeFault};
use crate::text::{chars_of, ends_with_str, extend_str, is_digit, slice, starts_with_str, string_of, strictly_sorted, views};
use vstd::prelude::*;

verus! {

pub open spec fn module_prefix() -> Seq<char> {
    TECHNICAL@ + seq!['/']
}

/// The technical directory's modules, other than its index, by name within
/// the directory.
pub open spec fn module_names(held: Seq<Seq<char>>) -> Seq<Seq<char>>
    decreases held.len(),
{
    if held.len() == 0 {
        Seq::empty()
    } else {
        let rest = module_names(held.drop_last());
        let h = held.last();
        if module_prefix().is_prefix_of(h) && !("/README.md"@.len() <= h.len() && h.skip(h.len() - "/README.md"@.len())
            == "/README.md"@) {
            rest.push(h.skip(module_prefix().len() as int))
        } else {
            rest
        }
    }
}

/// A three-digit ordinal, its digits as written, and what follows the
/// hyphen.
pub open spec fn ordinal_spec(name: Seq<char>) -> Option<(nat, Seq<char>, Seq<char>)> {
    if name.len() > 3 && is_digit(name[0]) && is_digit(name[1]) && is_digit(name[2]) && name[3] == '-' {
        Some(
            (
                crate::governance::companion::ordinal_of(name)->Some_0,
                name.take(3),
                name.skip(4),
            ),
        )
    } else {
        None
    }
}

/// The leading digits of a name, when it has any.
pub open spec fn leading_digits(name: Seq<char>) -> Option<Seq<char>> {
    if name.len() > 0 && is_digit(name[0]) {
        let k = choose|k: int|
            0 < k <= name.len() && (forall|m: int| 0 <= m < k ==> is_digit(#[trigger] name[m])) && (k == name.len()
                || !is_digit(name[k]));
        Some(name.take(k))
    } else {
        None
    }
}

/// A name without its last extension.
pub open spec fn stem_spec(rest: Seq<char>) -> Seq<char> {
    match rsplit_spec(rest, '.') {
        Some((stem, _)) => stem,
        None => rest,
    }
}

/// The ordinals the modules carry, in module order, with their digits.
pub open spec fn ordinals_of(names: Seq<Seq<char>>) -> Seq<(nat, Seq<char>)>
    decreases names.len(),
{
    if names.len() == 0 {
        Seq::empty()
    } else {
        let rest = ordinals_of(names.drop_last());
        match ordinal_spec(names.last()) {
            Some((value, digits, _)) => rest.push((value, digits)),
            None => rest,
        }
    }
}

/// Whether some module carries no well-formed ordinal.
pub open spec fn malformed(names: Seq<Seq<char>>) -> bool {
    exists|i: int| 0 <= i < names.len() && #[trigger] ordinal_spec(names[i]) is None
}

/// The per-module findings.
pub open spec fn module_findings(plan_path: Seq<char>, names: Seq<Seq<char>>, linked: Set<Seq<char>>) -> Seq<FindingView>
    decreases names.len(),
{
    if names.len() == 0 {
        Seq::empty()
    } else {
        let name = names.last();
        let path = plan_path + seq!['/'] + module_prefix() + name;
        module_findings(plan_path, names.drop_last(), linked) + (match ordinal_spec(name) {
            Some((_, _, rest)) => if kebab(stem_spec(rest)) {
                Seq::empty()
            } else {
                seq![
                    located(
                        "PLAN-COMPANION-004"@,
                        path,
                        "companion name after its ordinal is not lowercase hyphen-separated"@,
                        1,
                        stem_spec(rest),
                    ),
                ]
            },
            None => seq![
                located(
                    "PLAN-COMPANION-001"@,
                    path,
                    "companion ordinal is not exactly three digits"@,
                    1,
                    match leading_digits(name) {
                        Some(d) => d,
                        None => name,
                    },
                ),
            ],
        }) + if linked.contains(name) {
            Seq::empty()
        } else {
            seq![located("PLAN-COMPANION-005"@, path, "companion exists but the entrypoint does not list it"@, 1, "-"@)]
        }
    }
}

/// The digits of every ordinal that repeats an earlier one.
pub open spec fn duplicated(ordinals: Seq<(nat, Seq<char>)>) -> Set<Seq<char>> {
    Set::new(
        |d: Seq<char>|
            exists|i: int, j: int| 0 <= j < i < ordinals.len() && #[trigger] ordinals[j].0 == #[trigger] ordinals[i].0 && ordinals[i].1 == d,
    )
}

/// Duplicates first, then contiguity, given the duplicated digits in name
/// order.
pub open spec fn sequence_findings(ordinals: Seq<(nat, Seq<char>)>, directory: Seq<char>, dups: Seq<Seq<char>>) -> Seq<FindingView> {
    if dups.len() > 0 {
        Seq::new(
            dups.len(),
            |i: int| located("PLAN-COMPANION-003"@, directory, "companion ordinal is used more than once"@, 1, dups[i]),
        )
    } else if contiguous(Seq::new(ordinals.len(), |i: int| ordinals[i].0)) {
        Seq::empty()
    } else {
        seq![located("PLAN-COMPANION-002"@, directory, "companion ordinals are not contiguous from 001"@, 1, "-"@)]
    }
}

/// One finding for each listed target no module carries.
pub open spec fn unlisted(keys: Seq<Seq<char>>, names: Seq<Seq<char>>, index_path: Seq<char>, dests: Seq<(nat, Seq<char>)>) -> Seq<FindingView>
    decreases keys.len(),
{
    if keys.len() == 0 {
        Seq::empty()
    } else {
        let target = keys.last();
        unlisted(keys.drop_last(), names, index_path, dests) + if names.contains(target) {
            Seq::empty()
        } else {
            seq![
                located(
                    "PLAN-COMPANION-006"@,
                    index_path,
                    "entrypoint lists a companion that does not exist"@,
                    first_line(dests, target),
                    target,
                ),
            ]
        }
    }
}

/// What the companion rules find, given the index's destinations (none
/// where it is absent), the targets it links in name order, and the
/// repeated ordinals in name order.
pub open spec fn companion_findings(plan: PlanView, dests: Seq<(nat, Seq<char>)>, keys: Seq<Seq<char>>, dups: Seq<Seq<char>>) -> Seq<FindingView> {
    let names = module_names(plan.held);
    let directory = plan.path + seq!['/'] + TECHNICAL@;
    let index_path = directory + seq!['/'] + "README.md"@;
    if names.len() == 0 {
        Seq::empty()
    } else {
        module_findings(plan.path, names, sibling_set(dests)) + (if malformed(names) {
            Seq::empty()
        } else {
            sequence_findings(ordinals_of(names), directory, dups)
        }) + unlisted(keys, names, index_path, dests)
    }
}

fn names_of(plan: &Plan) -> (r: Vec<Vec<char>>)
    ensures
        views(r@) == module_names(plan@.held),
{
    let ghost hv = plan@.held;
    let mut prefix = chars_of(TECHNICAL);
    prefix.push('/');
    assert(prefix@ =~= module_prefix());
    let mut r: Vec<Vec<char>> = Vec::new();
    let mut i: usize = 0;
    while i < plan.held.len()
        invariant
            i <= plan.held.len(),
            hv == plan@.held,
            prefix@ == module_prefix(),
            views(r@) == module_names(hv.take(i as int)),
        decreases plan.held.len() - i,
    {
        assert(hv.take(i + 1).drop_last() =~= hv.take(i as int));
        assert(hv.take(i + 1).last() == plan.held@[i as int]@);
        let h = chars_of(plan.held[i].as_str());
        let tail = ends_with_str(&h, "/README.md");
        assert(tail == ("/README.md"@.len() <= h@.len() && h@.skip(h@.len() - "/README.md"@.len()) == "/README.md"@)) by {
            if "/README.md"@.len() <= h@.len() {
                assert(h@.subrange(h@.len() - "/README.md"@.len(), h@.len() as int) =~= h@.skip(h@.len() - "/README.md"@.len()));
            }
        }
        if crate::text::starts_with(&h, &prefix) && !tail {
            let ghost before = views(r@);
            let name = slice(&h, prefix.len(), h.len());
            assert(name@ =~= h@.skip(module_prefix().len() as int));
            r.push(name);
            assert(views(r@) =~= before.push(h@.skip(module_prefix().len() as int)));
        }
        i += 1;
    }
    assert(hv.take(plan.held.len() as int) =~= hv);
    r
}

fn ordinal_parts(name: &Vec<char>) -> (r: Option<(usize, Vec<char>, Vec<char>)>)
    ensures
        match r {
            Some((v, d, rest)) => ordinal_spec(name@) == Some((v as nat, d@, rest@)),
            None => ordinal_spec(name@) is None,
        },
{
    match crate::governance::companion::ordinal(name) {
        Some(v) => {
            let d = slice(name, 0, 3);
            let rest = slice(name, 4, name.len());
            assert(d@ =~= name@.take(3));
            assert(rest@ =~= name@.skip(4));
            Some((v, d, rest))
        },
        None => None,
    }
}

fn leading(name: &Vec<char>) -> (r: Option<Vec<char>>)
    ensures
        match r {
            Some(d) => leading_digits(name@) == Some(d@),
            None => leading_digits(name@) is None,
        },
{
    let mut k: usize = 0;
    while k < name.len() && '0' <= name[k] && name[k] <= '9'
        invariant
            k <= name.len(),
            forall|m: int| 0 <= m < k ==> is_digit(#[trigger] name@[m]),
        decreases name.len() - k,
    {
        k += 1;
    }
    if k == 0 {
        return None;
    }
    assert(0 < k <= name@.len() && (forall|m: int| 0 <= m < k ==> is_digit(#[trigger] name@[m])) && (k == name@.len()
        || !is_digit(name@[k as int])));
    proof {
        let c = choose|c: int|
            0 < c <= name@.len() && (forall|m: int| 0 <= m < c ==> is_digit(#[trigger] name@[m])) && (c == name@.len()
                || !is_digit(name@[c]));
        if c < k {
            assert(is_digit(name@[c]));
        }
        if c > k {
            assert(is_digit(name@[k as int]));
        }
        assert(c == k);
    }
    let d = slice(name, 0, k);
    assert(d@ =~= name@.take(k as int));
    Some(d)
}

fn stem(rest: &Vec<char>) -> (r: Vec<char>)
    ensures
        r@ == stem_spec(rest@),
{
    match rsplit(rest, '.') {
        Some((s, _)) => s,
        None => slice(rest, 0, rest.len()),
    }
}

fn digits_list(list: &Vec<Vec<char>>, x: &Vec<char>) -> (r: bool)
    ensures
        r == views(list@).contains(x@),
{
    let mut i: usize = 0;
    while i < list.len()
        invariant
            i <= list.len(),
            forall|k: int| 0 <= k < i ==> views(list@)[k] != x@,
        decreases list.len() - i,
    {
        if crate::text::same(&list[i], x) {
            assert(views(list@)[i as int] == x@);
            return true;
        }
        i += 1;
    }
    false
}

pub open spec fn ordinal_views(v: Seq<(usize, Vec<char>)>) -> Seq<(nat, Seq<char>)> {
    Seq::new(v.len(), |i: int| (v[i].0 as nat, v[i].1@))
}

/// Duplicates first, then contiguity: a set whose ordinals repeat cannot
/// run from 001 without a gap, so reporting both would name one defect
/// twice.
fn sequence(ordinals: &Vec<(usize, Vec<char>)>, directory: &str, report: &mut Report) -> (dups: Ghost<Seq<Seq<char>>>)
    ensures
        strictly_sorted(dups@),
        dups@.to_set() == duplicated(ordinal_views(ordinals@)),
        final(report)@ == (ReportView {
            findings: old(report)@.findings + sequence_findings(ordinal_views(ordinals@), directory@, dups@),
            ..old(report)@
        }),
{
    let ghost ov = ordinal_views(ordinals@);
    let mut dups: Vec<Vec<char>> = Vec::new();
    let mut i: usize = 0;
    while i < ordinals.len()
        invariant
            i <= ordinals.len(),
            ov == ordinal_views(ordinals@),
            strictly_sorted(views(dups@)),
            views(dups@).to_set() == Set::new(
                |d: Seq<char>|
                    exists|a: int, b: int| 0 <= b < a < i && #[trigger] ov[b].0 == #[trigger] ov[a].0 && ov[a].1 == d,
            ),
        decreases ordinals.len() - i,
    {
        let mut earlier = false;
        let mut j: usize = 0;
        while j < i
            invariant
                j <= i,
                i < ordinals.len(),
                ov == ordinal_views(ordinals@),
                earlier == exists|b: int| 0 <= b < j && #[trigger] ov[b].0 == ov[i as int].0,
            decreases i - j,
        {
            if ordinals[j].0 == ordinals[i].0 {
                earlier = true;
                assert(ov[j as int].0 == ov[i as int].0);
            }
            j += 1;
        }
        if earlier {
            let ghost dv = ordinals@[i as int].1@;
            crate::text::insert_sorted(&mut dups, slice(&ordinals[i].1, 0, ordinals[i].1.len()));
            assert(ordinals@[i as int].1@.subrange(0, ordinals@[i as int].1@.len() as int) =~= dv);
        }
        assert(views(dups@).to_set() =~= Set::new(
            |d: Seq<char>|
                exists|a: int, b: int| 0 <= b < a < i + 1 && #[trigger] ov[b].0 == #[trigger] ov[a].0 && ov[a].1 == d,
        )) by {
            if earlier {
                let b = choose|b: int| 0 <= b < i && #[trigger] ov[b].0 == ov[i as int].0;
                assert(ov[b].0 == ov[i as int].0 && ov[i as int].1 == ordinals@[i as int].1@);
            }
        }
        i += 1;
    }
    assert(duplicated(ov) =~= Set::new(
        |d: Seq<char>|
            exists|a: int, b: int| 0 <= b < a < ordinals.len() && #[trigger] ov[b].0 == #[trigger] ov[a].0 && ov[a].1 == d,
    ));
    let ghost dv = views(dups@);
    let ghost base = report@.findings;
    if dups.len() > 0 {
        let mut k: usize = 0;
        while k < dups.len()
            invariant
                k <= dups.len(),
                dv == views(dups@),
                report@ == (ReportView {
                    findings: base + Seq::new(
                        k as nat,
                        |i: int| located("PLAN-COMPANION-003"@, directory@, "companion ordinal is used more than once"@, 1, dv[i]),
                    ),
                    ..old(report)@
                }),
            decreases dups.len() - k,
        {
            report.found(
                Finding::new("PLAN-COMPANION-003", directory, "companion ordinal is used more than once").at(1, 1).about(
                    string_of(&dups[k]).as_str(),
                ),
            );
            assert(report@.findings =~= base + Seq::new(
                (k + 1) as nat,
                |i: int| located("PLAN-COMPANION-003"@, directory@, "companion ordinal is used more than once"@, 1, dv[i]),
            ));
            k += 1;
        }
        return Ghost(dv);
    }
    let mut values: Vec<usize> = Vec::new();
    let mut v: usize = 0;
    while v < ordinals.len()
        invariant
            v <= ordinals.len(),
            ov == ordinal_views(ordinals@),
            Seq::new(values@.len(), |i: int| values@[i] as nat) == Seq::new(v as nat, |i: int| ov[i].0),
        decreases ordinals.len() - v,
    {
        let ghost before = Seq::new(values@.len(), |i: int| values@[i] as nat);
        assert(ov[v as int].0 == ordinals@[v as int].0 as nat);
        values.push(ordinals[v].0);
        assert(Seq::new(values@.len(), |i: int| values@[i] as nat) =~= before.push(ov[v as int].0));
        assert(Seq::new((v + 1) as nat, |i: int| ov[i].0) =~= Seq::new(v as nat, |i: int| ov[i].0).push(ov[v as int].0));
        v += 1;
    }
    assert(Seq::new(values@.len(), |i: int| values@[i] as nat) =~= Seq::new(ov.len(), |i: int| ov[i].0));
    if !crate::governance::companion::is_contiguous(&values) {
        report.found(
            Finding::new("PLAN-COMPANION-002", directory, "companion ordinals are not contiguous from 001").at(1, 1).about("-"),
        );
    } else {
        assert(base + Seq::<FindingView>::empty() =~= base);
    }
    Ghost(dv)
}

/// What the companion rules answer, given what reading the index gave, the
/// targets it links in name order, and the repeated ordinals in name order.
/// Where a plan's technical index is: `<plan>/<technical>/README.md`.
pub open spec fn technical_index(plan_path: Seq<char>) -> Seq<char> {
    plan_path + seq!['/'] + TECHNICAL@ + seq!['/'] + "README.md"@
}

pub open spec fn index_outcome(plan: PlanView, answer: Result<Seq<char>, TreeFault>, keys: Seq<Seq<char>>, dups: Seq<Seq<char>>) -> Result<Seq<FindingView>, ReportView> {
    let names = module_names(plan.held);
    let index_path = plan.path + seq!['/'] + TECHNICAL@ + seq!['/'] + "README.md"@;
    if names.len() == 0 {
        Ok(Seq::empty())
    } else {
        match answer {
            Err(TreeFault::NotFound) => Ok(companion_findings(plan, Seq::empty(), keys, dups)),
            Err(fault) => Err(refusal(index_path, fault)),
            Ok(text) => Ok(companion_findings(plan, destinations_spec(text), keys, dups)),
        }
    }
}

/// Whether `keys` are the index's targets in name order (none without an
/// index), and `dups` the repeated ordinals in name order wherever every
/// ordinal is well formed.
pub open spec fn orders_fit(plan: PlanView, answer: Result<Seq<char>, TreeFault>, keys: Seq<Seq<char>>, dups: Seq<Seq<char>>) -> bool {
    &&& match answer {
        Ok(text) => strictly_sorted(keys) && keys.to_set() == sibling_set(destinations_spec(text)),
        _ => keys.len() == 0,
    }
    &&& index_outcome(plan, answer, keys, dups) is Ok && !malformed(module_names(plan.held)) ==> strictly_sorted(dups)
        && dups.to_set() == duplicated(ordinals_of(module_names(plan.held)))
}

/// Checks the technical directory's modules against their ordinals and
/// their index.
pub fn inspect<T: Tree>(tree: &T, plan: &Plan, report: &mut Report) -> (r: Result<(), Box<Report>>)
    ensures
        exists|answer: Result<Seq<char>, TreeFault>, keys: Seq<Seq<char>>, dups: Seq<Seq<char>>|
            orders_fit(plan@, answer, keys, dups) && (module_names(plan@.held).len() > 0 ==> tree.reads_as(
                technical_index(plan@.path),
                answer,
            )) && match #[trigger] index_outcome(plan@, answer, keys, dups) {
                Ok(found) => r is Ok && final(report)@ == (ReportView { findings: old(report)@.findings + found, ..old(report)@ }),
                Err(v) => r matches Err(b) && b@ == v,
            },
{
    let names = names_of(plan);
    let ghost nv = views(names@);
    if names.len() == 0 {
        assert(report@.findings + Seq::<FindingView>::empty() =~= report@.findings);
        assert(index_outcome(plan@, Err(TreeFault::NotFound), Seq::empty(), Seq::empty()) == Ok::<Seq<FindingView>, ReportView>(Seq::empty()));
        assert(nv =~= Seq::<Seq<char>>::empty());
        assert(ordinals_of(nv) =~= Seq::<(nat, Seq<char>)>::empty());
        assert(duplicated(ordinals_of(module_names(plan@.held))) =~= Set::<Seq<char>>::empty());
        assert(Seq::<Seq<char>>::empty().to_set() =~= Set::<Seq<char>>::empty());
        assert(orders_fit(plan@, Err(TreeFault::NotFound), Seq::empty(), Seq::empty()));
        return Ok(());
    }
    let mut directory = chars_of(plan.path.as_str());
    directory.push('/');
    extend_str(&mut directory, TECHNICAL);
    let mut index_path = slice(&directory, 0, directory.len());
    index_path.push('/');
    extend_str(&mut index_path, "README.md");
    assert(index_path@ =~= plan@.path + seq!['/'] + TECHNICAL@ + seq!['/'] + "README.md"@);
    let ip = string_of(&index_path);
    let read = tree.read(ip.as_str());
    let ghost answer = read_view(read);
    assert(tree.reads_as(technical_index(plan@.path), answer));
    let listed: Vec<(String, usize)> = match read {
        Ok(text) => sibling_links(text.as_str()),
        Err(TreeError::NotFound) => Vec::new(),
        Err(error) => {
            let refused = refuse(ip.as_str(), &error);
            assert(index_outcome(plan@, answer, Seq::empty(), Seq::empty()) == Err::<Seq<FindingView>, ReportView>(refused@));
            assert(orders_fit(plan@, answer, Seq::empty(), Seq::empty()));
            return Err(Box::new(refused));
        },
    };
    let ghost dests = match answer {
        Ok(text) => destinations_spec(text),
        _ => Seq::<(nat, Seq<char>)>::empty(),
    };
    let ghost keys = Seq::new(listed@.len(), |i: int| listed@[i].0@);
    proof {
        if answer is Err {
            assert(sibling_set(dests) =~= Set::<Seq<char>>::empty());
            assert(keys =~= Seq::<Seq<char>>::empty());
        }
    }
    let ghost linked = sibling_set(dests);
    assert(keys.to_set() == linked);
    let mut keys_exec: Vec<Vec<char>> = Vec::new();
    let mut q: usize = 0;
    while q < listed.len()
        invariant
            q <= listed.len(),
            keys == Seq::new(listed@.len(), |i: int| listed@[i].0@),
            views(keys_exec@) == keys.take(q as int),
        decreases listed.len() - q,
    {
        let ghost before = views(keys_exec@);
        let key = chars_of(listed[q].0.as_str());
        assert(key@ == keys[q as int]);
        keys_exec.push(key);
        assert(views(keys_exec@) =~= before.push(keys[q as int]));
        assert(keys.take(q + 1) =~= keys.take(q as int).push(keys[q as int]));
        q += 1;
    }
    assert(keys.take(listed.len() as int) =~= keys);
    let dir_text = string_of(&directory);
    assert(dir_text@ =~= plan@.path + seq!['/'] + TECHNICAL@);
    let ghost base = report@.findings;
    let mut ordinals: Vec<(usize, Vec<char>)> = Vec::new();
    let mut bad = false;
    let mut i: usize = 0;
    while i < names.len()
        invariant
            i <= names.len(),
            nv == views(names@),
            views(keys_exec@) == keys,
            keys.to_set() == linked,
            report@ == (ReportView { findings: base + module_findings(plan@.path, nv.take(i as int), linked), ..old(report)@ }),
            ordinal_views(ordinals@) == ordinals_of(nv.take(i as int)),
            bad == malformed(nv.take(i as int)),
        decreases names.len() - i,
    {
        assert(nv.take(i + 1).drop_last() =~= nv.take(i as int));
        assert(nv.take(i + 1).last() == names@[i as int]@);
        let name = &names[i];
        let mut path = chars_of(plan.path.as_str());
        path.push('/');
        extend_str(&mut path, TECHNICAL);
        path.push('/');
        crate::text::extend(&mut path, name);
        assert(path@ =~= plan@.path + seq!['/'] + module_prefix() + name@);
        let ghost before = report@.findings;
        let ghost before_ords = ordinal_views(ordinals@);
        match ordinal_parts(name) {
            Some((v, d, rest)) => {
                let ghost dv = d@;
                ordinals.push((v, d));
                assert(ordinal_views(ordinals@) =~= before_ords.push((v as nat, dv)));
                let st = stem(&rest);
                if !super::is_kebab_case(string_of(&st).as_str()) {
                    report.found(
                        Finding::new(
                            "PLAN-COMPANION-004",
                            string_of(&path).as_str(),
                            "companion name after its ordinal is not lowercase hyphen-separated",
                        ).at(1, 1).about(string_of(&st).as_str()),
                    );
                }
                assert(malformed(nv.take(i + 1)) == malformed(nv.take(i as int))) by {
                    if malformed(nv.take(i + 1)) {
                        let w = choose|w: int| 0 <= w < i + 1 && #[trigger] ordinal_spec(nv.take(i + 1)[w]) is None;
                        assert(w < i);
                        assert(nv.take(i as int)[w] == nv.take(i + 1)[w]);
                    }
                    if malformed(nv.take(i as int)) {
                        let w = choose|w: int| 0 <= w < i && #[trigger] ordinal_spec(nv.take(i as int)[w]) is None;
                        assert(nv.take(i as int)[w] == nv.take(i + 1)[w]);
                    }
                }
            },
            None => {
                bad = true;
                let about = match leading(name) {
                    Some(d) => d,
                    None => slice(name, 0, name.len()),
                };
                assert(name@.subrange(0, name@.len() as int) =~= name@);
                report.found(
                    Finding::new("PLAN-COMPANION-001", string_of(&path).as_str(), "companion ordinal is not exactly three digits").at(
                        1,
                        1,
                    ).about(string_of(&about).as_str()),
                );
                assert(ordinal_spec(nv.take(i + 1)[i as int]) is None);
            },
        }
        let present = digits_list(&keys_exec, name);
        assert(present == linked.contains(name@)) by {
            assert(keys.to_set().contains(name@) == keys.contains(name@));
        }
        if !present {
            report.found(
                Finding::new(
                    "PLAN-COMPANION-005",
                    string_of(&path).as_str(),
                    "companion exists but the entrypoint does not list it",
                ).at(1, 1).about("-"),
            );
        }
        assert(report@.findings =~= base + module_findings(plan@.path, nv.take(i + 1), linked));
        i += 1;
    }
    assert(nv.take(names.len() as int) =~= nv);
    let ghost mid = report@.findings;
    let ghost mut dups: Seq<Seq<char>> = Seq::empty();
    if !bad {
        let Ghost(d) = sequence(&ordinals, dir_text.as_str(), report);
        proof {
            dups = d;
        }
    } else {
        assert(mid + Seq::<FindingView>::empty() =~= mid);
    }
    let ghost after = report@.findings;
    assert(after =~= base + module_findings(plan@.path, nv, linked) + (if malformed(nv) {
        Seq::<FindingView>::empty()
    } else {
        sequence_findings(ordinals_of(nv), plan@.path + seq!['/'] + TECHNICAL@, dups)
    }));
    let mut k: usize = 0;
    while k < listed.len()
        invariant
            k <= listed.len(),
            nv == views(names@),
            keys == Seq::new(listed@.len(), |i: int| listed@[i].0@),
            forall|j: int|
                0 <= j < listed@.len() ==> (#[trigger] listed@[j]).1 as nat == first_line(dests, listed@[j].0@),
            ip@ == plan@.path + seq!['/'] + TECHNICAL@ + seq!['/'] + "README.md"@,
            report@ == (ReportView { findings: after + unlisted(keys.take(k as int), nv, ip@, dests), ..old(report)@ }),
        decreases listed.len() - k,
    {
        assert(keys.take(k + 1).drop_last() =~= keys.take(k as int));
        assert(keys.take(k + 1).last() == listed@[k as int].0@);
        let target = chars_of(listed[k].0.as_str());
        if !digits_list(&names, &target) {
            report.found(
                Finding::new("PLAN-COMPANION-006", ip.as_str(), "entrypoint lists a companion that does not exist").at(
                    listed[k].1,
                    1,
                ).about(listed[k].0.as_str()),
            );
        }
        assert(report@.findings =~= after + unlisted(keys.take(k + 1), nv, ip@, dests));
        k += 1;
    }
    assert(keys.take(listed.len() as int) =~= keys);
    proof {
        assert(index_outcome(plan@, answer, keys, dups) == Ok::<Seq<FindingView>, ReportView>(
            module_findings(plan@.path, nv, linked) + (if malformed(nv) {
                Seq::empty()
            } else {
                sequence_findings(ordinals_of(nv), plan@.path + seq!['/'] + TECHNICAL@, dups)
            }) + unlisted(keys, nv, ip@, dests),
        ));
        assert(report@.findings =~= base + index_outcome(plan@, answer, keys, dups)->Ok_0);
    }
    Ok(())
}

/// Repeated ordinals are reported instead of a gap, never beside one: a
/// set whose ordinals repeat cannot run from 001 without one.
pub proof fn lemma_duplicates_hide_gaps(ordinals: Seq<(nat, Seq<char>)>, directory: Seq<char>, dups: Seq<Seq<char>>)
    requires
        dups.len() > 0,
    ensures
        forall|i: int|
            0 <= i < sequence_findings(ordinals, directory, dups).len() ==> (#[trigger] sequence_findings(
                ordinals,
                directory,
                dups,
            )[i]).kind == "PLAN-COMPANION-003"@,
        sequence_findings(ordinals, directory, dups).len() == dups.len(),
{
}

/// A module whose ordinal is malformed suppresses every finding about the
/// set's sequence: the set has neither contiguity nor uniqueness in any
/// meaningful sense.
pub proof fn lemma_malformed_suppresses_sequence(plan: PlanView, dests: Seq<(nat, Seq<char>)>, keys: Seq<Seq<char>>, dups: Seq<Seq<char>>)
    requires
        malformed(module_names(plan.held)),
    ensures
        companion_findings(plan, dests, keys, dups) == module_findings(plan.path, module_names(plan.held), sibling_set(dests))
            + unlisted(keys, module_names(plan.held), plan.path + seq!['/'] + TECHNICAL@ + seq!['/'] + "README.md"@, dests),
{
    let names = module_names(plan.held);
    assert(names.len() > 0);
    assert(module_findings(plan.path, names, sibling_set(dests)) + Seq::<FindingView>::empty() =~= module_findings(
        plan.path,
        names,
        sibling_set(dests),
    ));
}

} // verus!
