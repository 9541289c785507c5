//! Plan structure.
//!
//! A formal plan is six documents and exactly one technical shape, kept
//! under a lifecycle root whose name and slug form say where the plan is in
//! its life. The rule identifiers, messages and positions are a shared
//! contract; what is deliberately absent is judgement of the writing.
use crate::markdown::naming::refused_view;
use crate::report::{FindingView, Report, ReportView};
use crate::runtime::{read_view, string_views, Tree, TreeError, TreeFault};
use crate::text::{chars_of, extend, extend_str, slice, split_once, split_once_spec, starts_with, string_of, views};
use vstd::prelude::*;

pub mod companions;
pub mod criteria;
pub mod delivery;
pub mod documents;
pub mod lifecycle;

verus! {

pub const CATEGORY: &'static str = "plan";

/// The tree a plan lives under. Fixed rather than configured: the contract
/// names it.
pub const ROOT: &'static str = "plans";

/// The four lifecycle roots, in the order a plan passes through them.
pub open spec fn roots() -> Seq<Seq<char>> {
    seq!["ideas"@, "backlog"@, "in-progress"@, "done"@]
}

/// The root whose contents are history.
pub const DONE: &'static str = "done";

/// The root that holds briefs rather than plans.
pub const IDEAS: &'static str = "ideas";

/// One plan directory, with the files it holds anywhere beneath it.
pub struct Plan {
    /// Repository-relative, `plans/<root>/<slug>`.
    pub path: String,
    pub root: String,
    pub slug: String,
    /// Paths relative to `path`.
    pub held: Vec<String>,
}

pub ghost struct PlanView {
    pub path: Seq<char>,
    pub root: Seq<char>,
    pub slug: Seq<char>,
    pub held: Seq<Seq<char>>,
}

impl View for Plan {
    type V = PlanView;

    open spec fn view(&self) -> PlanView {
        PlanView { path: self.path@, root: self.root@, slug: self.slug@, held: string_views(self.held@) }
    }
}

impl Plan {
    /// Whether the plan holds a file at a path relative to it.
    pub fn holds(&self, relative: &str) -> (r: bool)
        ensures
            r == self@.held.contains(relative@),
    {
        let target = chars_of(relative);
        let mut i: usize = 0;
        while i < self.held.len()
            invariant
                i <= self.held.len(),
                target@ == relative@,
                forall|k: int| 0 <= k < i ==> self@.held[k] != relative@,
            decreases self.held.len() - i,
        {
            if crate::text::same(&chars_of(self.held[i].as_str()), &target) {
                assert(self@.held[i as int] == relative@);
                return true;
            }
            i += 1;
        }
        false
    }

    /// Whether the plan holds anything beneath a directory relative to it.
    pub fn holds_directory(&self, relative: &str) -> (r: bool)
        ensures
            r == exists|k: int| 0 <= k < self@.held.len() && (relative@ + seq!['/']).is_prefix_of(#[trigger] self@.held[k]),
    {
        let mut prefix = chars_of(relative);
        prefix.push('/');
        assert(prefix@ =~= relative@ + seq!['/']);
        let mut i: usize = 0;
        while i < self.held.len()
            invariant
                i <= self.held.len(),
                prefix@ == relative@ + seq!['/'],
                forall|k: int| 0 <= k < i ==> !(relative@ + seq!['/']).is_prefix_of(#[trigger] self@.held[k]),
            decreases self.held.len() - i,
        {
            if starts_with(&chars_of(self.held[i].as_str()), &prefix) {
                assert((relative@ + seq!['/']).is_prefix_of(self@.held[i as int]));
                return true;
            }
            i += 1;
        }
        false
    }
}

/// A path under the plan root, split into its root, its slug, and the path
/// within the plan; `None` for anything shallower.
pub open spec fn entry_of(path: Seq<char>, prefix: Seq<char>) -> Option<(Seq<char>, Seq<char>, Seq<char>)> {
    if prefix.is_prefix_of(path) {
        match split_once_spec(path.skip(prefix.len() as int), seq!['/']) {
            Some((root, after)) => match split_once_spec(after, seq!['/']) {
                Some((slug, relative)) => Some((root, slug, relative)),
                None => None,
            },
            None => None,
        }
    } else {
        None
    }
}

/// Every file under the plan root, split, in listing order.
pub open spec fn entries_spec(files: Seq<Seq<char>>, prefix: Seq<char>) -> Seq<(Seq<char>, Seq<char>, Seq<char>)>
    decreases files.len(),
{
    if files.len() == 0 {
        Seq::empty()
    } else {
        let rest = entries_spec(files.drop_last(), prefix);
        match entry_of(files.last(), prefix) {
            Some(e) => rest.push(e),
            None => rest,
        }
    }
}

pub open spec fn entry_views(v: Seq<(String, String, String)>) -> Seq<(Seq<char>, Seq<char>, Seq<char>)> {
    Seq::new(v.len(), |i: int| (v[i].0@, v[i].1@, v[i].2@))
}

fn entry_at(path: &Vec<char>, prefix: &Vec<char>) -> (r: Option<(Vec<char>, Vec<char>, Vec<char>)>)
    ensures
        match r {
            Some((a, b, c)) => entry_of(path@, prefix@) == Some((a@, b@, c@)),
            None => entry_of(path@, prefix@) is None,
        },
{
    if !starts_with(path, prefix) {
        return None;
    }
    let rest = slice(path, prefix.len(), path.len());
    assert(rest@ =~= path@.skip(prefix@.len() as int));
    let slash = chars_of("/");
    proof {
        reveal_strlit("/");
    }
    assert(slash@ =~= seq!['/']);
    match split_once(&rest, &slash) {
        Some((root, after)) => match split_once(&after, &slash) {
            Some((slug, relative)) => Some((root, slug, relative)),
            None => None,
        },
        None => None,
    }
}

/// Every file under the plan root, split into the root, the slug, and the
/// path within the plan.
pub fn entries(files: &[String], prefix: &str) -> (r: Vec<(String, String, String)>)
    ensures
        entry_views(r@) == entries_spec(string_views(files@), prefix@),
{
    let ghost fv = string_views(files@);
    let p = chars_of(prefix);
    let mut r: Vec<(String, String, String)> = Vec::new();
    let mut i: usize = 0;
    while i < files.len()
        invariant
            i <= files.len(),
            fv == string_views(files@),
            p@ == prefix@,
            entry_views(r@) == entries_spec(fv.take(i as int), prefix@),
        decreases files.len() - i,
    {
        assert(fv.take(i + 1).drop_last() =~= fv.take(i as int));
        assert(fv.take(i + 1).last() == files@[i as int]@);
        match entry_at(&chars_of(files[i].as_str()), &p) {
            Some((a, b, c)) => {
                let ghost before = entry_views(r@);
                r.push((string_of(&a), string_of(&b), string_of(&c)));
                assert(entry_views(r@) =~= before.push((a@, b@, c@)));
            },
            None => {},
        }
        i += 1;
    }
    assert(fv.take(files.len() as int) =~= fv);
    r
}

/// What a read of one plan document answers: its text, nothing where it is
/// absent, or a refusal.
pub open spec fn read_outcome(path: Seq<char>, read: Result<Seq<char>, TreeFault>) -> Result<Option<Seq<char>>, ReportView> {
    match read {
        Ok(text) => Ok(Some(text)),
        Err(TreeFault::NotFound) => Ok(None),
        Err(fault) => Err(refusal(path, fault)),
    }
}

/// A read that failed on something other than absence, as a refusal.
pub open spec fn refusal(path: Seq<char>, fault: TreeFault) -> ReportView {
    refused_view(
        CATEGORY@,
        path + ": "@ + match fault {
            TreeFault::Unreadable(reason) => reason,
            _ => "holds no text"@,
        },
    )
}

/// A read that failed on something other than absence, as a refusal. Fail
/// closed: a plan document that could not be opened leaves nothing to say
/// about the plan.
pub fn refuse(path: &str, error: &TreeError) -> (r: Report)
    ensures
        r@ == refusal(path@, error@),
{
    let mut m = chars_of(path);
    extend_str(&mut m, ": ");
    match error {
        TreeError::Unreadable(reason) => extend_str(&mut m, reason.as_str()),
        _ => extend_str(&mut m, "holds no text"),
    }
    Report::refused(CATEGORY, string_of(&m).as_str())
}

/// One of a plan's documents, or nothing where it is absent.
pub fn read<T: Tree>(tree: &T, plan: &Plan, name: &str) -> (r: Result<Option<String>, Box<Report>>)
    ensures
        exists|answer: Result<Seq<char>, TreeFault>|
            tree.reads_as(plan@.path + seq!['/'] + name@, answer) && #[trigger] read_outcome(plan@.path + seq!['/'] + name@, answer) == match r {
                Ok(Some(text)) => Ok::<Option<Seq<char>>, ReportView>(Some(text@)),
                Ok(None) => Ok(None),
                Err(report) => Err(report@),
            },
{
    let mut path = chars_of(plan.path.as_str());
    path.push('/');
    extend_str(&mut path, name);
    assert(path@ =~= plan@.path + seq!['/'] + name@);
    let p = string_of(&path);
    let answer = tree.read(p.as_str());
    let ghost a = read_view(answer);
    assert(tree.reads_as(plan@.path + seq!['/'] + name@, a));
    match answer {
        Ok(text) => {
            assert(read_outcome(plan@.path + seq!['/'] + name@, a) == Ok::<Option<Seq<char>>, ReportView>(Some(text@)));
            Ok(Some(text))
        },
        Err(TreeError::NotFound) => {
            assert(read_outcome(plan@.path + seq!['/'] + name@, a) == Ok::<Option<Seq<char>>, ReportView>(None));
            Ok(None)
        },
        Err(error) => {
            let report = refuse(p.as_str(), &error);
            assert(read_outcome(plan@.path + seq!['/'] + name@, a) == Err::<Option<Seq<char>>, ReportView>(report@));
            Err(Box::new(report))
        },
    }
}

/// Lowercase letters and digits, separated by single hyphens.
pub open spec fn kebab(name: Seq<char>) -> bool {
    &&& name.len() > 0
    &&& name[0] != '-'
    &&& name.last() != '-'
    &&& forall|i: int| 0 <= i < name.len() - 1 ==> !(#[trigger] name[i] == '-' && name[i + 1] == '-')
    &&& forall|i: int|
        0 <= i < name.len() ==> crate::text::is_lower(#[trigger] name[i]) || crate::text::is_digit(name[i]) || name[i] == '-'
}

/// Whether a name is lowercase, hyphen-separated, and separated by single
/// hyphens.
pub fn is_kebab_case(name: &str) -> (r: bool)
    ensures
        r == kebab(name@),
{
    let v = chars_of(name);
    if v.len() == 0 || v[0] == '-' || v[v.len() - 1] == '-' {
        return false;
    }
    let mut i: usize = 0;
    while i < v.len()
        invariant
            i <= v.len(),
            v@ == name@,
            forall|k: int| 0 <= k < i && k < v.len() - 1 ==> !(#[trigger] v@[k] == '-' && v@[k + 1] == '-'),
            forall|k: int| 0 <= k < i ==> crate::text::is_lower(#[trigger] v@[k]) || crate::text::is_digit(v@[k]) || v@[k] == '-',
        decreases v.len() - i,
    {
        let c = v[i];
        if !(('a' <= c && c <= 'z') || ('0' <= c && c <= '9') || c == '-') {
            return false;
        }
        if c == '-' && i + 1 < v.len() && v[i + 1] == '-' {
            return false;
        }
        i += 1;
    }
    true
}

/// The slugs that appear under more than one lifecycle root.
pub open spec fn shared_spec(entries: Seq<(Seq<char>, Seq<char>, Seq<char>)>) -> Set<Seq<char>> {
    Set::new(
        |slug: Seq<char>|
            exists|i: int, j: int|
                0 <= i < entries.len() && 0 <= j < entries.len() && #[trigger] entries[i].1 == slug && #[trigger] entries[j].1
                    == slug && entries[i].0 != entries[j].0,
    )
}

/// The set of plan slugs that appear under more than one lifecycle root, in
/// name order.
pub fn shared_slugs(files: &[String], prefix: &str) -> (r: Vec<String>)
    ensures
        crate::text::strictly_sorted(string_views(r@)),
        string_views(r@).to_set() == shared_spec(entries_spec(string_views(files@), prefix@)),
{
    let all = entries(files, prefix);
    let ghost ev = entry_views(all@);
    let mut found: Vec<Vec<char>> = Vec::new();
    let mut i: usize = 0;
    while i < all.len()
        invariant
            i <= all.len(),
            ev == entry_views(all@),
            crate::text::strictly_sorted(views(found@)),
            views(found@).to_set() == Set::new(
                |slug: Seq<char>|
                    exists|a: int, b: int|
                        0 <= a < i && 0 <= b < ev.len() && #[trigger] ev[a].1 == slug && #[trigger] ev[b].1 == slug && ev[a].0
                            != ev[b].0,
            ),
        decreases all.len() - i,
    {
        let mut j: usize = 0;
        let mut other = false;
        while j < all.len()
            invariant
                j <= all.len(),
                i < all.len(),
                ev == entry_views(all@),
                other == exists|b: int| 0 <= b < j && #[trigger] ev[b].1 == ev[i as int].1 && ev[i as int].0 != ev[b].0,
            decreases all.len() - j,
        {
            assert(ev[j as int] == (all@[j as int].0@, all@[j as int].1@, all@[j as int].2@));
            assert(ev[i as int] == (all@[i as int].0@, all@[i as int].1@, all@[i as int].2@));
            let same_slug = crate::text::same(&chars_of(all[j].1.as_str()), &chars_of(all[i].1.as_str()));
            let same_root = crate::text::same(&chars_of(all[i].0.as_str()), &chars_of(all[j].0.as_str()));
            if same_slug && !same_root {
                other = true;
            }
            assert(other == exists|b: int| 0 <= b < j + 1 && #[trigger] ev[b].1 == ev[i as int].1 && ev[i as int].0 != ev[b].0) by {
                if same_slug && !same_root {
                    assert(ev[j as int].1 == ev[i as int].1 && ev[i as int].0 != ev[j as int].0);
                }
            }
            j += 1;
        }
        let ghost before = views(found@).to_set();
        if other {
            crate::text::insert_sorted(&mut found, chars_of(all[i].1.as_str()));
        }
        assert(views(found@).to_set() =~= Set::new(
            |slug: Seq<char>|
                exists|a: int, b: int|
                    0 <= a < i + 1 && 0 <= b < ev.len() && #[trigger] ev[a].1 == slug && #[trigger] ev[b].1 == slug && ev[a].0
                        != ev[b].0,
        )) by {
            if other {
                let b = choose|b: int| 0 <= b < all.len() && #[trigger] ev[b].1 == ev[i as int].1 && ev[i as int].0 != ev[b].0;
                assert(ev[i as int].1 == ev[b].1);
            }
        }
        i += 1;
    }
    let mut r: Vec<String> = Vec::new();
    let mut k: usize = 0;
    while k < found.len()
        invariant
            k <= found.len(),
            string_views(r@) == views(found@).take(k as int),
        decreases found.len() - k,
    {
        let ghost before = string_views(r@);
        r.push(string_of(&found[k]));
        assert(string_views(r@) =~= before.push(found@[k as int]@));
        assert(views(found@).take(k + 1) =~= views(found@).take(k as int).push(found@[k as int]@));
        k += 1;
    }
    assert(views(found@).take(found.len() as int) =~= views(found@));
    assert(shared_spec(ev) =~= Set::new(
        |slug: Seq<char>|
            exists|a: int, b: int|
                0 <= a < all.len() && 0 <= b < ev.len() && #[trigger] ev[a].1 == slug && #[trigger] ev[b].1 == slug && ev[a].0
                    != ev[b].0,
    ));
    r
}

/// A plan as the listing first groups it: its files in listing order.
pub ghost struct Draft {
    pub path: Seq<char>,
    pub root: Seq<char>,
    pub slug: Seq<char>,
    pub held: Seq<Seq<char>>,
}

/// The first draft at or after `k` whose path is `owner`.
pub open spec fn find_path(ds: Seq<Draft>, owner: Seq<char>, k: nat) -> Option<nat>
    decreases ds.len() - k,
{
    if k >= ds.len() {
        None
    } else if ds[k as int].path == owner {
        Some(k)
    } else {
        find_path(ds, owner, k + 1)
    }
}

/// Every plan directory, in order of first appearance, with its files.
pub open spec fn drafts(entries: Seq<(Seq<char>, Seq<char>, Seq<char>)>, prefix: Seq<char>) -> Seq<Draft>
    decreases entries.len(),
{
    if entries.len() == 0 {
        Seq::empty()
    } else {
        let ds = drafts(entries.drop_last(), prefix);
        let (root, slug, relative) = entries.last();
        let owner = prefix + root + seq!['/'] + slug;
        match find_path(ds, owner, 0) {
            Some(i) => ds.update(i as int, Draft { held: ds[i as int].held.push(relative), ..ds[i as int] }),
            None => ds.push(Draft { path: owner, root, slug, held: seq![relative] }),
        }
    }
}

/// Whether `plans` are the drafts with their files in path order.
pub open spec fn plans_fit(ds: Seq<Draft>, plans: Seq<PlanView>) -> bool {
    &&& plans.len() == ds.len()
    &&& forall|i: int|
        0 <= i < ds.len() ==> (#[trigger] plans[i]).path == ds[i].path && plans[i].root == ds[i].root && plans[i].slug
            == ds[i].slug && crate::text::sorted(plans[i].held) && plans[i].held.to_multiset()
            == ds[i].held.to_multiset()
}

pub open spec fn plan_views(v: Seq<Plan>) -> Seq<PlanView> {
    Seq::new(v.len(), |i: int| v[i]@)
}

pub open spec fn draft_views(v: Seq<(Vec<char>, Vec<char>, Vec<char>, Vec<Vec<char>>)>) -> Seq<Draft> {
    Seq::new(v.len(), |i: int| Draft { path: v[i].0@, root: v[i].1@, slug: v[i].2@, held: views(v[i].3@) })
}

/// Every plan directory, in order of first appearance, its files sorted.
pub fn discover(files: &[String], prefix: &str) -> (r: Vec<Plan>)
    ensures
        plans_fit(drafts(entries_spec(string_views(files@), prefix@), prefix@), plan_views(r@)),
{
    let all = entries(files, prefix);
    let ghost ev = entry_views(all@);
    let mut ds: Vec<(Vec<char>, Vec<char>, Vec<char>, Vec<Vec<char>>)> = Vec::new();
    let mut i: usize = 0;
    while i < all.len()
        invariant
            i <= all.len(),
            ev == entry_views(all@),
            draft_views(ds@) == drafts(ev.take(i as int), prefix@),
        decreases all.len() - i,
    {
        assert(ev.take(i + 1).drop_last() =~= ev.take(i as int));
        assert(ev.take(i + 1).last() == (all@[i as int].0@, all@[i as int].1@, all@[i as int].2@));
        let ghost dv = draft_views(ds@);
        let mut owner = chars_of(prefix);
        extend(&mut owner, &chars_of(all[i].0.as_str()));
        owner.push('/');
        extend(&mut owner, &chars_of(all[i].1.as_str()));
        assert(owner@ =~= prefix@ + all@[i as int].0@ + seq!['/'] + all@[i as int].1@);
        let relative = chars_of(all[i].2.as_str());
        let mut k: usize = 0;
        let mut at: Option<usize> = None;
        assert(find_path(dv, owner@, 0) == find_path(dv, owner@, 0));
        while k < ds.len()
            invariant_except_break
                k <= ds.len(),
                at is None,
                find_path(dv, owner@, 0) == find_path(dv, owner@, k as nat),
            invariant
                dv == draft_views(ds@),
            ensures
                match at {
                    Some(j) => j < ds.len() && find_path(dv, owner@, 0) == Some(j as nat),
                    None => find_path(dv, owner@, 0) is None,
                },
            decreases ds.len() - k,
        {
            if crate::text::same(&ds[k].0, &owner) {
                at = Some(k);
                break;
            }
            k += 1;
        }
        match at {
            Some(j) => {
                let ghost before = dv[j as int];
                let mut entry = ds.remove(j);
                let ghost removed = draft_views(ds@);
                entry.3.push(relative);
                assert(views(entry.3@) =~= before.held.push(all@[i as int].2@));
                ds.insert(j, entry);
                assert(draft_views(ds@) =~= dv.update(j as int, Draft { held: dv[j as int].held.push(all@[i as int].2@), ..dv[j as int] }));
            },
            None => {
                let ghost rel = relative@;
                let mut held: Vec<Vec<char>> = Vec::new();
                held.push(relative);
                assert(views(held@) =~= seq![rel]);
                let ghost o = owner@;
                ds.push((owner, chars_of(all[i].0.as_str()), chars_of(all[i].1.as_str()), held));
                assert(draft_views(ds@) =~= dv.push(Draft { path: o, root: all@[i as int].0@, slug: all@[i as int].1@, held: seq![rel] }));
            },
        }
        i += 1;
    }
    assert(ev.take(all.len() as int) =~= ev);
    let ghost target = draft_views(ds@);
    let mut plans: Vec<Plan> = Vec::new();
    let mut n: usize = 0;
    while n < ds.len()
        invariant
            n <= ds.len(),
            target == draft_views(ds@),
            plans@.len() == n,
            forall|q: int|
                0 <= q < n ==> (#[trigger] plan_views(plans@)[q]).path == target[q].path && plan_views(plans@)[q].root
                    == target[q].root && plan_views(plans@)[q].slug == target[q].slug && crate::text::sorted(
                    plan_views(plans@)[q].held,
                ) && plan_views(plans@)[q].held.to_multiset() == target[q].held.to_multiset(),
        decreases ds.len() - n,
    {
        let mut held: Vec<Vec<char>> = Vec::new();
        let mut h: usize = 0;
        while h < ds[n].3.len()
            invariant
                h <= ds@[n as int].3.len(),
                n < ds.len(),
                views(held@) == views(ds@[n as int].3@).take(h as int),
            decreases ds@[n as int].3.len() - h,
        {
            let piece = slice(&ds[n].3[h], 0, ds[n].3[h].len());
            assert(piece@ =~= ds@[n as int].3@[h as int]@);
            let ghost before = views(held@);
            held.push(piece);
            assert(views(held@) =~= before.push(ds@[n as int].3@[h as int]@));
            assert(views(ds@[n as int].3@).take(h + 1) =~= views(ds@[n as int].3@).take(h as int).push(ds@[n as int].3@[h as int]@));
            h += 1;
        }
        assert(views(ds@[n as int].3@).take(ds@[n as int].3.len() as int) =~= views(ds@[n as int].3@));
        crate::text::sort(&mut held);
        let mut strings: Vec<String> = Vec::new();
        let mut w: usize = 0;
        while w < held.len()
            invariant
                w <= held.len(),
                string_views(strings@) == views(held@).take(w as int),
            decreases held.len() - w,
        {
            let ghost before = string_views(strings@);
            strings.push(string_of(&held[w]));
            assert(string_views(strings@) =~= before.push(held@[w as int]@));
            assert(views(held@).take(w + 1) =~= views(held@).take(w as int).push(held@[w as int]@));
            w += 1;
        }
        assert(views(held@).take(held.len() as int) =~= views(held@));
        let plan = Plan {
            path: string_of(&ds[n].0),
            root: string_of(&ds[n].1),
            slug: string_of(&ds[n].2),
            held: strings,
        };
        assert(plan@.held == views(held@));
        assert(target[n as int].held == views(ds@[n as int].3@));
        let ghost old_views = plan_views(plans@);
        plans.push(plan);
        assert(plan_views(plans@) =~= old_views.push(plans@[n as int]@));
        n += 1;
    }
    assert(plan_views(plans@).len() == target.len());
    plans
}

/// What the tree answered for one plan: reading its technical index (with
/// that index's targets and the repeated ordinals, in name order), its
/// checklist, and its requirements.
pub ghost struct PlanAnswers {
    pub index: Result<Seq<char>, TreeFault>,
    pub keys: Seq<Seq<char>>,
    pub dups: Seq<Seq<char>>,
    pub checklist: Result<Seq<char>, TreeFault>,
    pub requirements: Result<Seq<char>, TreeFault>,
}

/// What one plan is found to break, or the refusal its reads end in.
pub open spec fn plan_outcome(
    plan: PlanView,
    unknown: Set<Seq<char>>,
    entries: Seq<(Seq<char>, Seq<char>, Seq<char>)>,
    a: PlanAnswers,
) -> Result<Seq<FindingView>, ReportView> {
    let lifecycle = if unknown.contains(plan.root) {
        Seq::empty()
    } else {
        lifecycle::lifecycle_findings(plan, entries)
    };
    if plan.root == DONE@ || plan.root == IDEAS@ {
        Ok(lifecycle)
    } else {
        let documents = documents::document_findings(plan);
        match companions::index_outcome(plan, a.index, a.keys, a.dups) {
            Err(v) => Err(v),
            Ok(modules) => match read_outcome(plan.path + seq!['/'] + delivery::CHECKLIST@, a.checklist) {
                Err(v) => Err(v),
                Ok(checklist) => {
                    let delivered = match checklist {
                        Some(text) => delivery::delivery_findings(plan, text),
                        None => Seq::empty(),
                    };
                    match criteria::criteria_outcome(plan, a.requirements, checklist) {
                        Err(v) => Err(v),
                        Ok(judged) => Ok(lifecycle + documents + modules + judged + delivered),
                    }
                },
            },
        }
    }
}

/// The findings over the first `answers.len()` plans; the first refusal
/// ends the run.
pub open spec fn plan_run(
    plans: Seq<PlanView>,
    unknown: Set<Seq<char>>,
    entries: Seq<(Seq<char>, Seq<char>, Seq<char>)>,
    answers: Seq<PlanAnswers>,
) -> Result<Seq<FindingView>, ReportView>
    decreases answers.len(),
{
    if answers.len() == 0 || plans.len() < answers.len() {
        Ok(Seq::empty())
    } else {
        let k = answers.len() - 1;
        match plan_run(plans, unknown, entries, answers.drop_last()) {
            Err(v) => Err(v),
            Ok(found) => match plan_outcome(plans[k], unknown, entries, answers[k]) {
                Err(v) => Err(v),
                Ok(more) => Ok(found + more),
            },
        }
    }
}

/// Whether each plan's answers carry its index's targets and repeated
/// ordinals in name order.
/// Whether a plan's answers are the tree's, for each read its inspection
/// reached: the technical index when the plan holds modules, the checklist
/// once the index was settled, and the requirements once the checklist was.
pub open spec fn answers_tied<T: Tree>(tree: T, plan: PlanView, a: PlanAnswers) -> bool {
    plan.root != DONE@ && plan.root != IDEAS@ ==> {
        &&& companions::module_names(plan.held).len() > 0 ==> tree.reads_as(companions::technical_index(plan.path), a.index)
        &&& companions::index_outcome(plan, a.index, a.keys, a.dups) is Ok ==> {
            &&& tree.reads_as(plan.path + seq!['/'] + delivery::CHECKLIST@, a.checklist)
            &&& read_outcome(plan.path + seq!['/'] + delivery::CHECKLIST@, a.checklist) is Ok ==> tree.reads_as(
                plan.path + seq!['/'] + criteria::DEFINITIONS@,
                a.requirements,
            )
        }
    }
}

/// Whether every plan's answers are the tree's.
pub open spec fn all_tied<T: Tree>(tree: T, plans: Seq<PlanView>, answers: Seq<PlanAnswers>) -> bool {
    forall|k: int| 0 <= k < answers.len() && k < plans.len() ==> answers_tied(tree, plans[k], #[trigger] answers[k])
}

pub open spec fn answers_fit(plans: Seq<PlanView>, answers: Seq<PlanAnswers>) -> bool {
    forall|k: int|
        0 <= k < answers.len() && plans[k].root != DONE@ && plans[k].root != IDEAS@ ==> companions::orders_fit(
            plans[k],
            (#[trigger] answers[k]).index,
            answers[k].keys,
            answers[k].dups,
        )
}

pub open spec fn plan_report(inspected: nat, findings: Seq<FindingView>) -> ReportView {
    ReportView {
        category: CATEGORY@,
        subject: "plan"@,
        inspected,
        scanned: Seq::empty(),
        notes: Seq::empty(),
        measurements: Seq::empty(),
        findings,
        refusal: None,
    }
}

#[verifier::spinoff_prover]
#[verifier::rlimit(40)]
fn inspect_plan<T: Tree>(tree: &T, plan: &Plan, files: &Vec<String>, prefix: &str, unknown: &Vec<String>, report: &mut Report) -> (r: (
    Result<(), Box<Report>>,
    Ghost<PlanAnswers>,
))
    ensures
        plan@.root != DONE@ && plan@.root != IDEAS@ ==> companions::orders_fit(plan@, r.1@.index, r.1@.keys, r.1@.dups),
        answers_tied(*tree, plan@, r.1@),
        match plan_outcome(plan@, string_views(unknown@).to_set(), entries_spec(string_views(files@), prefix@), r.1@) {
            Ok(found) => r.0 is Ok && final(report)@ == (ReportView { findings: old(report)@.findings + found, ..old(report)@ }),
            Err(v) => r.0 matches Err(b) && b@ == v,
        },
{
    let ghost uset = string_views(unknown@).to_set();
    let ghost ev = entries_spec(string_views(files@), prefix@);
    let ghost prior = report@;
    let mut settled = true;
    let mut u: usize = 0;
    while u < unknown.len()
        invariant
            u <= unknown.len(),
            settled == forall|j: int| 0 <= j < u ==> #[trigger] string_views(unknown@)[j] != plan@.root,
        decreases unknown.len() - u,
    {
        assert(string_views(unknown@)[u as int] == unknown@[u as int]@);
        if crate::text::same(&chars_of(unknown[u].as_str()), &chars_of(plan.root.as_str())) {
            settled = false;
        }
        u += 1;
    }
    assert(settled == !uset.contains(plan@.root)) by {
        assert(string_views(unknown@).to_set().contains(plan@.root) == string_views(unknown@).contains(plan@.root));
    }
    if settled {
        lifecycle::inspect(plan, files.as_slice(), prefix, report);
    }
    let ghost lifecycle_part = if uset.contains(plan@.root) {
        Seq::<FindingView>::empty()
    } else {
        lifecycle::lifecycle_findings(plan@, ev)
    };
    assert(report@.findings =~= prior.findings + lifecycle_part);
    let root = chars_of(plan.root.as_str());
    let ghost mut a = PlanAnswers {
        index: Err(TreeFault::NotFound),
        keys: Seq::empty(),
        dups: Seq::empty(),
        checklist: Err(TreeFault::NotFound),
        requirements: Err(TreeFault::NotFound),
    };
    if crate::text::is(&root, DONE) || crate::text::is(&root, IDEAS) {
        assert(report@.findings =~= prior.findings + plan_outcome(plan@, uset, ev, a)->Ok_0);
        return (Ok(()), Ghost(a));
    }
    documents::inspect(plan, report);
    let ghost before_modules = report@;
    let outcome = companions::inspect(tree, plan, report);
    let ghost (ia, ik, id) = choose|answer: Result<Seq<char>, TreeFault>, keys: Seq<Seq<char>>, dups: Seq<Seq<char>>|
        companions::orders_fit(plan@, answer, keys, dups) && (companions::module_names(plan@.held).len() > 0 ==> tree.reads_as(
            companions::technical_index(plan@.path),
            answer,
        )) && match #[trigger] companions::index_outcome(plan@, answer, keys, dups) {
            Ok(found) => outcome is Ok && report@ == (ReportView { findings: before_modules.findings + found, ..before_modules }),
            Err(v) => outcome matches Err(b) && b@ == v,
        };
    proof {
        a = PlanAnswers { index: ia, keys: ik, dups: id, ..a };
    }
    match outcome {
        Err(refused) => {
            return (Err(refused), Ghost(a));
        },
        Ok(()) => {},
    }
    let checklist = match read(tree, plan, delivery::CHECKLIST) {
        Ok(c) => c,
        Err(refused) => {
            proof {
                let ca = choose|answer: Result<Seq<char>, TreeFault>|
                    tree.reads_as(plan@.path + seq!['/'] + delivery::CHECKLIST@, answer) && #[trigger] read_outcome(
                        plan@.path + seq!['/'] + delivery::CHECKLIST@,
                        answer,
                    ) == Err::<Option<Seq<char>>, ReportView>(refused@);
                a = PlanAnswers { checklist: ca, ..a };
            }
            return (Err(refused), Ghost(a));
        },
    };
    let ghost cv: Option<Seq<char>> = match &checklist {
        Some(text) => Some(text@),
        None => None,
    };
    proof {
        let ca = choose|answer: Result<Seq<char>, TreeFault>|
            tree.reads_as(plan@.path + seq!['/'] + delivery::CHECKLIST@, answer) && #[trigger] read_outcome(
                plan@.path + seq!['/'] + delivery::CHECKLIST@,
                answer,
            ) == Ok::<Option<Seq<char>>, ReportView>(cv);
        a = PlanAnswers { checklist: ca, ..a };
    }
    let view = match &checklist {
        Some(text) => Some(text.as_str()),
        None => None,
    };
    assert(match view {
        Some(c) => Some(c@),
        None => None,
    } == cv);
    let ghost before_criteria = report@;
    let judged = criteria::inspect(tree, plan, view, report);
    let ghost ra = choose|answer: Result<Seq<char>, TreeFault>|
        tree.reads_as(plan@.path + seq!['/'] + criteria::DEFINITIONS@, answer) && match #[trigger] criteria::criteria_outcome(
            plan@,
            answer,
            cv,
        ) {
            Ok(found) => judged is Ok && report@ == (ReportView { findings: before_criteria.findings + found, ..before_criteria }),
            Err(v) => judged matches Err(refused) && refused@ == v,
        };
    proof {
        a = PlanAnswers { requirements: ra, ..a };
    }
    match judged {
        Err(refused) => {
            return (Err(refused), Ghost(a));
        },
        Ok(()) => {},
    }
    delivery::inspect(plan, view, report);
    proof {
        assert(plan_outcome(plan@, uset, ev, a) is Ok);
        assert(report@.findings =~= prior.findings + plan_outcome(plan@, uset, ev, a)->Ok_0);
    }
    (Ok(()), Ghost(a))
}

/// Checks every plan under the plan root: its lifecycle form, and, for a
/// plan neither finished nor a brief, its documents, companions, criteria
/// and checklist.
pub fn validate<T: Tree>(tree: &T) -> (r: Report)
    ensures
        exists|files: Seq<Seq<char>>, plans: Seq<PlanView>, answers: Seq<PlanAnswers>|
            #![trigger plan_run(plans, lifecycle::unknown_from(files, ROOT@ + seq!['/']).0.to_set(), entries_spec(files, ROOT@ + seq!['/']), answers)]
            tree.lists(files) && plans_fit(drafts(entries_spec(files, ROOT@ + seq!['/']), ROOT@ + seq!['/']), plans)
                && answers.len() <= plans.len()
                && answers_fit(plans, answers) && all_tied(*tree, plans, answers) && match plan_run(
                plans,
                lifecycle::unknown_from(files, ROOT@ + seq!['/']).0.to_set(),
                entries_spec(files, ROOT@ + seq!['/']),
                answers,
            ) {
                Err(v) => r@ == v,
                Ok(found) => answers.len() == plans.len() && r@ == plan_report(
                    plans.len(),
                    lifecycle::unknown_from(files, ROOT@ + seq!['/']).1 + found,
                ),
            },
{
    let mut report = Report::new(CATEGORY, "plan");
    let files = tree.files();
    let ghost fv = string_views(files@);
    let mut p = chars_of(ROOT);
    p.push('/');
    assert(p@ =~= ROOT@ + seq!['/']);
    let prefix = string_of(&p);
    let unknown = lifecycle::unknown_roots(files.as_slice(), prefix.as_str(), &mut report);
    let ghost uset = lifecycle::unknown_from(fv, prefix@).0.to_set();
    let ghost ev = entries_spec(fv, prefix@);
    let plans = discover(files.as_slice(), prefix.as_str());
    let ghost pv = plan_views(plans@);
    let ghost head = report@.findings;
    let ghost mut answers: Seq<PlanAnswers> = Seq::empty();
    let mut t: usize = 0;
    while t < plans.len()
        invariant
            t <= plans.len(),
            pv == plan_views(plans@),
            fv == string_views(files@),
            prefix@ == ROOT@ + seq!['/'],
            uset == lifecycle::unknown_from(fv, prefix@).0.to_set(),
            string_views(unknown@).to_set() == uset,
            ev == entries_spec(fv, prefix@),
            plans_fit(drafts(ev, prefix@), pv),
            answers.len() == t,
            answers_fit(pv, answers),
            all_tied(*tree, pv, answers),
            tree.lists(fv),
            plan_run(pv, uset, ev, answers) is Ok,
            report@ == plan_report(t as nat, head + plan_run(pv, uset, ev, answers)->Ok_0),
            head == lifecycle::unknown_from(fv, prefix@).1,
        decreases plans.len() - t,
    {
        assert(pv[t as int] == plans@[t as int]@);
        report.inspected_one();
        let (outcome, Ghost(a)) = inspect_plan(tree, &plans[t], &files, prefix.as_str(), &unknown, &mut report);
        let ghost a2 = answers.push(a);
        proof {
            assert(a2.drop_last() =~= answers);
            assert(answers_fit(pv, a2));
            assert(all_tied(*tree, pv, a2)) by {
                assert forall|k: int| 0 <= k < a2.len() && k < pv.len() implies answers_tied(*tree, pv[k], #[trigger] a2[k]) by {
                    if k < t {
                        assert(a2[k] == answers[k]);
                    }
                }
            }
        }
        match outcome {
            Err(refused) => {
                assert(plan_run(pv, uset, ev, a2) == Err::<Seq<FindingView>, ReportView>(refused@));
                return *refused;
            },
            Ok(()) => {},
        }
        proof {
            assert(report@.findings =~= head + plan_run(pv, uset, ev, a2)->Ok_0);
            answers = a2;
        }
        t += 1;
    }
    report
}

} // verus!
