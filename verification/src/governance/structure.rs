//! Governance root structure.
//!
//! The governance tree has five layers and a shared registry of categories
//! inside them. A repository needing a category the registry does not provide
//! declares it in configuration rather than by creating a directory, because
//! inferring a category from a directory removes the only moment anyone
//! considers whether the category should exist.
use crate::config::v2::{layers, listed, Document};
use crate::report::{FindingView, Report, ReportView};
use crate::runtime::{all_ancestors, exists_as, string_views, Tree};
use crate::text::{chars_of, extend, extend_str, split, split_spec, string_of, views};
use vstd::prelude::*;

verus! {

/// Where a repository keeps its governance, fixed by the shared contract.
pub const ROOT: &'static str = "repo-governance";

/// The categories the canonical catalog publishes.
pub open spec fn registry() -> Seq<Seq<char>> {
    seq![
        "conventions/security"@, "conventions/structure"@, "conventions/writing"@, "development/agents"@,
        "development/quality"@, "development/workflow"@, "workflows/adoption"@, "workflows/maintenance"@,
        "workflows/plan"@, "workflows/quality"@,
    ]
}

pub const UNUSED: &'static str = "is declared and holds nothing; a category exists because it holds something, and the registry does not oblige a repository to create one it does not use";

pub const UNDECLARED: &'static str = "is not a registered category, and this repository declares no local category of that name under `governance.local-categories`";

pub const EMPTY: &'static str = "holds no file; a directory exists because it holds something, and an empty one is a promise about future content rather than content";

pub open spec fn plain(kind: Seq<char>, path: Seq<char>, message: Seq<char>) -> FindingView {
    FindingView { kind, path, line: None, column: None, field: None, message, details: Seq::empty() }
}

/// Whether some listed path lies under a directory.
pub open spec fn holds_under(paths: Seq<Seq<char>>, directory: Seq<char>) -> bool {
    exists|i: int| 0 <= i < paths.len() && directory.push('/').is_prefix_of(#[trigger] paths[i])
}

/// The directory a category lives in.
pub open spec fn category_dir(category: Seq<char>) -> Seq<char> {
    ROOT@ + seq!['/'] + category
}

/// One finding for every declared category that holds no file, in the
/// order declared.
pub open spec fn unused_findings(categories: Seq<Seq<char>>, files: Seq<Seq<char>>) -> Seq<FindingView>
    decreases categories.len(),
{
    if categories.len() == 0 {
        Seq::empty()
    } else {
        let rest = unused_findings(categories.drop_last(), files);
        if holds_under(files, category_dir(categories.last())) {
            rest
        } else {
            rest.push(plain("unused-local-category"@, categories.last(), UNUSED@))
        }
    }
}

/// The directories of declared categories that hold no file.
pub open spec fn unused_dirs(categories: Seq<Seq<char>>, files: Seq<Seq<char>>) -> Set<Seq<char>> {
    Set::new(|d: Seq<char>| exists|i: int| 0 <= i < categories.len() && d == category_dir(#[trigger] categories[i]) && !holds_under(files, d))
}

/// A structure report after one more directory, and the directories named
/// so far. `companion` is whether a document sits beside the directory
/// under the same name, which makes a category-depth directory that
/// document's companion set rather than a category.
pub open spec fn structure_step(
    state: (ReportView, Set<Seq<char>>),
    directory: Seq<char>,
    categories: Seq<Seq<char>>,
    directories: Seq<Seq<char>>,
    files: Seq<Seq<char>>,
    companion: bool,
) -> (ReportView, Set<Seq<char>>) {
    let (v, reported) = state;
    let prefix = ROOT@ + seq!['/'];
    if !prefix.is_prefix_of(directory) {
        state
    } else {
        let v1 = ReportView { inspected: v.inspected + 1, ..v };
        let relative = directory.skip(prefix.len() as int);
        let segments = split_spec(relative, '/');
        let layer = segments[0];
        if !layers().contains(layer) {
            if segments.len() == 1 {
                (
                    ReportView {
                        findings: v1.findings.push(
                            plain(
                                "unknown-governance-layer"@,
                                directory,
                                "is not a governed layer; the layers are "@ + listed(layers()),
                            ),
                        ),
                        ..v1
                    },
                    reported.insert(directory),
                )
            } else {
                (v1, reported)
            }
        } else if segments.len() == 2 && !companion
            && !registry().contains(layer + seq!['/'] + segments[1]) && !categories.contains(layer + seq!['/'] + segments[1]) {
            (
                ReportView { findings: v1.findings.push(plain("undeclared-governance-category"@, directory, UNDECLARED@)), ..v1 },
                reported.insert(directory),
            )
        } else if !holds_under(files, directory) && !holds_under(directories, directory) && !reported.contains(directory) {
            (ReportView { findings: v1.findings.push(plain("empty-governed-directory"@, directory, EMPTY@)), ..v1 }, reported)
        } else {
            (v1, reported)
        }
    }
}

/// The structure report over the first `k` directories.
pub open spec fn structure_from(
    k: nat,
    categories: Seq<Seq<char>>,
    directories: Seq<Seq<char>>,
    files: Seq<Seq<char>>,
    companions: Seq<bool>,
) -> (ReportView, Set<Seq<char>>)
    decreases k,
{
    if k == 0 || k > directories.len() {
        (
            ReportView {
                category: "governance-roots"@,
                subject: "directory"@,
                inspected: 0,
                scanned: Seq::empty(),
                notes: Seq::empty(),
                measurements: Seq::empty(),
                findings: unused_findings(categories, files),
                refusal: None,
            },
            unused_dirs(categories, files),
        )
    } else {
        structure_step(
            structure_from((k - 1) as nat, categories, directories, files, companions),
            directories[k - 1],
            categories,
            directories,
            files,
            companions[k - 1],
        )
    }
}

/// The structure report over every directory the tree holds.
pub open spec fn structure_spec(
    categories: Seq<Seq<char>>,
    directories: Seq<Seq<char>>,
    files: Seq<Seq<char>>,
    companions: Seq<bool>,
) -> ReportView {
    structure_from(directories.len(), categories, directories, files, companions).0
}

fn holds(paths: &Vec<String>, directory: &Vec<char>) -> (r: bool)
    ensures
        r == holds_under(string_views(paths@), directory@),
{
    let mut prefix = crate::text::slice(directory, 0, directory.len());
    prefix.push('/');
    assert(prefix@ =~= directory@.push('/'));
    let ghost pv = string_views(paths@);
    let mut i: usize = 0;
    while i < paths.len()
        invariant
            i <= paths.len(),
            pv == string_views(paths@),
            prefix@ == directory@.push('/'),
            forall|k: int| 0 <= k < i ==> !directory@.push('/').is_prefix_of(#[trigger] pv[k]),
        decreases paths.len() - i,
    {
        if crate::text::starts_with(&chars_of(paths[i].as_str()), &prefix) {
            assert(directory@.push('/').is_prefix_of(pv[i as int]));
            return true;
        }
        i += 1;
    }
    false
}

fn contains_text(list: &Vec<Vec<char>>, x: &Vec<char>) -> (r: bool)
    ensures
        r == views(list@).contains(x@),
{
    let mut i: usize = 0;
    while i < list.len()
        invariant
            i <= list.len(),
            forall|k: int| 0 <= k < i ==> views(list@)[k] != x@,
        decreases list.len() - i,
    {
        if crate::text::same(&list[i], x) {
            assert(views(list@)[i as int] == x@);
            return true;
        }
        i += 1;
    }
    false
}

fn text_list(names: Vec<&'static str>) -> (r: Vec<Vec<char>>)
    ensures
        views(r@) == crate::cli::str_views(names@),
{
    let mut r: Vec<Vec<char>> = Vec::new();
    let mut i: usize = 0;
    while i < names.len()
        invariant
            i <= names.len(),
            views(r@) == crate::cli::str_views(names@).take(i as int),
        decreases names.len() - i,
    {
        let ghost before = views(r@);
        r.push(chars_of(names[i]));
        assert(views(r@) =~= before.push(names@[i as int]@));
        assert(views(r@) =~= crate::cli::str_views(names@).take(i + 1));
        i += 1;
    }
    assert(crate::cli::str_views(names@).take(names.len() as int) =~= crate::cli::str_views(names@));
    r
}

/// The path of the document a category-depth directory would be the
/// companion set of.
pub open spec fn companion_path(layer: Seq<char>, category: Seq<char>) -> Seq<char> {
    ROOT@ + seq!['/'] + layer + seq!['/'] + category + ".md"@
}

proof fn lemma_unused_step(cats: Seq<Seq<char>>, files: Seq<Seq<char>>, c: int)
    requires
        0 <= c < cats.len(),
    ensures
        unused_dirs(cats.take(c + 1), files) == if holds_under(files, category_dir(cats[c])) {
            unused_dirs(cats.take(c), files)
        } else {
            unused_dirs(cats.take(c), files).insert(category_dir(cats[c]))
        },
{
    let a = unused_dirs(cats.take(c + 1), files);
    let b = unused_dirs(cats.take(c), files);
    assert forall|d: Seq<char>| #[trigger] a.contains(d) implies b.contains(d) || (d == category_dir(cats[c]) && !holds_under(files, d)) by {
        let i = choose|i: int| 0 <= i < cats.take(c + 1).len() && d == category_dir(#[trigger] cats.take(c + 1)[i]) && !holds_under(files, d);
        if i < c {
            assert(cats.take(c)[i] == cats.take(c + 1)[i]);
        }
    }
    assert forall|d: Seq<char>| #[trigger] b.contains(d) implies a.contains(d) by {
        let i = choose|i: int| 0 <= i < cats.take(c).len() && d == category_dir(#[trigger] cats.take(c)[i]) && !holds_under(files, d);
        assert(cats.take(c + 1)[i] == cats.take(c)[i]);
    }
    if !holds_under(files, category_dir(cats[c])) {
        assert(cats.take(c + 1)[c] == cats[c]);
        assert(a.contains(category_dir(cats[c])));
        assert(a =~= b.insert(category_dir(cats[c])));
    } else {
        assert(a =~= b);
    }
}

proof fn lemma_structure_prefix(
    k: nat,
    categories: Seq<Seq<char>>,
    directories: Seq<Seq<char>>,
    files: Seq<Seq<char>>,
    a: Seq<bool>,
    b: Seq<bool>,
)
    requires
        k <= a.len(),
        k <= b.len(),
        forall|j: int| 0 <= j < k ==> a[j] == b[j],
    ensures
        structure_from(k, categories, directories, files, a) == structure_from(k, categories, directories, files, b),
    decreases k,
{
    if k > 0 && k <= directories.len() {
        lemma_structure_prefix((k - 1) as nat, categories, directories, files, a, b);
    }
}

/// The document a category-depth directory of a governed layer would be
/// the companion set of: `<root>/<layer>/<name>.md`.
pub open spec fn companion_doc(directory: Seq<char>) -> Option<Seq<char>> {
    let prefix = ROOT@ + seq!['/'];
    if !prefix.is_prefix_of(directory) {
        None
    } else {
        let segments = split_spec(directory.skip(prefix.len() as int), '/');
        if layers().contains(segments[0]) && segments.len() == 2 {
            Some(prefix + segments[0] + seq!['/'] + segments[1] + ".md"@)
        } else {
            None
        }
    }
}

/// Whether each companion flag is what the tree says of the document the
/// directory would belong to being there.
pub open spec fn companions_tied<T: Tree>(tree: T, directories: Seq<Seq<char>>, companions: Seq<bool>) -> bool {
    forall|i: int|
        0 <= i < companions.len() && i < directories.len() ==> match companion_doc(#[trigger] directories[i]) {
            Some(p) => exists_as(tree, p, companions[i]),
            None => true,
        }
}

/// Checks the governance tree against its layers, the shared registry, and
/// the categories this repository declared.
#[verifier::loop_isolation(false)]
pub fn validate<T: Tree>(tree: &T, document: &Document) -> (r: Report)
    ensures
        exists|directories: Seq<Seq<char>>, files: Seq<Seq<char>>, companions: Seq<bool>|
            tree.lists(files) && (exists|listing: Seq<Seq<char>>|
                #[trigger] tree.lists(listing) && all_ancestors(listing).subset_of(directories.to_set()))
                && companions_tied(*tree, directories, companions) && companions.len() == directories.len() && r@
                == #[trigger] structure_spec(
                document@.local_categories,
                directories,
                files,
                companions,
            ),
{
    let mut report = Report::new("governance-roots", "directory");
    let directories = tree.directories();
    let files = tree.files();
    let ghost dv = string_views(directories@);
    let ghost fv = string_views(files@);
    let ghost cv = document@.local_categories;
    let mut declared: Vec<Vec<char>> = Vec::new();
    let mut reported: Vec<Vec<char>> = Vec::new();
    let mut c: usize = 0;
    while c < document.local_categories.len()
        invariant
            c <= document.local_categories.len(),
            cv == document@.local_categories,
            views(declared@) == cv.take(c as int),
            views(reported@).to_set() == unused_dirs(cv.take(c as int), fv),
            report@ == (ReportView {
                category: "governance-roots"@,
                subject: "directory"@,
                inspected: 0,
                scanned: Seq::empty(),
                notes: Seq::empty(),
                measurements: Seq::empty(),
                findings: unused_findings(cv.take(c as int), fv),
                refusal: None,
            }),
        decreases document.local_categories.len() - c,
    {
        let category = chars_of(document.local_categories[c].as_str());
        assert(cv[c as int] == category@);
        assert(cv.take(c + 1).drop_last() =~= cv.take(c as int));
        assert(cv.take(c + 1).last() == category@);
        let mut path = chars_of(ROOT);
        path.push('/');
        extend(&mut path, &category);
        assert(path@ =~= category_dir(category@));
        proof {
            lemma_unused_step(cv, fv, c as int);
        }
        let ghost before = views(reported@);
        if !holds(&files, &path) {
            let ghost pv = path@;
            reported.push(path);
            report.found(crate::report::Finding::new("unused-local-category", document.local_categories[c].as_str(), UNUSED));
            assert(views(reported@) =~= before.push(pv));
            proof {
                crate::text::lemma_push_to_set(before, pv);
            }
        }
        let ghost dbefore = views(declared@);
        declared.push(category);
        assert(views(declared@) =~= dbefore.push(cv[c as int]));
        assert(views(declared@) =~= cv.take(c + 1));
        c += 1;
    }
    assert(cv.take(c as int) =~= cv);
    let registry_names = text_list(vec![
        "conventions/security", "conventions/structure", "conventions/writing", "development/agents",
        "development/quality", "development/workflow", "workflows/adoption", "workflows/maintenance",
        "workflows/plan", "workflows/quality",
    ]);
    assert(views(registry_names@) =~= registry());
    let layer_list = text_list(vec!["conventions", "development", "principles", "vision", "workflows"]);
    assert(views(layer_list@) =~= layers());
    let ghost mut companions: Seq<bool> = Seq::empty();
    let mut prefix = chars_of(ROOT);
    prefix.push('/');
    assert(prefix@ =~= ROOT@ + seq!['/']);
    let mut i: usize = 0;
    while i < directories.len()
        invariant
            i <= directories.len(),
            dv == string_views(directories@),
            fv == string_views(files@),
            cv == document@.local_categories,
            views(declared@) == cv,
            views(registry_names@) == registry(),
            views(layer_list@) == layers(),
            prefix@ == ROOT@ + seq!['/'],
            companions.len() == i,
            companions_tied(*tree, dv, companions),
            (report@, views(reported@).to_set()) == structure_from(i as nat, cv, dv, fv, companions),
            report@.inspected <= i,
        decreases directories.len() - i,
    {
        let directory = chars_of(directories[i].as_str());
        assert(dv[i as int] == directory@);
        let ghost state = (report@, views(reported@).to_set());
        let mut companion = false;
        if crate::text::starts_with(&directory, &prefix) {
            let relative = crate::text::slice(&directory, prefix.len(), directory.len());
            assert(relative@ =~= directory@.skip(prefix@.len() as int));
            report.inspected_one();
            let segments = split(&relative, '/');
            proof {
                crate::text::lemma_split_nonempty(relative@, '/');
            }
            let layer = &segments[0];
            if !contains_text(&layer_list, layer) {
                if segments.len() == 1 {
                    let mut m = chars_of("is not a governed layer; the layers are ");
                    let names = vec!["conventions", "development", "principles", "vision", "workflows"];
                    let mut parts: Vec<Vec<char>> = Vec::new();
                    parts.push(chars_of(names[0]));
                    parts.push(chars_of(names[1]));
                    parts.push(chars_of(names[2]));
                    parts.push(chars_of(names[3]));
                    parts.push(chars_of(names[4]));
                    assert(views(parts@) =~= layers());
                    extend(&mut m, &crate::text::join(&parts, &chars_of(", ")));
                    report.found(crate::report::Finding::new("unknown-governance-layer", directories[i].as_str(), string_of(&m).as_str()));
                    let ghost before = views(reported@);
                    reported.push(directory);
                    assert(views(reported@) =~= before.push(dv[i as int]));
                    proof {
                        crate::text::lemma_push_to_set(before, dv[i as int]);
                    }
                }
            } else {
                let mut settled = false;
                if segments.len() == 2 {
                    let mut sibling = chars_of(ROOT);
                    sibling.push('/');
                    extend(&mut sibling, layer);
                    sibling.push('/');
                    extend(&mut sibling, &segments[1]);
                    extend_str(&mut sibling, ".md");
                    companion = tree.exists_at(string_of(&sibling).as_str());
                    proof {
                        assert(segments@[0]@ == split_spec(relative@, '/')[0]);
                        assert(sibling@ =~= ROOT@ + seq!['/'] + split_spec(relative@, '/')[0] + seq!['/'] + split_spec(
                            relative@,
                            '/',
                        )[1] + ".md"@);
                        assert(companion_doc(dv[i as int]) == Some(sibling@));
                        assert(exists_as(*tree, sibling@, companion));
                    }
                    if !companion {
                        let mut named = crate::text::slice(layer, 0, layer.len());
                        named.push('/');
                        extend(&mut named, &segments[1]);
                        assert(named@ =~= layer@ + seq!['/'] + segments@[1]@);
                        if !contains_text(&registry_names, &named) && !contains_text(&declared, &named) {
                            report.found(crate::report::Finding::new("undeclared-governance-category", directories[i].as_str(), UNDECLARED));
                            let ghost before = views(reported@);
                            let copy = crate::text::slice(&directory, 0, directory.len());
                            assert(copy@ =~= directory@);
                            reported.push(copy);
                            assert(views(reported@) =~= before.push(dv[i as int]));
                            proof {
                                crate::text::lemma_push_to_set(before, dv[i as int]);
                            }
                            settled = true;
                        }
                    }
                }
                if !settled {
                    let held_file = holds(&files, &directory);
                    let held_directory = holds(&directories, &directory);
                    if !held_file && !held_directory && !contains_text(&reported, &directory) {
                        report.found(crate::report::Finding::new("empty-governed-directory", directories[i].as_str(), EMPTY));
                    }
                }
            }
        }
        proof {
            let old_companions = companions;
            companions = companions.push(companion);
            lemma_structure_prefix(i as nat, cv, dv, fv, old_companions, companions);
            assert forall|q: int| 0 <= q < companions.len() && q < dv.len() implies match companion_doc(#[trigger] dv[q]) {
                Some(p) => exists_as(*tree, p, companions[q]),
                None => true,
            } by {
                if q < i {
                    assert(companions[q] == old_companions[q]);
                } else {
                    assert(companions[q] == companion);
                }
            }
        }
        i += 1;
    }
    assert(report@ == structure_spec(cv, dv, fv, companions));
    report
}

} // verus!
