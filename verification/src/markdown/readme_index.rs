//! README-index validation.
//!
//! Every directory under a declared tree carries a `README.md`. Presence
//! only: weaker than the directory map, so a repository can adopt this rung
//! before it has written the map sections the stronger rule wants.
use crate::config::{Config, ReadmeIndex};
use crate::report::{Finding, FindingView, Report, ReportView};
use crate::runtime::{holds_under, read_view, string_views, Tree, TreeError, TreeFault};
use crate::scan::{walked_dirs, README};
use crate::text::{chars_of, extend_str, string_of, strictly_sorted};
use vstd::prelude::*;

verus! {

pub const MISSING: &'static str = "missing README: every directory under a declared tree carries one";

/// One finding for every directory that holds no README, given whether each
/// holds one.
pub open spec fn missing_readmes(directories: Seq<Seq<char>>, present: Seq<bool>) -> Seq<FindingView>
    decreases directories.len(),
{
    if directories.len() == 0 || present.len() < directories.len() {
        Seq::empty()
    } else {
        let k = directories.len() - 1;
        missing_readmes(directories.drop_last(), present.take(k)) + if !present[k] {
            seq![
                FindingView {
                    kind: "missing-readme-index"@,
                    path: directories[k],
                    line: None,
                    column: None,
                    field: None,
                    message: MISSING@,
                    details: Seq::empty(),
                },
            ]
        } else {
            Seq::empty()
        }
    }
}

pub open spec fn walk_total(walks: Seq<Seq<Seq<char>>>) -> nat
    decreases walks.len(),
{
    if walks.len() == 0 {
        0
    } else {
        walk_total(walks.drop_last()) + walks.last().len()
    }
}

pub open spec fn walk_findings(walks: Seq<Seq<Seq<char>>>, presents: Seq<Seq<bool>>) -> Seq<FindingView>
    decreases walks.len(),
{
    if walks.len() == 0 || presents.len() < walks.len() {
        Seq::empty()
    } else {
        let k = walks.len() - 1;
        walk_findings(walks.drop_last(), presents.take(k)) + missing_readmes(walks[k], presents[k])
    }
}

/// The report of a run over the walks of every declared tree, given for
/// each directory whether its README is there.
pub open spec fn readme_run(walks: Seq<Seq<Seq<char>>>, presents: Seq<Seq<bool>>) -> ReportView {
    ReportView {
        category: "readme-index"@,
        subject: "directory"@,
        inspected: crate::governance::word_budget::capped(walk_total(walks)),
        scanned: Seq::empty(),
        notes: Seq::empty(),
        measurements: Seq::empty(),
        findings: walk_findings(walks, presents),
        refusal: None,
    }
}

/// Whether `walks` are, tree by tree, the directories a walk of each
/// declared tree found: in path order, each once.
pub open spec fn walks_of<T: Tree>(tree: T, config: Config, index: ReadmeIndex, walks: Seq<Seq<Seq<char>>>) -> bool {
    &&& walks.len() == index.trees@.len()
    &&& forall|t: int|
        0 <= t < walks.len() ==> strictly_sorted(#[trigger] walks[t]) && exists|listed: Seq<Seq<char>>|
            tree.lists(listed) && walks[t].to_set() == #[trigger] walked_dirs(
                listed,
                string_views(crate::config::excluded_spec(config)),
                index.trees@[t].path@,
            )
}

/// Where a directory's README is.
pub open spec fn readme_at(directory: Seq<char>) -> Seq<char> {
    directory + "/"@ + README@
}

/// Whether `present` is what the tree says of a path being there: anything a
/// read does not answer as absent is there, readable or not; a path a read
/// finds absent is there only as a directory holding a listed file.
pub open spec fn present_as<T: Tree>(tree: T, path: Seq<char>, present: bool) -> bool {
    exists|raw: Result<Seq<char>, TreeFault>|
        #[trigger] tree.reads_as(path, raw) && if raw == Err::<Seq<char>, TreeFault>(TreeFault::NotFound) {
            exists|listing: Seq<Seq<char>>| #[trigger] tree.lists(listing) && present == holds_under(listing, path)
        } else {
            present
        }
}

/// Whether each directory's presence flag is what the tree says of its
/// README.
pub open spec fn presences_as<T: Tree>(tree: T, walks: Seq<Seq<Seq<char>>>, presents: Seq<Seq<bool>>) -> bool {
    forall|t: int, d: int|
        0 <= t < walks.len() && 0 <= d < walks[t].len() ==> present_as(tree, readme_at(walks[t][d]), #[trigger] presents[t][d])
}

/// Whether a README is at `path`: existence, not readability, so one that is
/// there and cannot be opened is present.
fn readme_present<T: Tree>(tree: &T, path: &str) -> (r: bool)
    ensures
        present_as(*tree, path@, r),
{
    let read = tree.read(path);
    let ghost raw = read_view(read);
    match read {
        Err(TreeError::NotFound) => {
            assert(raw == Err::<Seq<char>, TreeFault>(TreeFault::NotFound));
            tree.is_directory(path)
        },
        _ => {
            assert(raw != Err::<Seq<char>, TreeFault>(TreeFault::NotFound));
            true
        },
    }
}

/// Checks that every directory under each declared tree holds a README.
pub fn validate<T: Tree>(tree: &T, config: &Config, index: &ReadmeIndex) -> (r: Report)
    ensures
        exists|walks: Seq<Seq<Seq<char>>>, presents: Seq<Seq<bool>>|
            walks_of(*tree, *config, *index, walks) && presents.len() == walks.len() && (forall|t: int|
                0 <= t < walks.len() ==> (#[trigger] presents[t]).len() == walks[t].len()) && presences_as(*tree, walks, presents)
                && r@ == #[trigger] readme_run(walks, presents),
{
    let mut report = Report::new("readme-index", "directory");
    let mut count: usize = 0;
    let ghost mut walks: Seq<Seq<Seq<char>>> = Seq::empty();
    let ghost mut presents: Seq<Seq<bool>> = Seq::empty();
    let mut t: usize = 0;
    while t < index.trees.len()
        invariant
            t <= index.trees.len(),
            walks.len() == t,
            presents.len() == t,
            forall|j: int| 0 <= j < t ==> (#[trigger] presents[j]).len() == walks[j].len(),
            forall|j: int|
                0 <= j < t ==> strictly_sorted(#[trigger] walks[j]) && exists|listed: Seq<Seq<char>>|
                    tree.lists(listed) && walks[j].to_set() == #[trigger] walked_dirs(
                        listed,
                        string_views(crate::config::excluded_spec(*config)),
                        index.trees@[j].path@,
                    ),
            count as nat == crate::governance::word_budget::capped(walk_total(walks)),
            presences_as(*tree, walks, presents),
            report@ == (ReportView { inspected: 0, findings: walk_findings(walks, presents), ..readme_run(walks, presents) }),
        decreases index.trees.len() - t,
    {
        let directories = crate::scan::directories(tree, config, index.trees[t].path.as_str());
        let ghost dv = string_views(directories@);
        let ghost base = report@.findings;
        let ghost mut present: Seq<bool> = Seq::empty();
        let mut d: usize = 0;
        while d < directories.len()
            invariant
                d <= directories.len(),
                dv == string_views(directories@),
                present.len() == d,
                forall|j: int| 0 <= j < d ==> present_as(*tree, readme_at(dv[j]), #[trigger] present[j]),
                report@ == (ReportView { inspected: 0, findings: base + missing_readmes(dv.take(d as int), present), ..readme_run(walks, presents) }),
            decreases directories.len() - d,
        {
            let mut path = chars_of(directories[d].as_str());
            extend_str(&mut path, "/");
            extend_str(&mut path, README);
            assert(path@ == readme_at(dv[d as int]));
            let here = readme_present(tree, string_of(&path).as_str());
            let ghost before = report@.findings;
            if !here {
                report.found(Finding::new("missing-readme-index", directories[d].as_str(), MISSING));
            }
            proof {
                let next = present.push(here);
                assert forall|j: int| 0 <= j < d + 1 implies present_as(*tree, readme_at(dv[j]), #[trigger] next[j]) by {
                    if j < d {
                        assert(next[j] == present[j]);
                    }
                }
                assert(dv.take(d + 1).drop_last() =~= dv.take(d as int));
                assert(next.take(d as int) =~= present);
                assert(dv.take(d + 1)[d as int] == dv[d as int]);
                assert(dv[d as int] == directories@[d as int]@);
                let extra = if !here {
                    seq![
                        FindingView {
                            kind: "missing-readme-index"@,
                            path: dv[d as int],
                            line: None,
                            column: None,
                            field: None,
                            message: MISSING@,
                            details: Seq::empty(),
                        },
                    ]
                } else {
                    Seq::<FindingView>::empty()
                };
                assert(missing_readmes(dv.take(d + 1), next) == missing_readmes(dv.take(d as int), present) + extra);
                assert(report@.findings =~= before + extra);
                assert(base + (missing_readmes(dv.take(d as int), present) + extra) =~= before + extra);
                present = next;
            }
            d += 1;
        }
        assert(dv.take(directories.len() as int) =~= dv);
        proof {
            let w2 = walks.push(dv);
            let p2 = presents.push(present);
            assert(w2.drop_last() =~= walks);
            assert(p2.take(t as int) =~= presents);
            assert forall|a: int, b: int| 0 <= a < w2.len() && 0 <= b < w2[a].len() implies present_as(
                *tree,
                readme_at(w2[a][b]),
                #[trigger] p2[a][b],
            ) by {
                if a < t {
                    assert(w2[a] == walks[a]);
                    assert(p2[a] == presents[a]);
                } else {
                    assert(w2[a] == dv);
                    assert(p2[a] == present);
                }
            }
            walks = w2;
            presents = p2;
        }
        count = count.saturating_add(directories.len());
        t += 1;
    }
    report.inspected(count);
    report
}

} // verus!
