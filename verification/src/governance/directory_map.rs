//! Directory-map validation.
//!
//! Within a declared tree, every directory carries a `README.md` whose
//! `## Directory Map` section lists each direct sibling exactly once with a
//! resolvable relative target. A map that has drifted from the tree is worse
//! than no map, because it is believed.
use crate::config::{Config, DirectoryMap};
use crate::markdown::mermaid::{holds, replace_spec};
use crate::report::{Finding, FindingView, Report, ReportView};
use crate::runtime::{children_spec, exists_as, normalised, read_view, string_views, Tree, TreeError, TreeFault};
use crate::scan::{walked_dirs, Scope, README};
use crate::text::{
    chars_of, extend, extend_str, lines, lines_spec, slice, split, split_once, split_once_spec, split_spec, string_of,
    strictly_sorted, trim, trim_spec, views,
};
use vstd::prelude::*;

verus! {

pub const SECTION: &'static str = "## Directory Map";

/// `- [Text](target)` or `* [Text](target)`: the target, trimmed.
pub open spec fn list_entry_spec(line: Seq<char>) -> Option<Seq<char>> {
    let rest = if line.len() >= 2 && line[0] == '-' && line[1] == ' ' {
        Some(line.skip(2))
    } else if line.len() >= 2 && line[0] == '*' && line[1] == ' ' {
        Some(line.skip(2))
    } else {
        None
    };
    match rest {
        None => None,
        Some(r) => match split_once_spec(r, "]("@) {
            None => None,
            Some((_, after)) => match split_once_spec(after, seq![')']) {
                None => None,
                Some((target, _)) => Some(trim_spec(target)),
            },
        },
    }
}

/// The entries of a README's map section from line `i` on, and whether the
/// section was found: a `##` heading opens it, and the next heading of
/// level one or two closes it.
pub open spec fn map_from(ls: Seq<Seq<char>>, i: nat, inside: bool) -> (bool, Seq<(nat, Seq<char>)>)
    decreases ls.len() - i,
{
    if i >= ls.len() {
        (inside, Seq::empty())
    } else {
        let t = trim_spec(ls[i as int]);
        if t.len() >= 2 && t[0] == '#' && t[1] == '#' {
            if inside {
                (true, Seq::empty())
            } else {
                map_from(ls, i + 1, t == SECTION@)
            }
        } else if t.len() >= 2 && t[0] == '#' && t[1] == ' ' && inside {
            (true, Seq::empty())
        } else if !inside {
            map_from(ls, i + 1, inside)
        } else {
            match list_entry_spec(t) {
                Some(target) => {
                    let (found, rest) = map_from(ls, i + 1, inside);
                    (found, seq![(i + 1, target)] + rest)
                },
                None => map_from(ls, i + 1, inside),
            }
        }
    }
}

/// The entries of a README's map section, or `None` when it has none.
pub open spec fn map_entries_spec(text: Seq<char>) -> Option<Seq<(nat, Seq<char>)>> {
    let (found, entries) = map_from(lines_spec(text), 0, false);
    if found {
        Some(entries)
    } else {
        None
    }
}

pub open spec fn ascii_alpha(c: char) -> bool {
    ('a' <= c <= 'z') || ('A' <= c <= 'Z')
}

/// Whether a target opens with a URI scheme.
pub open spec fn has_scheme(target: Seq<char>) -> bool {
    match split_once_spec(target, seq![':']) {
        Some((scheme, _)) => scheme.len() > 0 && ascii_alpha(scheme[0]) && forall|i: int|
            0 <= i < scheme.len() ==> (ascii_alpha(#[trigger] scheme[i]) || ('0' <= scheme[i] <= '9') || scheme[i] == '+'
                || scheme[i] == '.' || scheme[i] == '-'),
        None => false,
    }
}

/// The named segments of a path, or `None` when one climbs out.
pub open spec fn named_segments(segments: Seq<Seq<char>>) -> Option<Seq<Seq<char>>>
    decreases segments.len(),
{
    if segments.len() == 0 {
        Some(Seq::empty())
    } else {
        match named_segments(segments.drop_last()) {
            None => None,
            Some(named) => {
                let s = segments.last();
                if s.len() == 0 || s == seq!['.'] {
                    Some(named)
                } else if s == seq!['.', '.'] {
                    None
                } else {
                    Some(named.push(s))
                }
            },
        }
    }
}

/// What an entry addresses: the sibling it covers and the path that must
/// exist for it to cover it, or `None` when the entry is unusable.
pub open spec fn address(directory: Seq<char>, target: Seq<char>) -> Option<(Seq<char>, Seq<char>)> {
    if target.len() == 0 || target.contains('\0') || target[0] == '/' || has_scheme(target) {
        None
    } else {
        let path = split_spec(split_spec(target, '#')[0], '?')[0];
        match named_segments(split_spec(path, '/')) {
            None => None,
            Some(named) => {
                let sibling = directory + seq!['/'] + if named.len() > 0 { named[0] } else { Seq::empty() };
                if named.len() == 1 {
                    Some((sibling, sibling))
                } else if named.len() == 2 && named[1] == README@ {
                    Some((sibling, sibling + seq!['/'] + README@))
                } else {
                    None
                }
            },
        }
    }
}

pub open spec fn plain(kind: Seq<char>, path: Seq<char>, line: Option<nat>, message: Seq<char>) -> FindingView {
    FindingView { kind, path, line, column: None, field: None, message, details: Seq::empty() }
}

pub const INVALID_TAIL: &'static str = "`: an entry has to name a direct sibling by a relative path that exists";

pub const DUPLICATE_TAIL: &'static str = "`: every direct sibling appears exactly once";

/// The findings for unusable entries and for entries that name a sibling an
/// earlier entry already covers, and the siblings the usable ones cover,
/// given whether each addressed path exists.
pub open spec fn entry_findings(readme: Seq<char>, directory: Seq<char>, entries: Seq<(nat, Seq<char>)>, flags: Seq<bool>) -> (Seq<FindingView>, Set<Seq<char>>)
    decreases entries.len(),
{
    if entries.len() == 0 || flags.len() < entries.len() {
        (Seq::empty(), Set::empty())
    } else {
        let k = entries.len() - 1;
        let (found, covered) = entry_findings(readme, directory, entries.drop_last(), flags.take(k));
        let (line, target) = entries[k];
        match address(directory, target) {
            Some((sibling, _)) if flags[k] => if covered.contains(sibling) {
                (
                    found.push(
                        plain("duplicate-map-entry"@, readme, Some(line), "duplicate map entry for `"@ + sibling + DUPLICATE_TAIL@),
                    ),
                    covered,
                )
            } else {
                (found, covered.insert(sibling))
            },
            _ => (
                found.push(
                    plain(
                        "invalid-map-entry"@,
                        readme,
                        Some(line),
                        "invalid map entry `"@ + replace_spec(target, seq!['\0'], "\\0"@) + INVALID_TAIL@,
                    ),
                ),
                covered,
            ),
        }
    }
}

/// One finding for every child, other than the README, no entry covers.
pub open spec fn sibling_findings(readme: Seq<char>, children: Seq<Seq<char>>, covered: Set<Seq<char>>) -> Seq<FindingView>
    decreases children.len(),
{
    if children.len() == 0 {
        Seq::empty()
    } else {
        let c = children.last();
        sibling_findings(readme, children.drop_last(), covered) + if c != readme && !covered.contains(c) {
            seq![
                plain(
                    "missing-map-entry"@,
                    readme,
                    None,
                    "missing map entry for `"@ + c + "`: every direct sibling appears exactly once"@,
                ),
            ]
        } else {
            Seq::empty()
        }
    }
}

pub const MISSING_README: &'static str = "missing README: a mapped directory has to document its own contents";

pub const MISSING_MAP: &'static str = "missing directory map: a mapped README needs a `## Directory Map` section";

/// What one mapped directory is found to break, given what reading its
/// README gave, its children, and whether each addressed path exists; or
/// why it could not be inspected.
pub open spec fn inspect_spec(
    directory: Seq<char>,
    read: Result<Seq<char>, TreeFault>,
    children: Seq<Seq<char>>,
    flags: Seq<bool>,
) -> Result<Seq<FindingView>, Seq<char>> {
    let readme = directory + seq!['/'] + README@;
    match read {
        Err(TreeFault::Unreadable(reason)) => Err(readme + ": "@ + reason),
        Err(TreeFault::NotText) => Err(readme + ": holds no text"@),
        Err(TreeFault::NotFound) => Ok(seq![plain("missing-readme"@, directory, None, MISSING_README@)]),
        Ok(text) => match map_entries_spec(text) {
            None => Ok(seq![plain("missing-directory-map"@, readme, None, MISSING_MAP@)]),
            Some(entries) => {
                let (found, covered) = entry_findings(readme, directory, entries, flags);
                Ok(found + sibling_findings(readme, children, covered))
            },
        },
    }
}

fn list_entry(line: &Vec<char>) -> (r: Option<Vec<char>>)
    ensures
        match r {
            Some(v) => list_entry_spec(line@) == Some(v@),
            None => list_entry_spec(line@) is None,
        },
{
    if !(line.len() >= 2 && (line[0] == '-' || line[0] == '*') && line[1] == ' ') {
        return None;
    }
    let rest = slice(line, 2, line.len());
    assert(rest@ =~= line@.skip(2));
    match split_once(&rest, &chars_of("](")) {
        None => None,
        Some((_, after)) => {
            let close = vec![')'];
            assert(close@ =~= seq![')']);
            match split_once(&after, &close) {
                None => None,
                Some((target, _)) => Some(trim(&target)),
            }
        },
    }
}

fn map_entries(text: &str) -> (r: Option<Vec<(usize, Vec<char>)>>)
    ensures
        match r {
            Some(es) => map_entries_spec(text@) == Some(Seq::new(es@.len(), |i: int| (es@[i].0 as nat, es@[i].1@))),
            None => map_entries_spec(text@) is None,
        },
{
    let ls = lines(&chars_of(text));
    let ghost lv = views(ls@);
    let mut entries: Vec<(usize, Vec<char>)> = Vec::new();
    let mut inside = false;
    let mut i: usize = 0;
    let ghost whole = map_from(lv, 0, false);
    loop
        invariant
            i <= ls.len(),
            lv == views(ls@),
            lv == lines_spec(text@),
            whole == map_from(lv, 0, false),
            whole == (map_from(lv, i as nat, inside).0, Seq::new(entries@.len(), |k: int| (entries@[k].0 as nat, entries@[k].1@)) + map_from(lv, i as nat, inside).1),
        ensures
            whole == (inside, Seq::new(entries@.len(), |k: int| (entries@[k].0 as nat, entries@[k].1@))),
        decreases ls.len() - i,
    {
        let ghost ev = Seq::new(entries@.len(), |k: int| (entries@[k].0 as nat, entries@[k].1@));
        if i >= ls.len() {
            assert(ev + Seq::<(nat, Seq<char>)>::empty() =~= ev);
            break;
        }
        assert(lv[i as int] == ls@[i as int]@);
        let t = trim(&ls[i]);
        if t.len() >= 2 && t[0] == '#' && t[1] == '#' {
            if inside {
                assert(ev + Seq::<(nat, Seq<char>)>::empty() =~= ev);
                break;
            }
            proof {
                reveal_strlit("## Directory Map");
            }
            inside = crate::text::is(&t, SECTION);
        } else if t.len() >= 2 && t[0] == '#' && t[1] == ' ' && inside {
            assert(ev + Seq::<(nat, Seq<char>)>::empty() =~= ev);
            break;
        } else if inside {
            if let Some(target) = list_entry(&t) {
                let ghost tv = target@;
                entries.push((i + 1, target));
                assert(Seq::new(entries@.len(), |k: int| (entries@[k].0 as nat, entries@[k].1@)) =~= ev.push(((i + 1) as nat, tv)));
                assert(ev + (seq![((i + 1) as nat, tv)] + map_from(lv, (i + 1) as nat, inside).1) =~= ev.push(((i + 1) as nat, tv))
                    + map_from(lv, (i + 1) as nat, inside).1);
            }
        }
        i += 1;
    }
    if inside {
        Some(entries)
    } else {
        None
    }
}

#[verifier::loop_isolation(false)]
pub(crate) fn has_a_scheme(target: &Vec<char>) -> (r: bool)
    ensures
        r == has_scheme(target@),
{
    let colon = vec![':'];
    assert(colon@ =~= seq![':']);
    match split_once(target, &colon) {
        None => false,
        Some((scheme, _)) => {
            if scheme.len() == 0 || !(('a' <= scheme[0] && scheme[0] <= 'z') || ('A' <= scheme[0] && scheme[0] <= 'Z')) {
                return false;
            }
            let mut i: usize = 0;
            while i < scheme.len()
                invariant
                    i <= scheme.len(),
                    forall|k: int|
                        0 <= k < i ==> (ascii_alpha(#[trigger] scheme@[k]) || ('0' <= scheme@[k] <= '9') || scheme@[k] == '+'
                            || scheme@[k] == '.' || scheme@[k] == '-'),
                decreases scheme.len() - i,
            {
                let c = scheme[i];
                if !(('a' <= c && c <= 'z') || ('A' <= c && c <= 'Z') || ('0' <= c && c <= '9') || c == '+' || c == '.' || c
                    == '-') {
                    assert(!(ascii_alpha(scheme@[i as int]) || ('0' <= scheme@[i as int] <= '9') || scheme@[i as int] == '+'
                        || scheme@[i as int] == '.' || scheme@[i as int] == '-'));
                    return false;
                }
                i += 1;
            }
            true
        },
    }
}

fn named(segments: &Vec<Vec<char>>) -> (r: Option<Vec<Vec<char>>>)
    ensures
        match r {
            Some(v) => named_segments(views(segments@)) == Some(views(v@)),
            None => named_segments(views(segments@)) is None,
        },
{
    let ghost sv = views(segments@);
    let mut out: Vec<Vec<char>> = Vec::new();
    let mut i: usize = 0;
    assert(views(out@) =~= Seq::<Seq<char>>::empty());
    while i < segments.len()
        invariant
            i <= segments.len(),
            sv == views(segments@),
            named_segments(sv.take(i as int)) == Some(views(out@)),
        decreases segments.len() - i,
    {
        assert(sv.take(i + 1).drop_last() =~= sv.take(i as int));
        assert(sv.take(i + 1).last() == segments@[i as int]@);
        let s = &segments[i];
        if s.len() == 0 || (s.len() == 1 && s[0] == '.') {
            proof {
                if s.len() == 1 {
                    assert(s@ =~= seq!['.']);
                }
            }
        } else if s.len() == 2 && s[0] == '.' && s[1] == '.' {
            assert(s@ =~= seq!['.', '.']);
            proof {
                let mut j: int = i + 1;
                assert(named_segments(sv.take(i + 1)) is None);
                lemma_named_none(sv, i + 1);
            }
            return None;
        } else {
            proof {
                if s@ == seq!['.'] {
                    assert(s@.len() == 1);
                }
                if s@ == seq!['.', '.'] {
                    assert(s@.len() == 2);
                }
            }
            let ghost before = views(out@);
            let piece = slice(s, 0, s.len());
            assert(piece@ =~= s@);
            out.push(piece);
            assert(views(out@) =~= before.push(s@));
        }
        i += 1;
    }
    assert(sv.take(segments.len() as int) =~= sv);
    Some(out)
}

proof fn lemma_named_none(sv: Seq<Seq<char>>, k: int)
    requires
        0 <= k <= sv.len(),
        named_segments(sv.take(k)) is None,
    ensures
        named_segments(sv) is None,
    decreases sv.len() - k,
{
    if k < sv.len() {
        assert(sv.take(k + 1).drop_last() =~= sv.take(k));
        lemma_named_none(sv, k + 1);
    } else {
        assert(sv.take(k) =~= sv);
    }
}

fn address_of(directory: &Vec<char>, target: &Vec<char>) -> (r: Option<(Vec<char>, Vec<char>)>)
    ensures
        match r {
            Some((s, a)) => address(directory@, target@) == Some((s@, a@)),
            None => address(directory@, target@) is None,
        },
{
    if target.len() == 0 || crate::text::contains_char(target, '\0') || target[0] == '/' || has_a_scheme(target) {
        return None;
    }
    let hash = split(target, '#');
    proof {
        crate::text::lemma_split_nonempty(target@, '#');
    }
    let query = split(&hash[0], '?');
    proof {
        crate::text::lemma_split_nonempty(hash@[0]@, '?');
    }
    let parts = split(&query[0], '/');
    let segs = match named(&parts) {
        None => return None,
        Some(v) => v,
    };
    if segs.len() == 0 {
        return None;
    }
    let mut sibling = slice(directory, 0, directory.len());
    sibling.push('/');
    extend(&mut sibling, &segs[0]);
    assert(sibling@ =~= directory@ + seq!['/'] + segs@[0]@);
    if segs.len() == 1 {
        let copy = slice(&sibling, 0, sibling.len());
        assert(copy@ =~= sibling@);
        Some((sibling, copy))
    } else if segs.len() == 2 && crate::text::is(&segs[1], README) {
        let mut addressed = slice(&sibling, 0, sibling.len());
        addressed.push('/');
        extend_str(&mut addressed, README);
        assert(addressed@ =~= sibling@ + seq!['/'] + README@);
        Some((sibling, addressed))
    } else {
        None
    }
}

/// What the tree answered while one directory was inspected: reading its
/// README, listing its children, and whether each addressed path exists.
pub ghost struct Answers {
    pub read: Result<Seq<char>, TreeFault>,
    pub children: Seq<Seq<char>>,
    pub flags: Seq<bool>,
}

/// Whether each map entry's flag is what the tree says of the path it
/// addresses being there (an unusable entry addresses nothing).
pub open spec fn flags_from<T: Tree>(tree: T, directory: Seq<char>, entries: Seq<(nat, Seq<char>)>, flags: Seq<bool>) -> bool {
    &&& flags.len() == entries.len()
    &&& forall|k: int|
        0 <= k < entries.len() ==> match address(directory, (#[trigger] entries[k]).1) {
            Some((_, addressed)) => exists_as(tree, addressed, flags[k]),
            None => true,
        }
}

/// Whether `a` is what the tree answers for a directory: the read of its
/// README, and, when that README holds a map, the directory's children as
/// the tree's listing gives them and the presence of every addressed path.
pub open spec fn answers_from<T: Tree>(tree: T, directory: Seq<char>, a: Answers) -> bool {
    &&& tree.reads_as(directory + seq!['/'] + README@, a.read)
    &&& match a.read {
        Ok(text) => match map_entries_spec(text) {
            Some(entries) => {
                &&& flags_from(tree, directory, entries, a.flags)
                &&& exists|listing: Seq<Seq<char>>|
                    #[trigger] tree.lists(listing) && strictly_sorted(a.children) && a.children.to_set() == children_spec(
                        listing.to_set(),
                        normalised(directory),
                    )
            },
            None => true,
        },
        Err(_) => true,
    }
}

/// Whether every answer of every walk is the tree's.
pub open spec fn answers_tied<T: Tree>(tree: T, walks: Seq<Seq<Seq<char>>>, answers: Seq<Seq<Answers>>) -> bool {
    forall|t: int, d: int|
        0 <= t < answers.len() && t < walks.len() && 0 <= d < answers[t].len() && d < walks[t].len() ==> answers_from(
            tree,
            walks[t][d],
            #[trigger] answers[t][d],
        )
}

fn contains_text(list: &Vec<Vec<char>>, x: &Vec<char>) -> (r: bool)
    ensures
        r == views(list@).contains(x@),
{
    let mut i: usize = 0;
    while i < list.len()
        invariant
            i <= list.len(),
            forall|k: int| 0 <= k < i ==> views(list@)[k] != x@,
        decreases list.len() - i,
    {
        if crate::text::same(&list[i], x) {
            assert(views(list@)[i as int] == x@);
            return true;
        }
        i += 1;
    }
    false
}

#[verifier::loop_isolation(false)]
fn inspect<T: Tree>(tree: &T, directory: &Vec<char>, report: &mut Report) -> (r: (Result<(), String>, Ghost<Answers>))
    ensures
        answers_from(*tree, directory@, r.1@),
        match inspect_spec(directory@, r.1@.read, r.1@.children, r.1@.flags) {
            Ok(found) => r.0 is Ok && final(report)@ == (ReportView { findings: old(report)@.findings + found, ..old(report)@ }),
            Err(m) => r.0 matches Err(e) && e@ == m,
        },
{
    let ghost base = report@.findings;
    let mut readme = slice(directory, 0, directory.len());
    readme.push('/');
    extend_str(&mut readme, README);
    assert(readme@ =~= directory@ + seq!['/'] + README@);
    let read = tree.read(string_of(&readme).as_str());
    let ghost rv = read_view(read);
    assert(tree.reads_as(directory@ + seq!['/'] + README@, rv));
    let text = match read {
        Ok(text) => text,
        Err(TreeError::Unreadable(reason)) => {
            let mut m = slice(&readme, 0, readme.len());
            extend_str(&mut m, ": ");
            extend_str(&mut m, reason.as_str());
            let ghost a = Answers { read: rv, children: Seq::empty(), flags: Seq::empty() };
            assert(m@ =~= readme@ + ": "@ + reason@);
            return (Err(string_of(&m)), Ghost(a));
        },
        Err(TreeError::NotText) => {
            let mut m = slice(&readme, 0, readme.len());
            extend_str(&mut m, ": holds no text");
            let ghost a = Answers { read: rv, children: Seq::empty(), flags: Seq::empty() };
            assert(m@ =~= readme@ + ": holds no text"@);
            return (Err(string_of(&m)), Ghost(a));
        },
        Err(TreeError::NotFound) => {
            let f = Finding::new("missing-readme", string_of(directory).as_str(), MISSING_README);
            report.found(f);
            let ghost a = Answers { read: rv, children: Seq::empty(), flags: Seq::empty() };
            assert(base.push(plain("missing-readme"@, directory@, None, MISSING_README@)) =~= base + seq![
                plain("missing-readme"@, directory@, None, MISSING_README@),
            ]);
            return (Ok(()), Ghost(a));
        },
    };
    let entries = match map_entries(text.as_str()) {
        None => {
            let f = Finding::new("missing-directory-map", string_of(&readme).as_str(), MISSING_MAP);
            report.found(f);
            let ghost a = Answers { read: rv, children: Seq::empty(), flags: Seq::empty() };
            assert(base.push(plain("missing-directory-map"@, readme@, None, MISSING_MAP@)) =~= base + seq![
                plain("missing-directory-map"@, readme@, None, MISSING_MAP@),
            ]);
            return (Ok(()), Ghost(a));
        },
        Some(es) => es,
    };
    let ghost ev = Seq::new(entries@.len(), |i: int| (entries@[i].0 as nat, entries@[i].1@));
    let mut covered: Vec<Vec<char>> = Vec::new();
    let ghost mut flags: Seq<bool> = Seq::empty();
    let mut j: usize = 0;
    assert(views(covered@).to_set() =~= Set::<Seq<char>>::empty());
    assert(base + Seq::<FindingView>::empty() =~= base);
    while j < entries.len()
        invariant
            j <= entries.len(),
            flags.len() == j,
            ev == Seq::new(entries@.len(), |i: int| (entries@[i].0 as nat, entries@[i].1@)),
            report@.findings == base + entry_findings(readme@, directory@, ev.take(j as int), flags).0,
            report@ == (ReportView { findings: report@.findings, ..old(report)@ }),
            views(covered@).to_set() == entry_findings(readme@, directory@, ev.take(j as int), flags).1,
            flags_from(*tree, directory@, ev.take(j as int), flags),
        decreases entries.len() - j,
    {
        assert(ev.take(j + 1).drop_last() =~= ev.take(j as int));
        assert(ev.take(j + 1)[j as int] == (entries@[j as int].0 as nat, entries@[j as int].1@));
        let line = entries[j].0;
        let target = &entries[j].1;
        let ghost before = report@.findings;
        let ghost before_covered = views(covered@);
        let mut flag = false;
        let mut usable = false;
        match address_of(directory, target) {
            Some((sibling, addressed)) => {
                flag = tree.exists_at(string_of(&addressed).as_str());
                assert(exists_as(*tree, addressed@, flag));
                if flag {
                    usable = true;
                    let ghost sv = sibling@;
                    if contains_text(&covered, &sibling) {
                        let mut m = chars_of("duplicate map entry for `");
                        extend(&mut m, &sibling);
                        extend_str(&mut m, DUPLICATE_TAIL);
                        let f = Finding::new("duplicate-map-entry", string_of(&readme).as_str(), string_of(&m).as_str()).at_line(
                            line,
                        );
                        assert(m@ =~= "duplicate map entry for `"@ + sv + DUPLICATE_TAIL@);
                        assert(f@ == plain("duplicate-map-entry"@, readme@, Some(line as nat), m@));
                        assert(before_covered.to_set().contains(sv));
                        report.found(f);
                    } else {
                        assert(!before_covered.to_set().contains(sv));
                        covered.push(sibling);
                        assert(views(covered@) =~= before_covered.push(sv));
                        proof {
                            crate::text::lemma_push_to_set(before_covered, sv);
                        }
                    }
                }
            },
            None => {},
        }
        if !usable {
            let mut m = chars_of("invalid map entry `");
            proof {
                reveal_strlit("\0");
                assert("\0"@ =~= seq!['\0']);
            }
            let escaped = crate::markdown::mermaid::replace(target, "\0", &chars_of("\\0"));
            extend(&mut m, &escaped);
            extend_str(&mut m, INVALID_TAIL);
            let f = Finding::new("invalid-map-entry", string_of(&readme).as_str(), string_of(&m).as_str()).at_line(line);
            assert(m@ =~= "invalid map entry `"@ + replace_spec(target@, seq!['\0'], "\\0"@) + INVALID_TAIL@);
            assert(f@ == plain("invalid-map-entry"@, readme@, Some(line as nat), m@));
            report.found(f);
        }
        proof {
            let next = flags.push(flag);
            assert(next.take(j as int) =~= flags);
            assert(next[j as int] == flag);
            assert(usable <==> (address(directory@, target@) is Some && flag));
            assert(flags_from(*tree, directory@, ev.take(j + 1), next)) by {
                assert forall|q: int| 0 <= q < j + 1 implies match address(directory@, (#[trigger] ev.take(j + 1)[q]).1) {
                    Some((_, addressed)) => exists_as(*tree, addressed, next[q]),
                    None => true,
                } by {
                    if q < j {
                        assert(ev.take(j + 1)[q] == ev.take(j as int)[q]);
                        assert(next[q] == flags[q]);
                    }
                }
            }
            flags = next;
        }
        j += 1;
    }
    assert(ev.take(entries.len() as int) =~= ev);
    let ghost covered_set = views(covered@).to_set();
    let kids = tree.children(string_of(directory).as_str());
    let ghost kv = string_views(kids@);
    let ghost mid = report@.findings;
    let mut k: usize = 0;
    assert(mid + sibling_findings(readme@, kv.take(0), covered_set) =~= mid);
    while k < kids.len()
        invariant
            k <= kids.len(),
            kv == string_views(kids@),
            covered_set == views(covered@).to_set(),
            report@.findings == mid + sibling_findings(readme@, kv.take(k as int), covered_set),
            report@ == (ReportView { findings: report@.findings, ..old(report)@ }),
        decreases kids.len() - k,
    {
        assert(kv.take(k + 1).drop_last() =~= kv.take(k as int));
        assert(kv.take(k + 1).last() == kids@[k as int]@);
        let child = chars_of(kids[k].as_str());
        let ghost before = report@.findings;
        if !crate::text::same(&child, &readme) && !contains_text(&covered, &child) {
            let mut m = chars_of("missing map entry for `");
            extend(&mut m, &child);
            extend_str(&mut m, "`: every direct sibling appears exactly once");
            let f = Finding::new("missing-map-entry", string_of(&readme).as_str(), string_of(&m).as_str());
            report.found(f);
            assert(before.push(f@) =~= before + seq![f@]);
        } else {
            assert(before + Seq::<FindingView>::empty() =~= before);
        }
        k += 1;
    }
    assert(kv.take(kids.len() as int) =~= kv);
    let ghost a = Answers { read: rv, children: kv, flags };
    assert(report@.findings =~= base + (entry_findings(readme@, directory@, ev, flags).0 + sibling_findings(
        readme@,
        kv,
        covered_set,
    )));
    (Ok(()), Ghost(a))
}


/// What a walk of mapped directories is found to break, given the tree's
/// answers for the first `answers.len()` of them; the first refusal ends it.
pub open spec fn map_findings(dirs: Seq<Seq<char>>, answers: Seq<Answers>) -> Result<Seq<FindingView>, Seq<char>>
    decreases answers.len(),
{
    if answers.len() == 0 || dirs.len() < answers.len() {
        Ok(Seq::empty())
    } else {
        let k = answers.len() - 1;
        match map_findings(dirs, answers.drop_last()) {
            Err(m) => Err(m),
            Ok(found) => match inspect_spec(dirs[k], answers[k].read, answers[k].children, answers[k].flags) {
                Err(m) => Err(m),
                Ok(more) => Ok(found + more),
            },
        }
    }
}

/// The same over the walks of several roots, one after the other.
pub open spec fn tree_findings(walks: Seq<Seq<Seq<char>>>, answers: Seq<Seq<Answers>>) -> Result<Seq<FindingView>, Seq<char>>
    decreases answers.len(),
{
    if answers.len() == 0 || walks.len() != answers.len() {
        Ok(Seq::empty())
    } else {
        let k = answers.len() - 1;
        match tree_findings(walks.drop_last(), answers.drop_last()) {
            Err(m) => Err(m),
            Ok(found) => match map_findings(walks[k], answers[k]) {
                Err(m) => Err(m),
                Ok(more) => Ok(found + more),
            },
        }
    }
}

/// Whether `walks` are, root by root, the directories a walk of each of the
/// first roots found: in path order, each once.
pub open spec fn walks_of<T: Tree>(tree: T, config: Config, roots: Seq<Seq<char>>, walks: Seq<Seq<Seq<char>>>) -> bool {
    &&& walks.len() <= roots.len()
    &&& forall|t: int|
        0 <= t < walks.len() ==> strictly_sorted(#[trigger] walks[t]) && exists|listed: Seq<Seq<char>>|
            tree.lists(listed) && walks[t].to_set() == #[trigger] walked_dirs(
                listed,
                string_views(crate::config::excluded_spec(config)),
                roots[t],
            )
}

/// Whether the tree answered for every directory of every walk.
pub open spec fn answered_all(walks: Seq<Seq<Seq<char>>>, answers: Seq<Seq<Answers>>) -> bool {
    &&& answers.len() == walks.len()
    &&& forall|t: int| 0 <= t < walks.len() ==> (#[trigger] answers[t]).len() == walks[t].len()
}

/// A report of this rule holding `findings` after `inspected` directories.
pub open spec fn map_report(findings: Seq<FindingView>, inspected: nat) -> ReportView {
    ReportView {
        category: "directory-map"@,
        subject: "directory"@,
        inspected,
        scanned: Seq::empty(),
        notes: Seq::empty(),
        measurements: Seq::empty(),
        findings,
        refusal: None,
    }
}

/// The report of this rule refusing to run, for `reason`.
pub open spec fn refusal(reason: Seq<char>) -> ReportView {
    ReportView {
        category: "directory-map"@,
        subject: "subject"@,
        inspected: 0,
        scanned: Seq::empty(),
        notes: Seq::empty(),
        measurements: Seq::empty(),
        findings: Seq::empty(),
        refusal: Some(reason),
    }
}

/// Whether `r` is the report of a run over `roots`, for some walks of them
/// and some answers of the tree.
pub open spec fn map_run<T: Tree>(tree: T, config: Config, roots: Seq<Seq<char>>, r: ReportView) -> bool {
    exists|walks: Seq<Seq<Seq<char>>>, answers: Seq<Seq<Answers>>|
        #![trigger walks_of(tree, config, roots, walks), tree_findings(walks, answers)]
        walks_of(tree, config, roots, walks) && answers_tied(tree, walks, answers) && match tree_findings(walks, answers) {
            Err(m) => r == refusal(m),
            Ok(found) => walks.len() == roots.len() && answered_all(walks, answers) && r == map_report(
                found,
                crate::governance::word_budget::capped(crate::markdown::readme_index::walk_total(walks)),
            ),
        }
}

/// The roots a run walks: the selected directory in place of the declared
/// trees, when one was selected.
pub open spec fn roots_of(map: DirectoryMap, scope: Scope) -> Seq<Seq<char>> {
    match scope.directory {
        Some(selected) => seq![selected@],
        None => Seq::new(map.trees@.len(), |t: int| map.trees@[t].path@),
    }
}

/// Checks every directory under the declared trees, or under the selected
/// one, against its README's directory map.
#[verifier::loop_isolation(false)]
pub fn validate<T: Tree>(tree: &T, config: &Config, map: &DirectoryMap, scope: &Scope) -> (r: Report)
    ensures
        match scope.directory {
            Some(selected) => exists|listing: Seq<Seq<char>>|
                #[trigger] tree.lists(listing) && if crate::runtime::holds_under(listing, selected@) {
                    map_run(*tree, *config, roots_of(*map, *scope), r@)
                } else {
                    r@ == refusal(selected@ + " is not a directory in this repository"@)
                },
            None => map_run(*tree, *config, roots_of(*map, *scope), r@),
        },
{
    let mut roots: Vec<String> = Vec::new();
    match &scope.directory {
        Some(selected) => {
            if !tree.is_directory(selected.as_str()) {
                let mut m = chars_of(selected.as_str());
                extend_str(&mut m, " is not a directory in this repository");
                return Report::refused("directory-map", string_of(&m).as_str());
            }
            roots.push(string_of(&chars_of(selected.as_str())));
        },
        None => {
            let mut t: usize = 0;
            while t < map.trees.len()
                invariant
                    t <= map.trees.len(),
                    string_views(roots@) == Seq::new(t as nat, |i: int| map.trees@[i].path@),
                decreases map.trees.len() - t,
            {
                let ghost before = string_views(roots@);
                let next = string_of(&chars_of(map.trees[t].path.as_str()));
                assert(next@ == map.trees@[t as int].path@);
                roots.push(next);
                assert(string_views(roots@) =~= before.push(map.trees@[t as int].path@));
                assert(before.push(map.trees@[t as int].path@) =~= Seq::new((t + 1) as nat, |i: int| map.trees@[i].path@));
                t += 1;
            }
        },
    }
    let ghost rv = string_views(roots@);
    assert(rv =~= roots_of(*map, *scope));
    let mut report = Report::new("directory-map", "directory");
    let mut count: usize = 0;
    let ghost mut walks: Seq<Seq<Seq<char>>> = Seq::empty();
    let ghost mut answers: Seq<Seq<Answers>> = Seq::empty();
    let mut t: usize = 0;
    while t < roots.len()
        invariant
            t <= roots.len(),
            rv == string_views(roots@),
            walks.len() == t,
            walks_of(*tree, *config, rv, walks),
            answered_all(walks, answers),
            answers_tied(*tree, walks, answers),
            tree_findings(walks, answers) is Ok,
            count as nat == crate::governance::word_budget::capped(crate::markdown::readme_index::walk_total(walks)),
            report@ == map_report(tree_findings(walks, answers)->Ok_0, 0),
        decreases roots.len() - t,
    {
        let directories = crate::scan::directories(tree, config, roots[t].as_str());
        let ghost dv = string_views(directories@);
        assert(rv[t as int] == roots@[t as int]@);
        let ghost base = report@.findings;
        let ghost mut mine: Seq<Answers> = Seq::empty();
        let mut d: usize = 0;
        while d < directories.len()
            invariant
                d <= directories.len(),
                dv == string_views(directories@),
                mine.len() == d,
                forall|q: int| 0 <= q < d ==> answers_from(*tree, dv[q], #[trigger] mine[q]),
                map_findings(dv, mine) is Ok,
                report@ == map_report(base + map_findings(dv, mine)->Ok_0, 0),
            decreases directories.len() - d,
        {
            let dir = chars_of(directories[d].as_str());
            let ghost before = report@.findings;
            let (outcome, Ghost(a)) = inspect(tree, &dir, &mut report);
            let ghost next = mine.push(a);
            proof {
                assert(next.drop_last() =~= mine);
                assert(dv[d as int] == dir@);
                assert forall|q: int| 0 <= q < d + 1 implies answers_from(*tree, dv[q], #[trigger] next[q]) by {
                    if q < d {
                        assert(next[q] == mine[q]);
                    }
                }
            }
            match outcome {
                Err(reason) => {
                    proof {
                        let w2 = walks.push(dv);
                        let a2 = answers.push(next);
                        assert(w2.drop_last() =~= walks);
                        assert(a2.drop_last() =~= answers);
                        assert(w2[t as int] == dv);
                        assert(a2[t as int] == next);
                        assert(map_findings(dv, next) == Err::<Seq<FindingView>, Seq<char>>(reason@));
                        assert(tree_findings(w2, a2) == Err::<Seq<FindingView>, Seq<char>>(reason@));
                        assert forall|i: int| 0 <= i < t implies w2[i] == walks[i] && a2[i] == answers[i] by {}
                        assert(walks_of(*tree, *config, rv, w2));
                        assert(answers_tied(*tree, w2, a2)) by {
                            assert forall|x: int, y: int|
                                0 <= x < a2.len() && x < w2.len() && 0 <= y < a2[x].len() && y < w2[x].len() implies answers_from(
                                *tree,
                                w2[x][y],
                                #[trigger] a2[x][y],
                            ) by {
                                if x < t {
                                    assert(a2[x] == answers[x]);
                                    assert(w2[x] == walks[x]);
                                }
                            }
                        }
                    }
                    return Report::refused("directory-map", reason.as_str());
                },
                Ok(()) => {},
            }
            proof {
                let more = inspect_spec(dir@, a.read, a.children, a.flags)->Ok_0;
                assert(map_findings(dv, next) == Ok::<Seq<FindingView>, Seq<char>>(map_findings(dv, mine)->Ok_0 + more));
                assert(base + (map_findings(dv, mine)->Ok_0 + more) =~= before + more);
                mine = next;
            }
            d += 1;
        }
        proof {
            let w2 = walks.push(dv);
            let a2 = answers.push(mine);
            assert(w2.drop_last() =~= walks);
            assert(a2.drop_last() =~= answers);
            assert(w2[t as int] == dv);
            assert(a2[t as int] == mine);
            assert forall|i: int| 0 <= i < t implies w2[i] == walks[i] && a2[i] == answers[i] by {}
            assert(answers_tied(*tree, w2, a2)) by {
                assert forall|x: int, y: int|
                    0 <= x < a2.len() && x < w2.len() && 0 <= y < a2[x].len() && y < w2[x].len() implies answers_from(
                    *tree,
                    w2[x][y],
                    #[trigger] a2[x][y],
                ) by {
                    if x < t {
                        assert(a2[x] == answers[x]);
                        assert(w2[x] == walks[x]);
                    }
                }
            }
            assert(tree_findings(w2, a2) == Ok::<Seq<FindingView>, Seq<char>>(base + map_findings(dv, mine)->Ok_0));
            walks = w2;
            answers = a2;
        }
        count = count.saturating_add(directories.len());
        t += 1;
    }
    report.inspected(count);
    report
}

} // verus!
