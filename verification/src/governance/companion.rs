//! Ordered companion sets.
//!
//! A governed document too large for its budget splits into an entrypoint
//! plus a sibling directory named exactly after it. The directory carries a
//! README indexing its modules, and the filenames carry ordinal prefixes
//! when, and only when, the entrypoint declares a reading order. Whether a
//! set needs an order is a claim about content and is not decided here; the
//! shape a declared order obliges is.
use crate::governance::structure::ROOT;
use crate::markdown::internal_link::destinations_spec;
use crate::markdown::naming::refused_view;
use crate::markdown::{numbered_views, prose_lines, prose_spec, sibling_links, sibling_set};
use crate::report::{Finding, FindingView, Report, ReportView};
use crate::runtime::{read_view, string_views, Tree, TreeError, TreeFault};
use crate::scan::README;
use crate::text::{
    chars_of, extend, extend_str, find, find_from, is_digit, rfind_char, slice, starts_with, string_of,
    strictly_sorted, trim_start, trim_start_spec, views,
};
use vstd::prelude::*;

verus! {

/// The suffixes a companion directory is written with when the relationship
/// is spelled out a second time. Closed on purpose.
pub open spec fn suffixes() -> Seq<Seq<char>> {
    seq!["-details"@, "-modules"@, "-parts"@]
}

/// The last index at which `c` occurs.
pub open spec fn last_index(s: Seq<char>, c: char) -> Option<nat>
    decreases s.len(),
{
    if s.len() == 0 {
        None
    } else if s.last() == c {
        Some((s.len() - 1) as nat)
    } else {
        last_index(s.drop_last(), c)
    }
}

/// `str::rsplit_once` on one character.
pub open spec fn rsplit_spec(s: Seq<char>, c: char) -> Option<(Seq<char>, Seq<char>)> {
    match last_index(s, c) {
        Some(i) => Some((s.take(i as int), s.skip(i as int + 1))),
        None => None,
    }
}

proof fn lemma_last_index(s: Seq<char>, c: char, i: int)
    requires
        0 <= i < s.len(),
        s[i] == c,
        forall|k: int| i < k < s.len() ==> s[k] != c,
    ensures
        last_index(s, c) == Some(i as nat),
    decreases s.len(),
{
    if i < s.len() - 1 {
        lemma_last_index(s.drop_last(), c, i);
    }
}

proof fn lemma_no_index(s: Seq<char>, c: char)
    requires
        forall|k: int| 0 <= k < s.len() ==> s[k] != c,
    ensures
        last_index(s, c) is None,
    decreases s.len(),
{
    if s.len() > 0 {
        lemma_no_index(s.drop_last(), c);
    }
}

pub(crate) fn rsplit(v: &Vec<char>, c: char) -> (r: Option<(Vec<char>, Vec<char>)>)
    ensures
        match r {
            Some((a, b)) => rsplit_spec(v@, c) == Some((a@, b@)),
            None => rsplit_spec(v@, c) is None,
        },
{
    match rfind_char(v, c) {
        Some(i) => {
            proof {
                lemma_last_index(v@, c, i as int);
            }
            let a = slice(v, 0, i);
            let b = slice(v, i + 1, v.len());
            assert(a@ =~= v@.take(i as int));
            assert(b@ =~= v@.skip(i + 1));
            Some((a, b))
        },
        None => {
            proof {
                lemma_no_index(v@, c);
            }
            None
        },
    }
}

pub open spec fn root_prefix() -> Seq<char> {
    ROOT@ + seq!['/']
}

/// The directory a governance file sits in and its name, when it sits below
/// the root's top level: a document directly under the root belongs to no
/// set.
pub open spec fn placed(path: Seq<char>) -> Option<(Seq<char>, Seq<char>)> {
    if root_prefix().is_prefix_of(path) {
        match rsplit_spec(path.skip(root_prefix().len() as int), '/') {
            Some((d, name)) => Some((root_prefix() + d, name)),
            None => None,
        }
    } else {
        None
    }
}

/// Every directory some file sits in.
pub open spec fn set_dirs(files: Seq<Seq<char>>) -> Set<Seq<char>> {
    Set::new(
        |d: Seq<char>| exists|i: int| 0 <= i < files.len() && (#[trigger] placed(files[i]) matches Some((dd, _)) && dd == d),
    )
}

/// The names of the files a directory holds directly, in listing order.
pub open spec fn held_in(files: Seq<Seq<char>>, directory: Seq<char>) -> Seq<Seq<char>>
    decreases files.len(),
{
    if files.len() == 0 {
        Seq::empty()
    } else {
        let rest = held_in(files.drop_last(), directory);
        match placed(files.last()) {
            Some((d, name)) => if d == directory {
                rest.push(name)
            } else {
                rest
            },
            None => rest,
        }
    }
}

pub open spec fn ends_with(s: Seq<char>, suffix: Seq<char>) -> bool {
    suffix.len() <= s.len() && s.skip(s.len() - suffix.len()) == suffix
}

/// The stem left by the first suffix a name is written with.
pub open spec fn stem_of(name: Seq<char>) -> Option<Seq<char>> {
    if ends_with(name, suffixes()[0]) {
        Some(name.take(name.len() - suffixes()[0].len()))
    } else if ends_with(name, suffixes()[1]) {
        Some(name.take(name.len() - suffixes()[1].len()))
    } else if ends_with(name, suffixes()[2]) {
        Some(name.take(name.len() - suffixes()[2].len()))
    } else {
        None
    }
}

/// A directory's parent and its own name.
pub open spec fn split_dir(directory: Seq<char>) -> (Seq<char>, Seq<char>) {
    match rsplit_spec(directory, '/') {
        Some(pair) => pair,
        None => (ROOT@, directory),
    }
}

/// Whether a line opens a numbered list item.
pub open spec fn numbered(line: Seq<char>) -> bool {
    let t = trim_start_spec(line);
    exists|k: int|
        0 < k < t.len() && (forall|m: int| 0 <= m < k ==> is_digit(#[trigger] t[m])) && (t[k] == '.' || t[k] == ')')
}

/// Whether the entrypoint links into the set's directory from a numbered
/// list.
pub open spec fn declares_order(entrypoint: Seq<char>, directory: Seq<char>) -> bool {
    let into = seq!['('] + split_dir(directory).1 + seq!['/'];
    exists|i: int|
        0 <= i < prose_spec(entrypoint).len() && find_from(#[trigger] prose_spec(entrypoint)[i].1, into, 0) is Some
            && numbered(prose_spec(entrypoint)[i].1)
}

pub open spec fn digit_value(c: char) -> nat {
    ((c as u32) - ('0' as u32)) as nat
}

/// The three-digit ordinal a filename opens with, before a hyphen.
pub open spec fn ordinal_of(name: Seq<char>) -> Option<nat> {
    if name.len() > 3 && is_digit(name[0]) && is_digit(name[1]) && is_digit(name[2]) && name[3] == '-' {
        Some(100 * digit_value(name[0]) + 10 * digit_value(name[1]) + digit_value(name[2]))
    } else {
        None
    }
}

/// Whether the ordinals run from one to their number, each once.
pub open spec fn contiguous(ordinals: Seq<nat>) -> bool {
    &&& forall|i: int| 0 <= i < ordinals.len() ==> 1 <= #[trigger] ordinals[i] <= ordinals.len()
    &&& forall|i: int, j: int| 0 <= i < j < ordinals.len() ==> ordinals[i] != ordinals[j]
}

pub open spec fn plain(kind: Seq<char>, path: Seq<char>, message: Seq<char>) -> FindingView {
    FindingView { kind, path, line: None, column: None, field: None, message, details: Seq::empty() }
}

pub const UNINDEXED: &'static str = "is not indexed by its companion README, which lists the modules of the set in reading order";

pub const NO_INDEX: &'static str = "carries no README; a companion directory indexes its modules in reading order";

pub const UNORDERED: &'static str = "carries no ordinal prefix, and its entrypoint declares a reading order";

pub const NEEDLESS_ORDINAL: &'static str = "carries an ordinal prefix, and its entrypoint declares no reading order; a prefix asserts a sequence the entrypoint does not claim";

pub const GAP: &'static str = "ordinals are not contiguous from 001; inserting a module renumbers what follows, because the reading order is the only thing these names are for";

/// The modules other than the index.
pub open spec fn live(held: Seq<Seq<char>>) -> Seq<Seq<char>>
    decreases held.len(),
{
    if held.len() == 0 {
        Seq::empty()
    } else if held.last() == README@ {
        live(held.drop_last())
    } else {
        live(held.drop_last()).push(held.last())
    }
}

/// One finding for each live module the index does not link.
pub open spec fn unindexed(directory: Seq<char>, names: Seq<Seq<char>>, linked: Set<Seq<char>>) -> Seq<FindingView>
    decreases names.len(),
{
    if names.len() == 0 {
        Seq::empty()
    } else {
        let name = names.last();
        unindexed(directory, names.drop_last(), linked) + if linked.contains(name) {
            Seq::empty()
        } else {
            seq![plain("unindexed-companion-module"@, directory + seq!['/'] + name, UNINDEXED@)]
        }
    }
}

/// One finding for each linked name the directory does not hold.
pub open spec fn missing_indexed(directory: Seq<char>, keys: Seq<Seq<char>>, held: Seq<Seq<char>>) -> Seq<FindingView>
    decreases keys.len(),
{
    if keys.len() == 0 {
        Seq::empty()
    } else {
        let target = keys.last();
        missing_indexed(directory, keys.drop_last(), held) + if held.contains(target) {
            Seq::empty()
        } else {
            seq![plain("missing-indexed-companion"@, directory, "indexes `"@ + target + "`, which is not there"@)]
        }
    }
}

/// The findings for each live module's prefix, and the ordinals of an
/// ordered set.
pub open spec fn ordinal_findings(directory: Seq<char>, names: Seq<Seq<char>>, ordered: bool) -> (Seq<FindingView>, Seq<nat>)
    decreases names.len(),
{
    if names.len() == 0 {
        (Seq::empty(), Seq::empty())
    } else {
        let (found, ordinals) = ordinal_findings(directory, names.drop_last(), ordered);
        let name = names.last();
        let path = directory + seq!['/'] + name;
        match (ordered, ordinal_of(name)) {
            (true, None) => (found.push(plain("unordered-module-in-ordered-set"@, path, UNORDERED@)), ordinals),
            (false, Some(_)) => (found.push(plain("ordinal-in-unordered-set"@, path, NEEDLESS_ORDINAL@)), ordinals),
            (true, Some(v)) => (found, ordinals.push(v)),
            (false, None) => (found, ordinals),
        }
    }
}

/// A refusal for a read that failed other than by absence.
pub open spec fn refusal_message(path: Seq<char>, fault: TreeFault) -> Seq<char> {
    path + ": "@ + match fault {
        TreeFault::Unreadable(reason) => reason,
        _ => "holds no text"@,
    }
}

/// What one companion set is found to break, given its entrypoint's text,
/// what reading its index gave, and the siblings the index links in name
/// order; or why it could not be inspected.
pub open spec fn set_findings(
    directory: Seq<char>,
    entrypoint: Seq<char>,
    held: Seq<Seq<char>>,
    index: Result<Seq<char>, TreeFault>,
    keys: Seq<Seq<char>>,
) -> Result<Seq<FindingView>, Seq<char>> {
    let index_path = directory + seq!['/'] + README@;
    let names = live(held);
    let (prefixes, ordinals) = ordinal_findings(directory, names, declares_order(entrypoint, directory));
    let tail = prefixes + if declares_order(entrypoint, directory) && ordinals.len() > 0 && !contiguous(ordinals) {
        seq![plain("non-contiguous-companion-ordinals"@, directory, GAP@)]
    } else {
        Seq::empty()
    };
    match index {
        Err(TreeFault::NotFound) => Ok(seq![plain("missing-companion-index"@, directory, NO_INDEX@)] + tail),
        Err(fault) => Err(refusal_message(index_path, fault)),
        Ok(text) => Ok(
            unindexed(directory, names, sibling_set(destinations_spec(text))) + missing_indexed(directory, keys, held)
                + tail,
        ),
    }
}

/// What the tree answered for one directory: whether the document a suffix
/// names exists, reading the entrypoint, and reading the index.
pub ghost struct SetAnswers {
    pub named: bool,
    pub entry: Result<Seq<char>, TreeFault>,
    pub index: Result<Seq<char>, TreeFault>,
}

pub open spec fn suffixed_message(stem: Seq<char>) -> Seq<char> {
    "is named after `"@ + stem + ".md` with a suffix; a companion directory is named exactly after its document"@
}

/// What one directory contributes: nothing when it is no companion set,
/// the findings of one inspected set, or a refusal.
/// Whether a directory's answers are the tree's: whether the document its
/// suffixed name points at is there, and, when that does not settle it, the
/// read of its entrypoint and, when that gave text, of its index.
pub open spec fn set_answers_tied<T: Tree>(tree: T, directory: Seq<char>, a: SetAnswers) -> bool {
    let (parent, name) = split_dir(directory);
    &&& stem_of(name) is Some ==> crate::runtime::exists_as(tree, parent + seq!['/'] + stem_of(name)->Some_0 + ".md"@, a.named)
    &&& !(stem_of(name) is Some && a.named) ==> {
        &&& tree.reads_as(parent + seq!['/'] + name + ".md"@, a.entry)
        &&& a.entry is Ok ==> tree.reads_as(directory + seq!['/'] + README@, a.index)
    }
}

proof fn lemma_sets_push<T: Tree>(tree: T, dirs: Seq<Seq<char>>, answers: Seq<SetAnswers>, a: SetAnswers)
    requires
        sets_tied(tree, dirs, answers),
        answers.len() < dirs.len(),
        set_answers_tied(tree, dirs[answers.len() as int], a),
    ensures
        sets_tied(tree, dirs, answers.push(a)),
{
    let a2 = answers.push(a);
    assert forall|k: int| 0 <= k < a2.len() && k < dirs.len() implies set_answers_tied(tree, dirs[k], #[trigger] a2[k]) by {
        if k < answers.len() {
            assert(a2[k] == answers[k]);
        }
    }
}

/// Whether every directory's answers are the tree's.
pub open spec fn sets_tied<T: Tree>(tree: T, dirs: Seq<Seq<char>>, answers: Seq<SetAnswers>) -> bool {
    forall|k: int| 0 <= k < answers.len() && k < dirs.len() ==> set_answers_tied(tree, dirs[k], #[trigger] answers[k])
}

pub open spec fn directory_outcome(
    directory: Seq<char>,
    held: Seq<Seq<char>>,
    a: SetAnswers,
    keys: Seq<Seq<char>>,
) -> Result<Option<Seq<FindingView>>, Seq<char>> {
    let (parent, name) = split_dir(directory);
    let entrypoint = parent + seq!['/'] + name + ".md"@;
    if stem_of(name) is Some && a.named {
        Ok(Some(seq![plain("suffixed-companion-directory"@, directory, suffixed_message(stem_of(name)->Some_0))]))
    } else {
        match a.entry {
            Err(TreeFault::NotFound) => Ok(None),
            Err(fault) => Err(refusal_message(entrypoint, fault)),
            Ok(text) => match set_findings(directory, text, held, a.index, keys) {
                Err(m) => Err(m),
                Ok(found) => Ok(Some(found)),
            },
        }
    }
}

/// The count and findings over the first `answers.len()` directories; the
/// first refusal ends the run.
pub open spec fn companion_run(
    dirs: Seq<Seq<char>>,
    files: Seq<Seq<char>>,
    answers: Seq<SetAnswers>,
    keys: Seq<Seq<Seq<char>>>,
) -> Result<(nat, Seq<FindingView>), Seq<char>>
    decreases answers.len(),
{
    if answers.len() == 0 || dirs.len() < answers.len() || keys.len() != answers.len() {
        Ok((0, Seq::empty()))
    } else {
        let k = answers.len() - 1;
        match companion_run(dirs, files, answers.drop_last(), keys.drop_last()) {
            Err(m) => Err(m),
            Ok((n, found)) => match directory_outcome(dirs[k], held_in(files, dirs[k]), answers[k], keys[k]) {
                Err(m) => Err(m),
                Ok(None) => Ok((n, found)),
                Ok(Some(more)) => Ok((n + 1, found + more)),
            },
        }
    }
}

/// Whether `keys[t]` lists, in name order, the siblings the index of the
/// `t`-th directory links, wherever that index was read.
pub open spec fn keys_fit(answers: Seq<SetAnswers>, keys: Seq<Seq<Seq<char>>>) -> bool {
    &&& keys.len() == answers.len()
    &&& forall|t: int|
        0 <= t < answers.len() ==> ((#[trigger] answers[t]).index matches Ok(text) ==> strictly_sorted(keys[t])
            && keys[t].to_set() == sibling_set(destinations_spec(text)))
}

pub open spec fn companion_report(n: nat, findings: Seq<FindingView>) -> ReportView {
    ReportView {
        category: "governance-companions"@,
        subject: "companion set"@,
        inspected: n,
        scanned: Seq::empty(),
        notes: Seq::empty(),
        measurements: Seq::empty(),
        findings,
        refusal: None,
    }
}

fn placed_at(path: &Vec<char>) -> (r: Option<(Vec<char>, Vec<char>)>)
    ensures
        match r {
            Some((d, n)) => placed(path@) == Some((d@, n@)),
            None => placed(path@) is None,
        },
{
    let mut prefix = chars_of(ROOT);
    prefix.push('/');
    assert(prefix@ =~= root_prefix());
    if !starts_with(path, &prefix) {
        return None;
    }
    let rest = slice(path, prefix.len(), path.len());
    assert(rest@ =~= path@.skip(root_prefix().len() as int));
    match rsplit(&rest, '/') {
        Some((d, name)) => {
            let mut directory = prefix;
            extend(&mut directory, &d);
            Some((directory, name))
        },
        None => None,
    }
}

fn suffix_stem(name: &Vec<char>) -> (r: Option<Vec<char>>)
    ensures
        match r {
            Some(stem) => stem_of(name@) == Some(stem@),
            None => stem_of(name@) is None,
        },
{
    let options = vec!["-details", "-modules", "-parts"];
    assert(crate::cli::str_views(options@) =~= suffixes());
    let mut k: usize = 0;
    while k < 3
        invariant
            k <= 3,
            options@.len() == 3,
            crate::cli::str_views(options@) == suffixes(),
            forall|j: int| 0 <= j < k ==> !ends_with(name@, #[trigger] suffixes()[j]),
        decreases 3 - k,
    {
        assert(options@[k as int]@ == suffixes()[k as int]);
        let suffix = chars_of(options[k]);
        if crate::text::ends_with(name, &suffix) {
            assert(ends_with(name@, suffixes()[k as int])) by {
                assert(name@.subrange(name@.len() - suffix@.len(), name@.len() as int) =~= name@.skip(name@.len() - suffix@.len()));
            }
            let stem = slice(name, 0, name.len() - suffix.len());
            assert(stem@ =~= name@.take(name@.len() - suffixes()[k as int].len()));
            return Some(stem);
        }
        assert(!ends_with(name@, suffixes()[k as int])) by {
            if ends_with(name@, suffixes()[k as int]) {
                assert(name@.subrange(name@.len() - suffix@.len(), name@.len() as int) =~= name@.skip(name@.len() - suffix@.len()));
            }
        }
        k += 1;
    }
    None
}

fn split_directory(directory: &Vec<char>) -> (r: (Vec<char>, Vec<char>))
    ensures
        split_dir(directory@) == (r.0@, r.1@),
{
    match rsplit(directory, '/') {
        Some(pair) => pair,
        None => (chars_of(ROOT), slice(directory, 0, directory.len())),
    }
}

fn is_numbered(line: &Vec<char>) -> (r: bool)
    ensures
        r == numbered(line@),
{
    let t = trim_start(line);
    let mut k: usize = 0;
    while k < t.len() && '0' <= t[k] && t[k] <= '9'
        invariant
            k <= t.len(),
            t@ == trim_start_spec(line@),
            forall|m: int| 0 <= m < k ==> is_digit(#[trigger] t@[m]),
        decreases t.len() - k,
    {
        k += 1;
    }
    let r = k > 0 && k < t.len() && (t[k] == '.' || t[k] == ')');
    if r {
        assert(numbered(line@));
    } else {
        assert(!numbered(line@)) by {
            if numbered(line@) {
                let j = choose|j: int|
                    0 < j < t@.len() && (forall|m: int| 0 <= m < j ==> is_digit(#[trigger] t@[m])) && (t@[j] == '.'
                        || t@[j] == ')');
                if j < k {
                    assert(is_digit(t@[j]));
                } else if j > k {
                    assert(is_digit(t@[k as int]));
                }
            }
        }
    }
    r
}

fn declares(entrypoint: &str, directory: &Vec<char>) -> (r: bool)
    ensures
        r == declares_order(entrypoint@, directory@),
{
    let (_, name) = split_directory(directory);
    let mut into: Vec<char> = Vec::new();
    into.push('(');
    extend(&mut into, &name);
    into.push('/');
    assert(into@ =~= seq!['('] + split_dir(directory@).1 + seq!['/']);
    let lines = prose_lines(entrypoint);
    let ghost lv = numbered_views(lines@);
    let mut i: usize = 0;
    while i < lines.len()
        invariant
            i <= lines.len(),
            lv == numbered_views(lines@),
            lv == prose_spec(entrypoint@),
            into@ == seq!['('] + split_dir(directory@).1 + seq!['/'],
            forall|k: int|
                0 <= k < i ==> !(find_from(#[trigger] lv[k].1, into@, 0) is Some && numbered(lv[k].1)),
        decreases lines.len() - i,
    {
        let line = chars_of(lines[i].1.as_str());
        assert(lv[i as int].1 == line@);
        if find(&line, &into).is_some() && is_numbered(&line) {
            return true;
        }
        i += 1;
    }
    false
}

pub(crate) fn ordinal(name: &Vec<char>) -> (r: Option<usize>)
    ensures
        match r {
            Some(v) => ordinal_of(name@) == Some(v as nat),
            None => ordinal_of(name@) is None,
        },
{
    if name.len() > 3 && '0' <= name[0] && name[0] <= '9' && '0' <= name[1] && name[1] <= '9' && '0' <= name[2]
        && name[2] <= '9' && name[3] == '-' {
        let a = (name[0] as u32) - ('0' as u32);
        let b = (name[1] as u32) - ('0' as u32);
        let c = (name[2] as u32) - ('0' as u32);
        Some((100 * a + 10 * b + c) as usize)
    } else {
        None
    }
}

pub(crate) fn is_contiguous(ordinals: &Vec<usize>) -> (r: bool)
    ensures
        r == contiguous(Seq::new(ordinals@.len(), |i: int| ordinals@[i] as nat)),
{
    let ghost ov = Seq::new(ordinals@.len(), |i: int| ordinals@[i] as nat);
    let n = ordinals.len();
    let mut i: usize = 0;
    while i < n
        invariant
            i <= n,
            n == ordinals.len(),
            ov == Seq::new(ordinals@.len(), |i: int| ordinals@[i] as nat),
            forall|k: int| 0 <= k < i ==> 1 <= #[trigger] ov[k] <= ov.len(),
            forall|k: int, j: int| 0 <= k < i && k < j < ov.len() ==> ov[k] != ov[j],
        decreases n - i,
    {
        if ordinals[i] < 1 || ordinals[i] > n {
            assert(!(1 <= ov[i as int] <= ov.len()));
            return false;
        }
        let mut j: usize = i + 1;
        while j < n
            invariant
                i < n,
                i < j <= n,
                n == ordinals.len(),
                ov == Seq::new(ordinals@.len(), |i: int| ordinals@[i] as nat),
                forall|m: int| i < m < j ==> ov[i as int] != ov[m],
            decreases n - j,
        {
            if ordinals[i] == ordinals[j] {
                assert(ov[i as int] == ov[j as int]);
                return false;
            }
            j += 1;
        }
        i += 1;
    }
    true
}

fn live_names(held: &Vec<Vec<char>>) -> (r: Vec<Vec<char>>)
    ensures
        views(r@) == live(views(held@)),
{
    let mut r: Vec<Vec<char>> = Vec::new();
    let mut i: usize = 0;
    while i < held.len()
        invariant
            i <= held.len(),
            views(r@) == live(views(held@).take(i as int)),
        decreases held.len() - i,
    {
        assert(views(held@).take(i + 1).drop_last() =~= views(held@).take(i as int));
        assert(views(held@).take(i + 1).last() == held@[i as int]@);
        if !crate::text::is(&held[i], README) {
            let ghost before = views(r@);
            let piece = slice(&held[i], 0, held[i].len());
            assert(piece@ =~= held@[i as int]@);
            r.push(piece);
            assert(views(r@) =~= before.push(held@[i as int]@));
        }
        i += 1;
    }
    assert(views(held@).take(held.len() as int) =~= views(held@));
    r
}

fn holds(list: &Vec<Vec<char>>, x: &Vec<char>) -> (r: bool)
    ensures
        r == views(list@).contains(x@),
{
    let mut i: usize = 0;
    while i < list.len()
        invariant
            i <= list.len(),
            forall|k: int| 0 <= k < i ==> views(list@)[k] != x@,
        decreases list.len() - i,
    {
        if crate::text::same(&list[i], x) {
            assert(views(list@)[i as int] == x@);
            return true;
        }
        i += 1;
    }
    false
}

fn joined(a: &Vec<char>, b: &Vec<char>) -> (r: Vec<char>)
    ensures
        r@ == a@ + seq!['/'] + b@,
{
    let mut r = slice(a, 0, a.len());
    r.push('/');
    extend(&mut r, b);
    assert(r@ =~= a@ + seq!['/'] + b@);
    r
}

fn refusal_text(path: &Vec<char>, error: TreeError) -> (r: String)
    requires
        !(error is NotFound),
    ensures
        r@ == refusal_message(path@, error@),
{
    let mut m = slice(path, 0, path.len());
    extend_str(&mut m, ": ");
    match error {
        TreeError::Unreadable(reason) => extend_str(&mut m, reason.as_str()),
        _ => extend_str(&mut m, "holds no text"),
    }
    assert(m@ =~= refusal_message(path@, error@));
    string_of(&m)
}

/// One companion set: its index, and the ordinals its entrypoint obliges.
fn inspect<T: Tree>(tree: &T, directory: &Vec<char>, entrypoint: &str, held: &Vec<Vec<char>>, report: &mut Report) -> (r: (
    Result<(), String>,
    Ghost<Result<Seq<char>, TreeFault>>,
    Ghost<Seq<Seq<char>>>,
))
    ensures
        (r.1@ matches Ok(text) ==> strictly_sorted(r.2@) && r.2@.to_set() == sibling_set(destinations_spec(text))),
        tree.reads_as(directory@ + seq!['/'] + README@, r.1@),
        match set_findings(directory@, entrypoint@, views(held@), r.1@, r.2@) {
            Ok(found) => r.0 is Ok && final(report)@ == (ReportView { findings: old(report)@.findings + found, ..old(report)@ }),
            Err(m) => r.0 matches Err(e) && e@ == m,
        },
{
    let names = live_names(held);
    let ghost nv = views(names@);
    let ghost base = report@.findings;
    let index_path = joined(directory, &chars_of(README));
    let read = tree.read(string_of(&index_path).as_str());
    let ghost index = read_view(read);
    assert(tree.reads_as(directory@ + seq!['/'] + README@, index));
    let ghost mut keys: Seq<Seq<char>> = Seq::empty();
    let ghost mut index_part: Seq<FindingView> = Seq::empty();
    match read {
        Err(TreeError::NotFound) => {
            report.found(Finding::new("missing-companion-index", string_of(directory).as_str(), NO_INDEX));
            proof {
                index_part = seq![plain("missing-companion-index"@, directory@, NO_INDEX@)];
                assert(report@.findings =~= base + index_part);
            }
        },
        Err(error) => {
            let m = refusal_text(&index_path, error);
            return (Err(m), Ghost(index), Ghost(keys));
        },
        Ok(text) => {
            let linked = sibling_links(text.as_str());
            let ghost kv = Seq::new(linked@.len(), |i: int| linked@[i].0@);
            proof {
                keys = kv;
            }
            let mut keys_exec: Vec<Vec<char>> = Vec::new();
            let mut q: usize = 0;
            while q < linked.len()
                invariant
                    q <= linked.len(),
                    kv == Seq::new(linked@.len(), |i: int| linked@[i].0@),
                    views(keys_exec@) == kv.take(q as int),
                decreases linked.len() - q,
            {
                let ghost before = views(keys_exec@);
                let key = chars_of(linked[q].0.as_str());
                assert(key@ == kv[q as int]);
                keys_exec.push(key);
                assert(views(keys_exec@) =~= before.push(kv[q as int]));
                assert(kv.take(q + 1) =~= kv.take(q as int).push(kv[q as int]));
                q += 1;
            }
            assert(kv.take(linked.len() as int) =~= kv);
            let ghost linked_set = sibling_set(destinations_spec(text@));
            let mut i: usize = 0;
            while i < names.len()
                invariant
                    i <= names.len(),
                    nv == views(names@),
                    views(keys_exec@) == kv,
                    kv.to_set() == linked_set,
                    report@ == (ReportView { findings: report@.findings, ..old(report)@ }),
                    report@.findings == base + unindexed(directory@, nv.take(i as int), linked_set),
                decreases names.len() - i,
            {
                assert(nv.take(i + 1).drop_last() =~= nv.take(i as int));
                assert(nv.take(i + 1).last() == names@[i as int]@);
                let ghost before = report@.findings;
                let present = holds(&keys_exec, &names[i]);
                assert(present == linked_set.contains(names@[i as int]@)) by {
                    assert(kv.to_set().contains(names@[i as int]@) == kv.contains(names@[i as int]@));
                }
                if !present {
                    let path = joined(directory, &names[i]);
                    report.found(Finding::new("unindexed-companion-module", string_of(&path).as_str(), UNINDEXED));
                    assert(report@.findings =~= base + unindexed(directory@, nv.take(i + 1), linked_set));
                } else {
                    assert(base + unindexed(directory@, nv.take(i as int), linked_set) =~= base + unindexed(directory@, nv.take(i + 1), linked_set));
                }
                i += 1;
            }
            assert(nv.take(names.len() as int) =~= nv);
            let ghost mid = report@.findings;
            let mut k: usize = 0;
            while k < keys_exec.len()
                invariant
                    k <= keys_exec.len(),
                    views(keys_exec@) == kv,
                    report@ == (ReportView { findings: report@.findings, ..old(report)@ }),
                    report@.findings == mid + missing_indexed(directory@, kv.take(k as int), views(held@)),
                decreases keys_exec.len() - k,
            {
                assert(kv.take(k + 1).drop_last() =~= kv.take(k as int));
                assert(kv.take(k + 1).last() == keys_exec@[k as int]@);
                if !holds(held, &keys_exec[k]) {
                    let mut m = chars_of("indexes `");
                    extend(&mut m, &keys_exec[k]);
                    extend_str(&mut m, "`, which is not there");
                    report.found(Finding::new("missing-indexed-companion", string_of(directory).as_str(), string_of(&m).as_str()));
                    assert(report@.findings =~= mid + missing_indexed(directory@, kv.take(k + 1), views(held@)));
                } else {
                    assert(mid + missing_indexed(directory@, kv.take(k as int), views(held@)) =~= mid + missing_indexed(directory@, kv.take(k + 1), views(held@)));
                }
                k += 1;
            }
            assert(kv.take(keys_exec.len() as int) =~= kv);
            proof {
                index_part = unindexed(directory@, nv, linked_set) + missing_indexed(directory@, kv, views(held@));
                assert(report@.findings =~= base + index_part);
            }
        },
    }
    let ghost head = report@.findings;
    let ordered = declares(entrypoint, directory);
    let mut ordinals: Vec<usize> = Vec::new();
    let mut i: usize = 0;
    while i < names.len()
        invariant
            i <= names.len(),
            nv == views(names@),
            ordered == declares_order(entrypoint@, directory@),
            report@ == (ReportView { findings: report@.findings, ..old(report)@ }),
            report@.findings == head + ordinal_findings(directory@, nv.take(i as int), ordered).0,
            Seq::new(ordinals@.len(), |j: int| ordinals@[j] as nat) == ordinal_findings(directory@, nv.take(i as int), ordered).1,
        decreases names.len() - i,
    {
        assert(nv.take(i + 1).drop_last() =~= nv.take(i as int));
        assert(nv.take(i + 1).last() == names@[i as int]@);
        let ghost before_ords = Seq::new(ordinals@.len(), |j: int| ordinals@[j] as nat);
        let value = ordinal(&names[i]);
        match (ordered, value) {
            (true, None) => {
                let path = joined(directory, &names[i]);
                report.found(Finding::new("unordered-module-in-ordered-set", string_of(&path).as_str(), UNORDERED));
            },
            (false, Some(_)) => {
                let path = joined(directory, &names[i]);
                report.found(Finding::new("ordinal-in-unordered-set", string_of(&path).as_str(), NEEDLESS_ORDINAL));
            },
            (true, Some(v)) => {
                ordinals.push(v);
                assert(Seq::new(ordinals@.len(), |j: int| ordinals@[j] as nat) =~= before_ords.push(v as nat));
            },
            (false, None) => {},
        }
        i += 1;
    }
    assert(nv.take(names.len() as int) =~= nv);
    let ghost ov = Seq::new(ordinals@.len(), |j: int| ordinals@[j] as nat);
    let ghost pre = report@.findings;
    if ordered && ordinals.len() > 0 && !is_contiguous(&ordinals) {
        report.found(Finding::new("non-contiguous-companion-ordinals", string_of(directory).as_str(), GAP));
    } else {
        assert(pre + Seq::<FindingView>::empty() =~= pre);
    }
    proof {
        let (prefixes, ords) = ordinal_findings(directory@, nv, ordered);
        assert(ords == ov);
        let tail = prefixes + if ordered && ords.len() > 0 && !contiguous(ords) {
            seq![plain("non-contiguous-companion-ordinals"@, directory@, GAP@)]
        } else {
            Seq::<FindingView>::empty()
        };
        assert(report@.findings =~= head + tail);
        assert(report@.findings =~= base + (index_part + tail));
    }
    (Ok(()), Ghost(index), Ghost(keys))
}

fn held_names(files: &Vec<String>, directory: &Vec<char>) -> (r: Vec<Vec<char>>)
    ensures
        views(r@) == held_in(string_views(files@), directory@),
{
    let ghost fv = string_views(files@);
    let mut r: Vec<Vec<char>> = Vec::new();
    let mut i: usize = 0;
    while i < files.len()
        invariant
            i <= files.len(),
            fv == string_views(files@),
            views(r@) == held_in(fv.take(i as int), directory@),
        decreases files.len() - i,
    {
        assert(fv.take(i + 1).drop_last() =~= fv.take(i as int));
        assert(fv.take(i + 1).last() == files@[i as int]@);
        let path = chars_of(files[i].as_str());
        match placed_at(&path) {
            Some((d, name)) => {
                if crate::text::same(&d, directory) {
                    let ghost before = views(r@);
                    r.push(name);
                    assert(views(r@) =~= before.push(placed(fv[i as int])->Some_0.1));
                }
            },
            None => {},
        }
        i += 1;
    }
    assert(fv.take(files.len() as int) =~= fv);
    r
}

fn set_directories(files: &Vec<String>) -> (r: Vec<Vec<char>>)
    ensures
        strictly_sorted(views(r@)),
        views(r@).to_set() == set_dirs(string_views(files@)),
{
    let ghost fv = string_views(files@);
    let mut dirs: Vec<Vec<char>> = Vec::new();
    let mut i: usize = 0;
    while i < files.len()
        invariant
            i <= files.len(),
            fv == string_views(files@),
            strictly_sorted(views(dirs@)),
            views(dirs@).to_set() == Set::new(
                |d: Seq<char>| exists|k: int| 0 <= k < i && (#[trigger] placed(fv[k]) matches Some((dd, _)) && dd == d),
            ),
        decreases files.len() - i,
    {
        let path = chars_of(files[i].as_str());
        assert(fv[i as int] == path@);
        match placed_at(&path) {
            Some((d, _)) => {
                let ghost dd = d@;
                crate::text::insert_sorted(&mut dirs, d);
                assert(views(dirs@).to_set() =~= Set::new(
                    |x: Seq<char>| exists|k: int| 0 <= k < i + 1 && (#[trigger] placed(fv[k]) matches Some((y, _)) && y == x),
                )) by {
                    assert(placed(fv[i as int]) matches Some((y, _)) && y == dd);
                }
            },
            None => {
                assert(views(dirs@).to_set() =~= Set::new(
                    |x: Seq<char>| exists|k: int| 0 <= k < i + 1 && (#[trigger] placed(fv[k]) matches Some((y, _)) && y == x),
                ));
            },
        }
        i += 1;
    }
    assert(set_dirs(fv) =~= Set::new(
        |d: Seq<char>| exists|k: int| 0 <= k < files.len() && (#[trigger] placed(fv[k]) matches Some((dd, _)) && dd == d),
    ));
    dirs
}

/// Checks every companion set under the governance root: named exactly
/// after its document, indexed by its README, and numbered when, and only
/// when, its entrypoint declares a reading order.
pub fn validate<T: Tree>(tree: &T) -> (r: Report)
    ensures
        exists|files: Seq<Seq<char>>, dirs: Seq<Seq<char>>, answers: Seq<SetAnswers>, keys: Seq<Seq<Seq<char>>>|
            #![trigger companion_run(dirs, files, answers, keys)]
            tree.lists(files) && strictly_sorted(dirs) && dirs.to_set() == set_dirs(files) && answers.len() <= dirs.len()
                && keys_fit(answers, keys) && sets_tied(*tree, dirs, answers)
                && match companion_run(dirs, files, answers, keys) {
                Err(m) => r@ == refused_view("governance-companions"@, m),
                Ok((n, found)) => answers.len() == dirs.len() && r@ == companion_report(n, found),
            },
{
    let mut report = Report::new("governance-companions", "companion set");
    let files = tree.files();
    let ghost fv = string_views(files@);
    let dirs = set_directories(&files);
    let ghost dv = views(dirs@);
    let ghost mut answers: Seq<SetAnswers> = Seq::empty();
    let ghost mut keys: Seq<Seq<Seq<char>>> = Seq::empty();
    let mut t: usize = 0;
    while t < dirs.len()
        invariant
            t <= dirs.len(),
            dv == views(dirs@),
            fv == string_views(files@),
            strictly_sorted(dv),
            dv.to_set() == set_dirs(fv),
            answers.len() == t,
            keys_fit(answers, keys),
            tree.lists(fv),
            sets_tied(*tree, dv, answers),
            report@.inspected <= t,
            companion_run(dv, fv, answers, keys) == Ok::<(nat, Seq<FindingView>), Seq<char>>((report@.inspected, report@.findings)),
            report@ == companion_report(report@.inspected, report@.findings),
        decreases dirs.len() - t,
    {
        let directory = &dirs[t];
        let held = held_names(&files, directory);
        let (parent, name) = split_directory(directory);
        let ghost prior = report@;
        let ghost mut a = SetAnswers { named: false, entry: Err(TreeFault::NotFound), index: Err(TreeFault::NotFound) };
        let ghost mut k: Seq<Seq<char>> = Seq::empty();
        let ghost mut contributed: Option<Seq<FindingView>> = None;
        assert(dv[t as int] == directory@);
        let mut done = false;
        match suffix_stem(&name) {
            Some(stem) => {
                let mut document = joined(&parent, &stem);
                extend_str(&mut document, ".md");
                let present = tree.exists_at(string_of(&document).as_str());
                proof {
                    assert(document@ == parent@ + seq!['/'] + stem@ + ".md"@);
                    assert(crate::runtime::exists_as(*tree, document@, present));
                    a = SetAnswers { named: present, ..a };
                }
                if present {
                    report.inspected_one();
                    let mut m = chars_of("is named after `");
                    extend(&mut m, &stem);
                    extend_str(&mut m, ".md` with a suffix; a companion directory is named exactly after its document");
                    assert(m@ =~= suffixed_message(stem@));
                    report.found(Finding::new("suffixed-companion-directory", string_of(directory).as_str(), string_of(&m).as_str()));
                    done = true;
                    proof {
                        contributed = Some(seq![plain("suffixed-companion-directory"@, directory@, suffixed_message(stem@))]);
                        assert(report@.findings =~= prior.findings + contributed->Some_0);
                    }
                }
            },
            None => {},
        }
        if !done {
            let mut entrypoint = joined(&parent, &name);
            extend_str(&mut entrypoint, ".md");
            let read = tree.read(string_of(&entrypoint).as_str());
            proof {
                assert(entrypoint@ == parent@ + seq!['/'] + name@ + ".md"@);
                assert(tree.reads_as(entrypoint@, read_view(read)));
                a = SetAnswers { entry: read_view(read), ..a };
            }
            match read {
                Err(TreeError::NotFound) => {},
                Err(error) => {
                    let m = refusal_text(&entrypoint, error);
                    proof {
                        lemma_sets_push(*tree, dv, answers, a);
                        let a2 = answers.push(a);
                        let k2 = keys.push(k);
                        assert(a2.drop_last() =~= answers);
                        assert(k2.drop_last() =~= keys);
                        assert(companion_run(dv, fv, a2, k2) == Err::<(nat, Seq<FindingView>), Seq<char>>(m@));
                        assert(keys_fit(a2, k2));
                    }
                    return Report::refused("governance-companions", m.as_str());
                },
                Ok(text) => {
                    report.inspected_one();
                    let (outcome, Ghost(index), Ghost(ks)) = inspect(tree, directory, text.as_str(), &held, &mut report);
                    proof {
                        a = SetAnswers { index, ..a };
                        k = ks;
                    }
                    proof {
                        if outcome is Ok {
                            contributed = Some(set_findings(directory@, text@, views(held@), index, ks)->Ok_0);
                        }
                    }
                    match outcome {
                        Err(m) => {
                            proof {
                                lemma_sets_push(*tree, dv, answers, a);
                                let a2 = answers.push(a);
                                let k2 = keys.push(k);
                                assert(a2.drop_last() =~= answers);
                                assert(k2.drop_last() =~= keys);
                                assert(companion_run(dv, fv, a2, k2) == Err::<(nat, Seq<FindingView>), Seq<char>>(m@));
                                assert(keys_fit(a2, k2));
                            }
                            return Report::refused("governance-companions", m.as_str());
                        },
                        Ok(()) => {},
                    }
                },
            }
        }
        proof {
            lemma_sets_push(*tree, dv, answers, a);
            let a2 = answers.push(a);
            let k2 = keys.push(k);
            assert(a2.drop_last() =~= answers);
            assert(k2.drop_last() =~= keys);
            assert(keys_fit(a2, k2));
            assert(directory_outcome(directory@, views(held@), a, k) == Ok::<Option<Seq<FindingView>>, Seq<char>>(contributed));
            match contributed {
                Some(more) => {
                    assert(report@.inspected == prior.inspected + 1);
                    assert(report@.findings == prior.findings + more);
                },
                None => {
                    assert(report@ == prior);
                },
            }
            assert(companion_run(dv, fv, a2, k2) == Ok::<(nat, Seq<FindingView>), Seq<char>>((report@.inspected, report@.findings)));
            answers = a2;
            keys = k2;
        }
        t += 1;
    }
    report
}

proof fn lemma_prefix_kinds(directory: Seq<char>, names: Seq<Seq<char>>, ordered: bool)
    ensures
        forall|i: int|
            0 <= i < ordinal_findings(directory, names, ordered).0.len() ==> {
                let k = (#[trigger] ordinal_findings(directory, names, ordered).0[i]).kind;
                k == "unordered-module-in-ordered-set"@ || k == "ordinal-in-unordered-set"@
            },
    decreases names.len(),
{
    if names.len() > 0 {
        lemma_prefix_kinds(directory, names.drop_last(), ordered);
    }
}

/// A set with no index is reported once, and none of its modules is then
/// reported as unindexed: that would name the same missing file once per
/// module.
pub proof fn lemma_missing_index_once(directory: Seq<char>, entrypoint: Seq<char>, held: Seq<Seq<char>>, keys: Seq<Seq<char>>)
    ensures
        set_findings(directory, entrypoint, held, Err(TreeFault::NotFound), keys) matches Ok(found) && found.len() >= 1
            && found[0].kind == "missing-companion-index"@ && forall|i: int|
            1 <= i < found.len() ==> (#[trigger] found[i]).kind != "missing-companion-index"@ && found[i].kind
                != "unindexed-companion-module"@,
{
    reveal_strlit("missing-companion-index");
    reveal_strlit("unindexed-companion-module");
    reveal_strlit("unordered-module-in-ordered-set");
    reveal_strlit("ordinal-in-unordered-set");
    reveal_strlit("non-contiguous-companion-ordinals");
    lemma_prefix_kinds(directory, live(held), declares_order(entrypoint, directory));
    let found = set_findings(directory, entrypoint, held, Err(TreeFault::NotFound), keys)->Ok_0;
    let (prefixes, ordinals) = ordinal_findings(directory, live(held), declares_order(entrypoint, directory));
    let extra = if declares_order(entrypoint, directory) && ordinals.len() > 0 && !contiguous(ordinals) {
        seq![plain("non-contiguous-companion-ordinals"@, directory, GAP@)]
    } else {
        Seq::<FindingView>::empty()
    };
    assert(found =~= seq![plain("missing-companion-index"@, directory, NO_INDEX@)] + (prefixes + extra));
    assert("missing-companion-index"@.len() == 23);
    assert("unindexed-companion-module"@.len() == 26);
    assert("non-contiguous-companion-ordinals"@.len() == 33);
    assert("unordered-module-in-ordered-set"@.len() == 31);
    assert("ordinal-in-unordered-set"@.len() == 24);
    assert forall|i: int| 1 <= i < found.len() implies (#[trigger] found[i]).kind != "missing-companion-index"@ && found[i].kind
        != "unindexed-companion-module"@ by {
        if i - 1 < prefixes.len() {
            assert(found[i] == prefixes[i - 1]);
            let k = prefixes[i - 1].kind;
            assert(k == "unordered-module-in-ordered-set"@ || k == "ordinal-in-unordered-set"@);
        } else {
            assert(found[i] == extra[i - 1 - prefixes.len()]);
        }
    }
}

} // verus!
