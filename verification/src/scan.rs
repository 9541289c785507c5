//! Choosing what to look at, and reading it once.
//!
//! Every validator that walks the repository walks it the same way, so the
//! answer to "was this file inspected?" does not depend on which command
//! asked. The exclusion list is the consuming repository's, matched by
//! directory *name* at any depth rather than by prefix.
//!
//! Reading is centralised because an unreadable file has to refuse the whole
//! run with exit `2`, and one implementation of that refusal is one place for
//! it to be right.
use crate::config::Config;
use crate::runtime::{string_views, Tree, TreeError};
use crate::text::{chars_of, extend, extend_str, split_spec, string_of, views};
use vstd::prelude::*;

verus! {

/// Whether a path's extension, after its last `.`, is `md` in any case.
pub open spec fn is_markdown_spec(p: Seq<char>) -> bool {
    exists|i: int|
        0 <= i < p.len() && #[trigger] p[i] == '.' && (forall|k: int| i < k < p.len() ==> p[k] != '.')
            && p.len() == i + 3 && (p[i + 1] == 'm' || p[i + 1] == 'M') && (p[i + 2] == 'd' || p[i + 2]
            == 'D')
}

/// Whether a path names a Markdown file. Case-insensitive on the extension,
/// because `README.MD` is a Markdown file a reader would be surprised to see
/// skipped.
pub fn is_markdown(path: &str) -> (r: bool)
    ensures
        r == is_markdown_spec(path@),
{
    let p = chars_of(path);
    match crate::text::rfind_char(&p, '.') {
        None => false,
        Some(i) => {
            let r = p.len() - i == 3 && (p[i + 1] == 'm' || p[i + 1] == 'M') && (p[i + 2] == 'd' || p[i + 2] == 'D');
            proof {
                if !r {
                    assert forall|j: int|
                        0 <= j < p@.len() && #[trigger] p@[j] == '.' && (forall|k: int| j < k < p@.len() ==> p@[k] != '.') implies !(
                    p@.len() == j + 3 && (p@[j + 1] == 'm' || p@[j + 1] == 'M') && (p@[j + 2] == 'd' || p@[j + 2] == 'D')) by {
                        if j < i {
                            assert(p@[i as int] == '.');
                        }
                    }
                }
            }
            r
        },
    }
}

/// Whether a declared pattern or path is absolute or climbs out of the root.
pub open spec fn leaves_root_spec(p: Seq<char>) -> bool {
    (p.len() > 0 && p[0] == '/') || exists|j: int|
        0 <= j < split_spec(p, '/').len() && #[trigger] split_spec(p, '/')[j] == ".."@
}

pub fn leaves_root(pattern: &str) -> (r: bool)
    ensures
        r == leaves_root_spec(pattern@),
{
    let p = chars_of(pattern);
    if p.len() > 0 && p[0] == '/' {
        return true;
    }
    let segs = crate::text::split(&p, '/');
    let ghost sv = views(segs@);
    let mut j: usize = 0;
    while j < segs.len()
        invariant
            j <= segs.len(),
            sv == views(segs@),
            sv == split_spec(p@, '/'),
            p@ == pattern@,
            forall|k: int| 0 <= k < j ==> #[trigger] sv[k] != ".."@,
        decreases segs.len() - j,
    {
        if crate::text::is(&segs[j], "..") {
            assert(sv[j as int] == ".."@);
            return true;
        }
        j += 1;
    }
    false
}

/// Whether any directory on the way to a file is one the repository
/// excludes. The file's own name is never tested.
pub open spec fn excluded_spec(p: Seq<char>, excluded: Seq<Seq<char>>) -> bool {
    exists|j: int, k: int|
        0 <= j < split_spec(p, '/').len() - 1 && 0 <= k < excluded.len() && #[trigger] split_spec(p, '/')[j]
            == #[trigger] excluded[k]
}

pub fn is_excluded(path: &str, excluded: &[String]) -> (r: bool)
    ensures
        r == excluded_spec(path@, string_views(excluded@)),
{
    let p = chars_of(path);
    let segs = crate::text::split(&p, '/');
    let ghost sv = views(segs@);
    let ghost ev = string_views(excluded@);
    proof {
        crate::text::lemma_split_nonempty(p@, '/');
    }
    let mut j: usize = 0;
    while j + 1 < segs.len()
        invariant
            segs.len() >= 1,
            j < segs.len(),
            sv == views(segs@),
            sv == split_spec(p@, '/'),
            p@ == path@,
            ev == string_views(excluded@),
            forall|a: int, b: int| 0 <= a < j && 0 <= b < ev.len() ==> #[trigger] sv[a] != #[trigger] ev[b],
        decreases segs.len() - j,
    {
        let mut k: usize = 0;
        while k < excluded.len()
            invariant
                k <= excluded.len(),
                j + 1 < segs.len(),
                sv == views(segs@),
                sv == split_spec(p@, '/'),
                p@ == path@,
                ev == string_views(excluded@),
                forall|b: int| 0 <= b < k ==> sv[j as int] != #[trigger] ev[b],
            decreases excluded.len() - k,
        {
            let name = chars_of(excluded[k].as_str());
            if crate::text::same(&segs[j], &name) {
                assert(sv[j as int] == ev[k as int]);
                return true;
            }
            k += 1;
        }
        j += 1;
    }
    false
}

/// The listed paths that no excluded directory holds, in order.
pub open spec fn selected(listed: Seq<Seq<char>>, excluded: Seq<Seq<char>>, markdown_only: bool) -> Seq<Seq<char>>
    decreases listed.len(),
{
    if listed.len() == 0 {
        Seq::empty()
    } else {
        let rest = selected(listed.drop_last(), excluded, markdown_only);
        let p = listed.last();
        if (!markdown_only || is_markdown_spec(p)) && !excluded_spec(p, excluded) {
            rest.push(p)
        } else {
            rest
        }
    }
}

/// Selects from a listing the paths no excluded directory holds, and,
/// when asked, only the Markdown ones.
pub fn select(listed: &Vec<String>, excluded: &[String], markdown_only: bool) -> (r: Vec<String>)
    ensures
        string_views(r@) == selected(string_views(listed@), string_views(excluded@), markdown_only),
{
    let ghost lv = string_views(listed@);
    let mut r: Vec<String> = Vec::new();
    let mut i: usize = 0;
    while i < listed.len()
        invariant
            i <= listed.len(),
            lv == string_views(listed@),
            string_views(r@) == selected(lv.take(i as int), string_views(excluded@), markdown_only),
        decreases listed.len() - i,
    {
        assert(lv.take(i + 1).drop_last() =~= lv.take(i as int));
        assert(lv.take(i + 1).last() == listed@[i as int]@);
        let path = listed[i].as_str();
        if (!markdown_only || is_markdown(path)) && !is_excluded(path, excluded) {
            let s = path.to_string();
            let ghost before = string_views(r@);
            r.push(s);
            assert(string_views(r@) =~= before.push(s@));
        }
        i += 1;
    }
    assert(lv.take(listed.len() as int) =~= lv);
    r
}

/// Every path a validator may look at: what the tree lists, less what an
/// excluded directory holds.
pub fn files<T: Tree>(tree: &T, config: &Config) -> (r: Vec<String>)
    ensures
        exists|listed: Seq<Seq<char>>|
            tree.lists(listed) && string_views(r@) == #[trigger] selected(
                listed,
                string_views(crate::config::excluded_spec(*config)),
                false,
            ),
{
    let listed = tree.files();
    select(&listed, config.excluded(), false)
}

/// Every Markdown path a validator may look at.
pub fn markdown_files<T: Tree>(tree: &T, config: &Config) -> (r: Vec<String>)
    ensures
        exists|listed: Seq<Seq<char>>|
            tree.lists(listed) && string_views(r@) == #[trigger] selected(
                listed,
                string_views(crate::config::excluded_spec(*config)),
                true,
            ),
{
    let listed = tree.files();
    select(&listed, config.excluded(), true)
}

/// One Markdown file, read.
pub struct Document {
    pub path: String,
    pub text: String,
}

/// Every Markdown file a validator may look at, read once.
pub struct Corpus {
    documents: Vec<Document>,
}

pub open spec fn document_views(d: Seq<Document>) -> Seq<(Seq<char>, Seq<char>)> {
    Seq::new(d.len(), |i: int| (d[i].path@, d[i].text@))
}

pub open spec fn read_views(reads: Seq<(String, Result<String, TreeError>)>) -> Seq<(Seq<char>, Result<Seq<char>, crate::runtime::TreeFault>)> {
    Seq::new(reads.len(), |i: int| (reads[i].0@, crate::runtime::read_view(reads[i].1)))
}

/// What reading the selected paths gives: each text in order, skipping a
/// file that vanished, and refusing at the first that cannot be read or
/// holds no text.
pub open spec fn corpus_spec(reads: Seq<(Seq<char>, Result<Seq<char>, crate::runtime::TreeFault>)>) -> Result<Seq<(Seq<char>, Seq<char>)>, Seq<char>>
    decreases reads.len(),
{
    if reads.len() == 0 {
        Ok(Seq::empty())
    } else {
        let (path, read) = reads[0];
        match read {
            Err(crate::runtime::TreeFault::Unreadable(reason)) => Err(path + ": "@ + reason),
            Err(crate::runtime::TreeFault::NotText) => Err(path + ": holds no text"@),
            Err(crate::runtime::TreeFault::NotFound) => corpus_spec(reads.drop_first()),
            Ok(text) => match corpus_spec(reads.drop_first()) {
                Ok(rest) => Ok(seq![(path, text)] + rest),
                Err(e) => Err(e),
            },
        }
    }
}

/// Whether `reads` are the tree's answers to reading the Markdown paths
/// selected from its listing `listed`, in that order.
pub open spec fn corpus_of<T: Tree>(
    tree: T,
    config: Config,
    listed: Seq<Seq<char>>,
    reads: Seq<(Seq<char>, Result<Seq<char>, crate::runtime::TreeFault>)>,
) -> bool {
    &&& tree.lists(listed)
    &&& Seq::new(reads.len(), |i: int| reads[i].0) == selected(listed, string_views(crate::config::excluded_spec(config)), true)
    &&& forall|i: int| 0 <= i < reads.len() ==> tree.reads_as((#[trigger] reads[i]).0, reads[i].1)
}

impl Corpus {
    pub closed spec fn view_documents(&self) -> Seq<(Seq<char>, Seq<char>)> {
        document_views(self.documents@)
    }

    /// Builds a corpus from what reading each selected path gave back.
    pub fn from_reads(reads: Vec<(String, Result<String, TreeError>)>) -> (r: Result<Corpus, String>)
        ensures
            match r {
                Ok(c) => corpus_spec(read_views(reads@)) == Ok::<Seq<(Seq<char>, Seq<char>)>, Seq<char>>(c.view_documents()),
                Err(e) => corpus_spec(read_views(reads@)) == Err::<Seq<(Seq<char>, Seq<char>)>, Seq<char>>(e@),
            },
    {
        let ghost rv = read_views(reads@);
        let mut documents: Vec<Document> = Vec::new();
        let mut i: usize = 0;
        let n = reads.len();
        assert(rv.skip(0) =~= rv);
        while i < n
            invariant
                i <= n,
                n == reads.len(),
                rv == read_views(reads@),
                corpus_spec(rv) == match corpus_spec(rv.skip(i as int)) {
                    Ok(rest) => Ok(document_views(documents@) + rest),
                    Err(e) => Err::<Seq<(Seq<char>, Seq<char>)>, Seq<char>>(e),
                },
            decreases n - i,
        {
            assert(rv.skip(i as int)[0] == rv[i as int]);
            assert(rv.skip(i as int).drop_first() =~= rv.skip(i + 1));
            let path = reads[i].0.clone();
            assert(path@ == rv[i as int].0);
            match &reads[i].1 {
                Ok(text) => {
                    let ghost before = document_views(documents@);
                    let t = text.clone();
                    documents.push(Document { path, text: t });
                    assert(document_views(documents@) =~= before.push((rv[i as int].0, t@)));
                    proof {
                        match corpus_spec(rv.skip(i + 1)) {
                            Ok(rest) => {
                                assert(before + (seq![(rv[i as int].0, t@)] + rest) =~= before.push((rv[i as int].0, t@)) + rest);
                            },
                            Err(_) => {},
                        }
                    }
                },
                Err(TreeError::NotFound) => {},
                Err(TreeError::Unreadable(reason)) => {
                    let mut m = chars_of(path.as_str());
                    extend_str(&mut m, ": ");
                    extend_str(&mut m, reason.as_str());
                    assert(rv[i as int].1 == Err::<Seq<char>, crate::runtime::TreeFault>(crate::runtime::TreeFault::Unreadable(reason@)));
                    assert(corpus_spec(rv.skip(i as int)) == Err::<Seq<(Seq<char>, Seq<char>)>, Seq<char>>(m@));
                    return Err(string_of(&m));
                },
                Err(TreeError::NotText) => {
                    let mut m = chars_of(path.as_str());
                    extend_str(&mut m, ": holds no text");
                    assert(rv[i as int].1 == Err::<Seq<char>, crate::runtime::TreeFault>(crate::runtime::TreeFault::NotText));
                    assert(corpus_spec(rv.skip(i as int)) == Err::<Seq<(Seq<char>, Seq<char>)>, Seq<char>>(m@));
                    return Err(string_of(&m));
                },
            }
            i += 1;
        }
        assert(rv.skip(n as int) =~= Seq::<(Seq<char>, Result<Seq<char>, crate::runtime::TreeFault>)>::empty());
        assert(document_views(documents@) + Seq::<(Seq<char>, Seq<char>)>::empty() =~= document_views(documents@));
        Ok(Corpus { documents })
    }

    /// Read the repository's Markdown, in the order the tree lists it.
    pub fn read<T: Tree>(tree: &T, config: &Config) -> (r: Result<Corpus, String>)
        ensures
            exists|listed: Seq<Seq<char>>, reads: Seq<(Seq<char>, Result<Seq<char>, crate::runtime::TreeFault>)>|
                #[trigger] corpus_of(*tree, *config, listed, reads) && match r {
                    Ok(c) => corpus_spec(reads) == Ok::<Seq<(Seq<char>, Seq<char>)>, Seq<char>>(c.view_documents()),
                    Err(e) => corpus_spec(reads) == Err::<Seq<(Seq<char>, Seq<char>)>, Seq<char>>(e@),
                },
    {
        let paths = markdown_files(tree, config);
        let ghost pv = string_views(paths@);
        let ghost listed = choose|listed: Seq<Seq<char>>|
            tree.lists(listed) && pv == #[trigger] selected(listed, string_views(crate::config::excluded_spec(*config)), true);
        let mut reads: Vec<(String, Result<String, TreeError>)> = Vec::new();
        let mut i: usize = 0;
        while i < paths.len()
            invariant
                i <= paths.len(),
                pv == string_views(paths@),
                reads.len() == i,
                forall|k: int| 0 <= k < i ==> (#[trigger] reads@[k]).0@ == pv[k],
                forall|k: int|
                    0 <= k < i ==> tree.reads_as((#[trigger] reads@[k]).0@, crate::runtime::read_view(reads@[k].1)),
            decreases paths.len() - i,
        {
            let text = tree.read(paths[i].as_str());
            let ghost before = reads@;
            reads.push((paths[i].clone(), text));
            assert(forall|k: int| 0 <= k < i ==> reads@[k] == before[k]);
            i += 1;
        }
        let ghost rv = read_views(reads@);
        assert(Seq::new(rv.len(), |k: int| rv[k].0) =~= pv);
        assert(forall|k: int| 0 <= k < rv.len() ==> tree.reads_as((#[trigger] rv[k]).0, rv[k].1)) by {
            assert forall|k: int| 0 <= k < rv.len() implies tree.reads_as((#[trigger] rv[k]).0, rv[k].1) by {
                assert(rv[k] == (reads@[k].0@, crate::runtime::read_view(reads@[k].1)));
            }
        }
        assert(corpus_of(*tree, *config, listed, rv));
        let r = Corpus::from_reads(reads);
        assert(match r {
            Ok(c) => corpus_spec(rv) == Ok::<Seq<(Seq<char>, Seq<char>)>, Seq<char>>(c.view_documents()),
            Err(e) => corpus_spec(rv) == Err::<Seq<(Seq<char>, Seq<char>)>, Seq<char>>(e@),
        });
        r
    }

    /// The documents, owned.
    pub fn into_documents(self) -> (r: Vec<Document>)
        ensures
            document_views(r@) == self.view_documents(),
    {
        self.documents
    }

    pub fn documents(&self) -> (r: &[Document])
        ensures
            document_views(r@) == self.view_documents(),
    {
        self.documents.as_slice()
    }
}

/// The file a directory documents itself in.
pub const README: &'static str = "README.md";

/// The path a document read from standard input is reported under.
pub const STDIN: &'static str = "-";

/// What an invocation narrowed itself to.
#[derive(Debug, Clone, Default)]
pub struct Scope {
    /// Paths given with `--file`. `-` stands for standard input.
    pub files: Vec<String>,
    pub directory: Option<String>,
    /// What `--file -` should read, when a caller supplied it.
    pub stdin: Option<String>,
}

/// Why a selected path yielded no document.
#[derive(Debug, Clone, Copy, PartialEq, Eq, Structural)]
pub enum Unselectable {
    /// The path passes through a filesystem link, which RHINO never follows.
    Escapes,
    /// The path names no file.
    Missing,
    /// The path names a file that could not be read.
    Unreadable,
}

/// What one selected path gave.
pub open spec fn selection_view(r: Result<String, Unselectable>) -> Result<Seq<char>, Unselectable> {
    match r {
        Ok(t) => Ok(t@),
        Err(u) => Err(u),
    }
}

/// What a read of a selected path means for the selection.
pub open spec fn unselectable_for(r: Result<Seq<char>, crate::runtime::TreeFault>) -> Result<Seq<char>, Unselectable> {
    match r {
        Ok(t) => Ok(t),
        Err(crate::runtime::TreeFault::NotFound) => Err(Unselectable::Missing),
        Err(_) => Err(Unselectable::Unreadable),
    }
}

/// Whether `selection` is what a scope's own choices fix of its documents:
/// one entry per selected path, in order, and for standard input what the
/// caller supplied. What any other path gave is the tree's answer.
pub open spec fn fits_scope<T: Tree>(tree: T, scope: Scope, selection: Seq<(Seq<char>, Result<Seq<char>, Unselectable>)>) -> bool {
    &&& selection.len() == scope.files@.len()
    &&& forall|i: int|
        0 <= i < selection.len() ==> (#[trigger] selection[i]).0 == scope.files@[i]@ && (scope.files@[i]@ == STDIN@
            ==> selection[i].1 == match scope.stdin {
            Some(s) => Ok::<Seq<char>, Unselectable>(s@),
            None => Err(Unselectable::Unreadable),
        }) && (scope.files@[i]@ != STDIN@ ==> exists|read: Result<Seq<char>, crate::runtime::TreeFault>|
            #[trigger] tree.reads_as(scope.files@[i]@, read) && selection[i].1 == unselectable_for(read))
}

/// A selection as plain values.
pub open spec fn selection_views(r: Seq<(String, Result<String, Unselectable>)>) -> Seq<(Seq<char>, Result<Seq<char>, Unselectable>)> {
    Seq::new(r.len(), |i: int| (r[i].0@, selection_view(r[i].1)))
}

impl Scope {
    pub fn is_narrowed(&self) -> (r: bool)
        ensures
            r == (self.files.len() > 0),
    {
        self.files.len() > 0
    }

    /// The documents this scope selects, in the order they were given. A
    /// path that cannot be read is returned with the reason, not skipped:
    /// standard input stands for itself and reads what the caller supplied,
    /// and any other path is read from the tree.
    pub fn documents<T: Tree>(&self, tree: &T) -> (r: Vec<(String, Result<String, Unselectable>)>)
        ensures
            r.len() == self.files.len(),
            forall|i: int|
                0 <= i < r.len() ==> (#[trigger] r@[i]).0@ == self.files@[i]@ && (self.files@[i]@ == STDIN@ ==> selection_view(
                    r@[i].1,
                ) == match self.stdin {
                    Some(s) => Ok::<Seq<char>, Unselectable>(s@),
                    None => Err(Unselectable::Unreadable),
                }) && (self.files@[i]@ != STDIN@ ==> exists|read: Result<Seq<char>, crate::runtime::TreeFault>|
                    #[trigger] tree.reads_as(self.files@[i]@, read) && selection_view(r@[i].1) == unselectable_for(read)),
    {
        let mut r: Vec<(String, Result<String, Unselectable>)> = Vec::new();
        let mut i: usize = 0;
        while i < self.files.len()
            invariant
                i <= self.files.len(),
                r.len() == i,
                forall|j: int|
                    0 <= j < i ==> (#[trigger] r@[j]).0@ == self.files@[j]@ && (self.files@[j]@ == STDIN@ ==> selection_view(
                        r@[j].1,
                    ) == match self.stdin {
                        Some(s) => Ok::<Seq<char>, Unselectable>(s@),
                        None => Err(Unselectable::Unreadable),
                    }) && (self.files@[j]@ != STDIN@ ==> exists|read: Result<Seq<char>, crate::runtime::TreeFault>|
                        #[trigger] tree.reads_as(self.files@[j]@, read) && selection_view(r@[j].1) == unselectable_for(read)),
            decreases self.files.len() - i,
        {
            let path = self.files[i].clone();
            let p = chars_of(path.as_str());
            if crate::text::is(&p, STDIN) {
                let text = match &self.stdin {
                    Some(s) => Ok(s.clone()),
                    None => Err(Unselectable::Unreadable),
                };
                r.push((path, text));
            } else {
                let read = tree.read(path.as_str());
                let ghost rv = crate::runtime::read_view(read);
                let text = match read {
                    Ok(t) => Ok(t),
                    Err(TreeError::NotFound) => Err(Unselectable::Missing),
                    Err(_) => Err(Unselectable::Unreadable),
                };
                assert(selection_view(text) == unselectable_for(rv));
                assert(tree.reads_as(path@, rv));
                r.push((path, text));
            }
            i += 1;
        }
        r
    }
}

} // verus!

verus! {

/// The message `globset` gives for a pattern it cannot compile as a
/// case-insensitive glob, or cannot build a one-glob set from, or `None` when
/// both succeed.
pub uninterp spec fn glob_error(pattern: Seq<char>) -> Option<Seq<char>>;

/// Whether the one-glob set `globset` builds from a case-insensitive
/// pattern matches a path.
pub uninterp spec fn glob_match(pattern: Seq<char>, path: Seq<char>) -> bool;

/// Compiles a pattern with `globset::GlobBuilder`, case-insensitively, and
/// then into a `globset::GlobSet` of that one glob, which is where the regex
/// behind it is built and held to `globset`'s size limit. Hands back the
/// error's message when either step refuses; the message is named
/// `glob_error` of the pattern.
#[verifier::external_body]
fn glob_build_error(pattern: &str) -> (r: Option<String>)
    ensures
        match r {
            Some(m) => glob_error(pattern@) == Some(m@),
            None => glob_error(pattern@) is None,
        },
{
    match globset::GlobBuilder::new(pattern).case_insensitive(true).build() {
        Ok(glob) => match globset::GlobSetBuilder::new().add(glob).build() {
            Ok(_) => None,
            Err(error) => Some(error.to_string()),
        },
        Err(error) => Some(error.to_string()),
    }
}

/// Whether the one-glob `globset::GlobSet` built from a case-insensitive
/// pattern matches a path, as `GlobSet::is_match` answers. Named
/// `glob_match`. Only called on a pattern whose set was built (the
/// `requires`), so no regex is compiled here that could exceed the limit.
#[verifier::external_body]
fn glob_is_match(pattern: &str, path: &str) -> (r: bool)
    requires
        glob_error(pattern@) is None,
    ensures
        r == glob_match(pattern@, path@),
{
    match globset::GlobBuilder::new(pattern).case_insensitive(true).build() {
        Ok(glob) => match globset::GlobSetBuilder::new().add(glob).build() {
            Ok(set) => set.is_match(path),
            Err(_) => false,
        },
        Err(_) => false,
    }
}

/// The first reason one of a declared list of globs cannot be used: it
/// leaves the root, or it does not compile.
pub open spec fn pattern_failure(key: Seq<char>, ps: Seq<Seq<char>>) -> Option<Seq<char>>
    decreases ps.len(),
{
    if ps.len() == 0 {
        None
    } else if leaves_root_spec(ps[0]) {
        Some(key + ": `"@ + ps[0] + "` must be relative to the repository root"@)
    } else {
        match glob_error(ps[0]) {
            Some(e) => Some(key + ": `"@ + ps[0] + "`: "@ + e),
            None => pattern_failure(key, ps.drop_first()),
        }
    }
}

/// The reason a declared list of globs cannot be used: the first pattern
/// that cannot, or else the set of them all failing to build.
pub open spec fn glob_failure(key: Seq<char>, ps: Seq<Seq<char>>) -> Option<Seq<char>> {
    match pattern_failure(key, ps) {
        Some(m) => Some(m),
        None => match set_error(ps) {
            Some(e) => Some(key + ": "@ + e),
            None => None,
        },
    }
}

#[verifier::external_type_specification]
#[verifier::external_body]
pub struct ExGlobSetBuilder(globset::GlobSetBuilder);

/// The patterns a `globset::GlobSetBuilder` holds, in the order added.
pub uninterp spec fn builder_patterns(b: globset::GlobSetBuilder) -> Seq<Seq<char>>;

/// The message `globset` gives when the set of these case-insensitive
/// globs cannot be built, or `None` when it can.
pub uninterp spec fn set_error(patterns: Seq<Seq<char>>) -> Option<Seq<char>>;

/// `globset::GlobSetBuilder::new`: a builder holding no pattern.
#[verifier::external_body]
fn set_builder() -> (r: globset::GlobSetBuilder)
    ensures
        builder_patterns(r) == Seq::<Seq<char>>::empty(),
{
    globset::GlobSetBuilder::new()
}

/// `globset::GlobSetBuilder::add` of a pattern compiled case-insensitively
/// by `globset::GlobBuilder`; the pattern is one that compiles, so it is
/// added.
#[verifier::external_body]
fn add_to_set(b: &mut globset::GlobSetBuilder, pattern: &str)
    requires
        glob_error(pattern@) is None,
    ensures
        builder_patterns(*final(b)) == builder_patterns(*old(b)).push(pattern@),
{
    if let Ok(glob) = globset::GlobBuilder::new(pattern).case_insensitive(true).build() {
        b.add(glob);
    }
}

/// `globset::GlobSetBuilder::build`, handing back the error's message when
/// the set cannot be built; named `set_error` of the patterns it holds.
#[verifier::external_body]
fn set_build_error(b: &globset::GlobSetBuilder) -> (r: Option<String>)
    ensures
        match r {
            Some(m) => set_error(builder_patterns(*b)) == Some(m@),
            None => set_error(builder_patterns(*b)) is None,
        },
{
    match b.build() {
        Ok(_) => None,
        Err(error) => Some(error.to_string()),
    }
}

/// A compiled list of globs.
pub struct Globs {
    patterns: Vec<String>,
}

impl Globs {
    #[verifier::type_invariant]
    closed spec fn compiles(self) -> bool {
        forall|i: int| 0 <= i < self.patterns@.len() ==> glob_error(#[trigger] self.patterns@[i]@) is None
    }

    pub closed spec fn patterns(self) -> Seq<Seq<char>> {
        string_views(self.patterns@)
    }

    /// Whether any glob matches a path.
    pub fn is_match(&self, path: &str) -> (r: bool)
        ensures
            r == exists|i: int| 0 <= i < self.patterns().len() && glob_match(#[trigger] self.patterns()[i], path@),
    {
        proof {
            use_type_invariant(self);
        }
        let mut i: usize = 0;
        while i < self.patterns.len()
            invariant
                i <= self.patterns.len(),
                forall|j: int| 0 <= j < self.patterns@.len() ==> glob_error(#[trigger] self.patterns@[j]@) is None,
                forall|j: int| 0 <= j < i ==> !glob_match(#[trigger] self.patterns()[j], path@),
            decreases self.patterns.len() - i,
        {
            assert(self.patterns()[i as int] == self.patterns@[i as int]@);
            if glob_is_match(self.patterns[i].as_str(), path) {
                return true;
            }
            i += 1;
        }
        false
    }

    /// The last glob that matches a path.
    pub fn last_match(&self, path: &str) -> (r: Option<usize>)
        ensures
            match r {
                Some(i) => i < self.patterns().len() && glob_match(self.patterns()[i as int], path@) && forall|j: int|
                    i < j < self.patterns().len() ==> !glob_match(#[trigger] self.patterns()[j], path@),
                None => forall|j: int| 0 <= j < self.patterns().len() ==> !glob_match(#[trigger] self.patterns()[j], path@),
            },
    {
        proof {
            use_type_invariant(self);
        }
        let mut i: usize = self.patterns.len();
        while i > 0
            invariant
                i <= self.patterns.len(),
                forall|j: int| 0 <= j < self.patterns@.len() ==> glob_error(#[trigger] self.patterns@[j]@) is None,
                forall|j: int| i <= j < self.patterns().len() ==> !glob_match(#[trigger] self.patterns()[j], path@),
            decreases i,
        {
            assert(self.patterns()[i - 1] == self.patterns@[i - 1]@);
            if glob_is_match(self.patterns[i - 1].as_str(), path) {
                return Some(i - 1);
            }
            i -= 1;
        }
        None
    }
}

/// Compile a declared list of globs, naming the configuration key in any
/// failure so a bad pattern is a configuration fault a reader can locate.
/// Matching is case-insensitive.
pub fn glob_set(key: &str, patterns: &[&str]) -> (r: Result<Globs, String>)
    ensures
        match r {
            Ok(g) => glob_failure(key@, crate::cli::str_views(patterns@)) is None && g.patterns() == crate::cli::str_views(
                patterns@,
            ),
            Err(m) => glob_failure(key@, crate::cli::str_views(patterns@)) == Some(m@),
        },
{
    let ghost pv = crate::cli::str_views(patterns@);
    let mut kept: Vec<String> = Vec::new();
    let mut builder = set_builder();
    let mut i: usize = 0;
    assert(pv.skip(0) =~= pv);
    assert(pv.take(0) =~= Seq::<Seq<char>>::empty());
    while i < patterns.len()
        invariant
            i <= patterns.len(),
            pv == crate::cli::str_views(patterns@),
            pattern_failure(key@, pv) == pattern_failure(key@, pv.skip(i as int)),
            builder_patterns(builder) == pv.take(i as int),
            string_views(kept@) == pv.take(i as int),
            forall|j: int| 0 <= j < kept@.len() ==> glob_error(#[trigger] kept@[j]@) is None,
        decreases patterns.len() - i,
    {
        let pattern = patterns[i];
        assert(pv.skip(i as int)[0] == pattern@);
        assert(pv.skip(i as int).drop_first() =~= pv.skip(i + 1));
        if leaves_root(pattern) {
            let mut m = chars_of(key);
            extend_str(&mut m, ": `");
            extend_str(&mut m, pattern);
            extend_str(&mut m, "` must be relative to the repository root");
            return Err(string_of(&m));
        }
        match glob_build_error(pattern) {
            Some(e) => {
                let mut m = chars_of(key);
                extend_str(&mut m, ": `");
                extend_str(&mut m, pattern);
                extend_str(&mut m, "`: ");
                extend_str(&mut m, e.as_str());
                return Err(string_of(&m));
            },
            None => {},
        }
        add_to_set(&mut builder, pattern);
        let s = pattern.to_string();
        let ghost before = string_views(kept@);
        kept.push(s);
        assert(string_views(kept@) =~= before.push(s@));
        assert(pv.take(i + 1) =~= pv.take(i as int).push(pv[i as int]));
        i += 1;
    }
    assert(pv.take(patterns.len() as int) =~= pv);
    assert(pv.skip(patterns.len() as int) =~= Seq::<Seq<char>>::empty());
    match set_build_error(&builder) {
        Some(e) => {
            let mut m = chars_of(key);
            extend_str(&mut m, ": ");
            extend_str(&mut m, e.as_str());
            Err(string_of(&m))
        },
        None => Ok(Globs { patterns: kept }),
    }
}

/// An ordered list of declared surface globs, where the last matching entry
/// governs a file.
pub struct Surfaces {
    globs: Globs,
}

impl Surfaces {
    pub closed spec fn patterns(self) -> Seq<Seq<char>> {
        self.globs.patterns()
    }

    pub fn compile(key: &str, globs: &[&str]) -> (r: Result<Surfaces, String>)
        ensures
            match r {
                Ok(s) => glob_failure(key@, crate::cli::str_views(globs@)) is None && s.patterns() == crate::cli::str_views(globs@),
                Err(m) => glob_failure(key@, crate::cli::str_views(globs@)) == Some(m@),
            },
    {
        match glob_set(key, globs) {
            Ok(g) => Ok(Surfaces { globs: g }),
            Err(m) => Err(m),
        }
    }

    /// The index of the surface that governs a path: the last that matches.
    pub fn governing(&self, path: &str) -> (r: Option<usize>)
        ensures
            match r {
                Some(i) => i < self.patterns().len() && glob_match(self.patterns()[i as int], path@) && forall|j: int|
                    i < j < self.patterns().len() ==> !glob_match(#[trigger] self.patterns()[j], path@),
                None => forall|j: int| 0 <= j < self.patterns().len() ==> !glob_match(#[trigger] self.patterns()[j], path@),
            },
    {
        self.globs.last_match(path)
    }
}

} // verus!

verus! {

/// How many times `/` occurs in a text.
pub open spec fn slash_count(s: Seq<char>) -> nat
    decreases s.len(),
{
    if s.len() == 0 {
        0
    } else if s.last() == '/' {
        slash_count(s.drop_last()) + 1
    } else {
        slash_count(s.drop_last())
    }
}

/// The prefix a file under `root` starts with: the root without trailing
/// separators, then one.
pub open spec fn dir_prefix(root: Seq<char>) -> Seq<char> {
    crate::text::strip_trail(root, '/').push('/')
}

/// The directories a path lies in that are at least `depth` segments deep:
/// for each `k` from `depth` up to, but not including, its number of
/// segments, its first `k` segments joined by `/`.
pub open spec fn dirs_of(path: Seq<char>, depth: nat) -> Set<Seq<char>> {
    let segments = crate::text::split_spec(path, '/');
    Set::new(
        |d: Seq<char>|
            exists|k: int| depth <= k < segments.len() && d == #[trigger] crate::text::join_spec(segments.take(k), "/"@),
    )
}

/// Every directory at or under `root` that holds a listed file the
/// repository does not exclude.
pub open spec fn walked_dirs(listed: Seq<Seq<char>>, excluded: Seq<Seq<char>>, root: Seq<char>) -> Set<Seq<char>> {
    Set::new(
        |d: Seq<char>|
            exists|i: int|
                0 <= i < listed.len() && dir_prefix(root).is_prefix_of(listed[i]) && !excluded_spec(listed[i], excluded)
                    && #[trigger] dirs_of(listed[i], slash_count(dir_prefix(root))).contains(d),
    )
}

fn slashes(v: &Vec<char>) -> (n: usize)
    ensures
        n == slash_count(v@),
{
    let mut n: usize = 0;
    let mut i: usize = 0;
    while i < v.len()
        invariant
            i <= v.len(),
            n == slash_count(v@.take(i as int)),
            n <= i,
        decreases v.len() - i,
    {
        assert(v@.take(i + 1).drop_last() =~= v@.take(i as int));
        if v[i] == '/' {
            n += 1;
        }
        i += 1;
    }
    assert(v@.take(v.len() as int) =~= v@);
    n
}

fn first(parts: &Vec<Vec<char>>, k: usize) -> (r: Vec<Vec<char>>)
    requires
        k <= parts.len(),
    ensures
        crate::text::views(r@) == crate::text::views(parts@).take(k as int),
{
    let mut r: Vec<Vec<char>> = Vec::new();
    let mut i: usize = 0;
    while i < k
        invariant
            i <= k,
            k <= parts.len(),
            crate::text::views(r@) == crate::text::views(parts@).take(i as int),
        decreases k - i,
    {
        let ghost before = crate::text::views(r@);
        let piece = crate::text::slice(&parts[i], 0, parts[i].len());
        assert(piece@ =~= parts@[i as int]@);
        r.push(piece);
        assert(crate::text::views(r@) =~= before.push(parts@[i as int]@));
        assert(crate::text::views(r@) =~= crate::text::views(parts@).take(i + 1));
        i += 1;
    }
    r
}

/// Every directory at or under a tree, in path order, each once. Derived
/// from the files, so a directory that holds nothing is not one.
pub fn directories<T: Tree>(tree: &T, config: &Config, root: &str) -> (r: Vec<String>)
    ensures
        crate::text::strictly_sorted(string_views(r@)),
        exists|listed: Seq<Seq<char>>|
            tree.lists(listed) && string_views(r@).to_set() == #[trigger] walked_dirs(
                listed,
                string_views(crate::config::excluded_spec(*config)),
                root@,
            ),
{
    let mut prefix = crate::text::trim_end_char(&chars_of(root), '/');
    let ghost stripped = prefix@;
    prefix.push('/');
    assert(prefix@ == dir_prefix(root@));
    let depth = slashes(&prefix);
    assert(prefix@.drop_last() =~= stripped);
    let listed = tree.files();
    let ghost lv = string_views(listed@);
    let ghost ev = string_views(crate::config::excluded_spec(*config));
    let mut found: Vec<Vec<char>> = Vec::new();
    let mut i: usize = 0;
    assert(crate::text::views(found@).to_set() =~= walked_dirs(lv.take(0), ev, root@));
    while i < listed.len()
        invariant
            i <= listed.len(),
            lv == string_views(listed@),
            ev == string_views(crate::config::excluded_spec(*config)),
            prefix@ == dir_prefix(root@),
            depth == slash_count(dir_prefix(root@)),
            depth >= 1,
            crate::text::strictly_sorted(crate::text::views(found@)),
            crate::text::views(found@).to_set() == walked_dirs(lv.take(i as int), ev, root@),
        decreases listed.len() - i,
    {
        let path = chars_of(listed[i].as_str());
        let ghost p = lv[i as int];
        assert(path@ == p);
        let ghost done = walked_dirs(lv.take(i as int), ev, root@);
        let ghost next = walked_dirs(lv.take(i + 1), ev, root@);
        if crate::text::starts_with(&path, &prefix) && !is_excluded(listed[i].as_str(), config.excluded()) {
            let segments = crate::text::split(&path, '/');
            proof {
                crate::text::lemma_split_nonempty(p, '/');
            }
            let ghost sv = crate::text::views(segments@);
            let mut k: usize = segments.len() - 1;
            let sep = chars_of("/");
            while k >= depth
                invariant
                    depth >= 1,
                    k < segments.len(),
                    sv == crate::text::views(segments@),
                    sv == crate::text::split_spec(p, '/'),
                    sep@ == "/"@,
                    crate::text::strictly_sorted(crate::text::views(found@)),
                    crate::text::views(found@).to_set() == done.union(
                        Set::new(
                            |d: Seq<char>|
                                exists|j: int| k < j < sv.len() && depth <= j && d == #[trigger] crate::text::join_spec(sv.take(j), "/"@),
                        ),
                    ),
                decreases k,
            {
                let part = first(&segments, k);
                let dir = crate::text::join(&part, &sep);
                let ghost before = crate::text::views(found@).to_set();
                crate::text::insert_sorted(&mut found, dir);
                let ghost after = Set::new(
                    |d: Seq<char>|
                        exists|j: int| (k - 1) < j < sv.len() && depth <= j && d == #[trigger] crate::text::join_spec(sv.take(j), "/"@),
                );
                assert(crate::text::views(found@).to_set() =~= done.union(after)) by {
                    assert forall|d: Seq<char>| #[trigger] after.contains(d) implies crate::text::views(found@).to_set().contains(d) by {
                        let j = choose|j: int| (k - 1) < j < sv.len() && depth <= j && d == #[trigger] crate::text::join_spec(sv.take(j), "/"@);
                        if j > k {
                            assert(before.contains(d));
                        }
                    }
                }
                k -= 1;
            }
            assert(crate::text::views(found@).to_set() =~= next) by {
                assert(lv.take(i + 1)[i as int] == p);
                assert forall|d: Seq<char>| #[trigger] next.contains(d) implies crate::text::views(found@).to_set().contains(d) by {
                    let w = choose|w: int|
                        0 <= w < lv.take(i + 1).len() && dir_prefix(root@).is_prefix_of(lv.take(i + 1)[w]) && !excluded_spec(lv.take(i + 1)[w], ev)
                            && #[trigger] dirs_of(lv.take(i + 1)[w], slash_count(dir_prefix(root@))).contains(d);
                    if w < i {
                        assert(lv.take(i as int)[w] == lv.take(i + 1)[w]);
                        assert(done.contains(d));
                    } else {
                        let j = choose|j: int| depth <= j < sv.len() && d == #[trigger] crate::text::join_spec(sv.take(j), "/"@);
                        assert(k < j);
                    }
                }
                assert forall|d: Seq<char>| #[trigger] crate::text::views(found@).to_set().contains(d) implies next.contains(d) by {
                    if done.contains(d) {
                        let w = choose|w: int|
                            0 <= w < lv.take(i as int).len() && dir_prefix(root@).is_prefix_of(lv.take(i as int)[w]) && !excluded_spec(lv.take(i as int)[w], ev)
                                && #[trigger] dirs_of(lv.take(i as int)[w], slash_count(dir_prefix(root@))).contains(d);
                        assert(lv.take(i + 1)[w] == lv.take(i as int)[w]);
                    } else {
                        let j = choose|j: int| k < j < sv.len() && depth <= j && d == #[trigger] crate::text::join_spec(sv.take(j), "/"@);
                        assert(dirs_of(p, depth as nat).contains(d));
                    }
                }
            }
        } else {
            assert(done =~= next) by {
                assert forall|d: Seq<char>| #[trigger] next.contains(d) implies done.contains(d) by {
                    let w = choose|w: int|
                        0 <= w < lv.take(i + 1).len() && dir_prefix(root@).is_prefix_of(lv.take(i + 1)[w]) && !excluded_spec(lv.take(i + 1)[w], ev)
                            && #[trigger] dirs_of(lv.take(i + 1)[w], slash_count(dir_prefix(root@))).contains(d);
                    assert(w < i);
                    assert(lv.take(i as int)[w] == lv.take(i + 1)[w]);
                }
                assert forall|d: Seq<char>| #[trigger] done.contains(d) implies next.contains(d) by {
                    let w = choose|w: int|
                        0 <= w < lv.take(i as int).len() && dir_prefix(root@).is_prefix_of(lv.take(i as int)[w]) && !excluded_spec(lv.take(i as int)[w], ev)
                            && #[trigger] dirs_of(lv.take(i as int)[w], slash_count(dir_prefix(root@))).contains(d);
                    assert(lv.take(i + 1)[w] == lv.take(i as int)[w]);
                }
            }
        }
        i += 1;
    }
    assert(lv.take(listed.len() as int) =~= lv);
    let mut r: Vec<String> = Vec::new();
    let mut m: usize = 0;
    while m < found.len()
        invariant
            m <= found.len(),
            string_views(r@) == crate::text::views(found@).take(m as int),
        decreases found.len() - m,
    {
        let ghost before = string_views(r@);
        let text = string_of(&found[m]);
        r.push(text);
        assert(string_views(r@) =~= before.push(found@[m as int]@));
        assert(string_views(r@) =~= crate::text::views(found@).take(m + 1));
        m += 1;
    }
    assert(crate::text::views(found@).take(found.len() as int) =~= crate::text::views(found@));
    r
}

} // verus!
