//! The filesystem boundary, and the narrow capabilities an invocation may hold.
//!
//! Every validator reaches files through [`Tree`] rather than through a
//! filesystem, which is what lets the behaviour corpus run against an
//! in-memory tree. It is also where the read-only constraint is held: the
//! trait exposes no write, so a validator holding a tree cannot modify the
//! repository it is inspecting even by mistake.
use crate::text::{
    chars_of, extend, extend_str, join_spec, split_spec, string_of, strictly_sorted, trim_char_spec,
    views,
};
use std::collections::BTreeMap;
use vstd::prelude::*;

verus! {

#[derive(Debug, Clone, PartialEq, Eq)]
pub enum TreeError {
    NotFound,
    Unreadable(String),
    /// The file opened and holds no text.
    ///
    /// A separate kind from `Unreadable` because the two oblige different
    /// answers: a file that could not be opened might have held anything,
    /// while one that opened and holds bytes is simply not what any rule
    /// here is about.
    NotText,
}

/// A tree error as plain values.
pub ghost enum TreeFault {
    NotFound,
    Unreadable(Seq<char>),
    NotText,
}

impl View for TreeError {
    type V = TreeFault;

    open spec fn view(&self) -> TreeFault {
        match self {
            TreeError::NotFound => TreeFault::NotFound,
            TreeError::Unreadable(r) => TreeFault::Unreadable(r@),
            TreeError::NotText => TreeFault::NotText,
        }
    }
}

/// What one gate child was asked to do. Every field is stated by the runner
/// rather than inherited from the process RHINO was started in.
pub struct Launch<'a> {
    /// The declared vector with the hook's own arguments appended; the first
    /// value is the executable, and there is no shell.
    pub arguments: &'a [String],
    /// The repository root, which is the child's working directory.
    pub directory: &'a str,
    /// The one environment variable RHINO sets.
    pub surface: &'a str,
    /// The hook's own standard input, forwarded unmodified.
    pub stdin: Option<&'a str>,
    /// Declared gate projections only, already resolved.
    pub environment: &'a BTreeMap<String, String>,
}

/// How a child ended. Only the code is kept.
pub struct Launched {
    pub code: i32,
}

/// Why a child never ran, in the only three shapes a caller can act on.
#[derive(Debug, Clone, Copy, PartialEq, Eq, Structural)]
pub enum LaunchFailure {
    /// The named program does not exist.
    NotFound,
    /// The program exists and could not be executed.
    NotExecutable,
    /// Anything else: refused before the attempt, or lost after it.
    Refused,
}

/// Why a child never ran.
pub struct LaunchError {
    pub reason: String,
    pub failure: LaunchFailure,
}

impl LaunchError {
    /// A refusal that is neither an absent program nor an unusable one.
    pub fn refused(reason: &str) -> (r: LaunchError)
        ensures
            r.reason@ == reason@,
            r.failure == LaunchFailure::Refused,
    {
        LaunchError { reason: reason.to_string(), failure: LaunchFailure::Refused }
    }
}

/// What the operating system said about a spawn that failed, as far as a
/// launch tells it apart.
#[derive(Debug, Clone, Copy, PartialEq, Eq, Structural)]
pub enum SpawnFault {
    NotFound,
    PermissionDenied,
    Other,
}

/// How a spawn fault is classified: an absent program, an unusable one, or
/// anything else.
pub open spec fn failure_for(fault: SpawnFault) -> LaunchFailure {
    match fault {
        SpawnFault::NotFound => LaunchFailure::NotFound,
        SpawnFault::PermissionDenied => LaunchFailure::NotExecutable,
        SpawnFault::Other => LaunchFailure::Refused,
    }
}

/// Classifies a spawn fault.
pub fn classify_spawn(fault: SpawnFault) -> (r: LaunchFailure)
    ensures
        r == failure_for(fault),
{
    match fault {
        SpawnFault::NotFound => LaunchFailure::NotFound,
        SpawnFault::PermissionDenied => LaunchFailure::NotExecutable,
        SpawnFault::Other => LaunchFailure::Refused,
    }
}

#[verifier::external_type_specification]
#[verifier::external_body]
pub struct ExIoError(std::io::Error);

/// `std::io::Error::kind`, told apart into the two kinds a launch
/// distinguishes and everything else. Nothing is claimed of which kind an
/// error carries.
#[verifier::external_body]
fn spawn_fault(error: &std::io::Error) -> SpawnFault {
    match error.kind() {
        std::io::ErrorKind::NotFound => SpawnFault::NotFound,
        std::io::ErrorKind::PermissionDenied => SpawnFault::PermissionDenied,
        _ => SpawnFault::Other,
    }
}

/// The text `std::io::Error` displays. It comes from the operating system,
/// so nothing is claimed of it.
#[verifier::external_body]
fn io_message(error: &std::io::Error) -> String {
    error.to_string()
}

impl LaunchError {
    /// A spawn failure classified by what the operating system said about
    /// it: the program's name, then the system's words.
    pub fn from_spawn(program: &str, error: &std::io::Error) -> (r: LaunchError)
        ensures
            exists|fault: SpawnFault, said: Seq<char>|
                r.failure == failure_for(fault) && #[trigger] r.reason@ == "`"@ + program@ + "` could not be started: "@ + said,
    {
        let fault = spawn_fault(error);
        let said = io_message(error);
        LaunchError::from_fault(program, fault, said.as_str())
    }

    /// A spawn failure from what the operating system said of it, already
    /// told apart: an absent program is `NotFound`, one that may not be run
    /// is `NotExecutable`, anything else a refusal; the reason names the
    /// program, then the system's words.
    pub fn from_fault(program: &str, fault: SpawnFault, said: &str) -> (r: LaunchError)
        ensures
            r.failure == failure_for(fault),
            r.reason@ == "`"@ + program@ + "` could not be started: "@ + said@,
    {
        let mut m = chars_of("`");
        extend_str(&mut m, program);
        extend_str(&mut m, "` could not be started: ");
        extend_str(&mut m, said);
        LaunchError { reason: string_of(&m), failure: classify_spawn(fault) }
    }
}

/// A declared mutation command isolated from the ordinary child launcher.
pub struct MutationLaunch<'a> {
    pub arguments: &'a [String],
    pub directory: &'a str,
    pub environment: &'a BTreeMap<String, String>,
    /// Repository-relative paths selected from the actual Git index.
    pub selected_paths: &'a [String],
    /// Candidate commit used only by a disposable pull-request replay.
    pub revision: Option<&'a str>,
}

/// Sanitized mutation outcome.
pub struct Mutated {
    pub code: i32,
    pub changes: Vec<String>,
    pub divergences: Vec<String>,
}

pub struct MutationError(pub String);

/// One generated adapter file, held in memory until every profile has been
/// discovered and validated.
#[derive(Debug, Clone, PartialEq, Eq)]
pub struct AdapterFile {
    pub path: String,
    pub contents: String,
}

/// The complete replacement of declared adapter families plus individually
/// managed adapter files.
#[derive(Debug, Clone, PartialEq, Eq)]
pub struct AdapterTransaction {
    pub roots: Vec<String>,
    pub exact_paths: Vec<String>,
    pub files: Vec<AdapterFile>,
}

pub struct AdapterError(pub String);

/// One private local environment file, fully materialized before its target
/// is opened.
#[derive(Debug, Clone, PartialEq, Eq)]
pub struct EnvironmentFile {
    pub path: String,
    pub contents: String,
}

#[derive(Debug, Clone, PartialEq, Eq)]
pub struct EnvironmentTransaction {
    pub files: Vec<EnvironmentFile>,
}

#[derive(Debug, Clone, PartialEq, Eq)]
pub struct EnvironmentRestoreFile {
    pub path: String,
    pub contents: String,
    pub replace: bool,
}

#[derive(Debug, Clone, PartialEq, Eq)]
pub struct EnvironmentRestoreTransaction {
    pub files: Vec<EnvironmentRestoreFile>,
}

#[derive(Debug)]
pub struct EnvironmentError(pub String);

/// A declared executable and argv vector.
pub struct ToolchainLaunch<'a> {
    pub executable: &'a str,
    pub arguments: &'a [String],
    /// A configured upper bound for one child; `None` leaves no time limit.
    pub timeout_seconds: Option<u64>,
}

#[derive(Debug)]
pub struct ToolchainResult {
    pub code: i32,
    pub stdout: String,
}

pub struct ToolchainError(pub String);

/// The narrow write boundary used only by canonical adapter generation.
pub trait AdapterStore {
    fn replace(&mut self, root: &str, transaction: &AdapterTransaction) -> Result<(), AdapterError>;
}

/// The separate no-overwrite write boundary for declared local environment
/// targets.
pub trait EnvironmentStore {
    fn create(&mut self, root: &str, transaction: &EnvironmentTransaction) -> Result<(), EnvironmentError>;

    fn restore(&mut self, root: &str, transaction: &EnvironmentRestoreTransaction) -> Result<
        (),
        EnvironmentError,
    >;
}

/// The only capability that starts a declared toolchain probe or provision
/// vector.
pub trait ToolchainRunner {
    fn run(&self, launch: ToolchainLaunch<'_>) -> Result<ToolchainResult, ToolchainError>;
}

pub struct NoAdapterStore;

pub struct NoEnvironmentStore;

pub struct NoToolchainRunner;

impl AdapterStore for NoAdapterStore {
    fn replace(&mut self, _root: &str, _transaction: &AdapterTransaction) -> (r: Result<(), AdapterError>)
        ensures
            r is Err,
    {
        Err(AdapterError("this entry point has no canonical-adapter write boundary".to_string()))
    }
}

impl EnvironmentStore for NoEnvironmentStore {
    fn create(&mut self, _root: &str, _transaction: &EnvironmentTransaction) -> (r: Result<(), EnvironmentError>)
        ensures
            r is Err,
    {
        Err(EnvironmentError("this entry point has no environment write boundary".to_string()))
    }

    fn restore(&mut self, _root: &str, _transaction: &EnvironmentRestoreTransaction) -> (r: Result<
        (),
        EnvironmentError,
    >)
        ensures
            r is Err,
    {
        Err(EnvironmentError("this entry point has no environment write boundary".to_string()))
    }
}

impl ToolchainRunner for NoToolchainRunner {
    fn run(&self, _launch: ToolchainLaunch<'_>) -> (r: Result<ToolchainResult, ToolchainError>)
        ensures
            r is Err,
    {
        Err(ToolchainError("this entry point has no toolchain process boundary".to_string()))
    }
}

/// The only capability that may turn a declared mutation contract into a
/// write. Read-only callers receive [`NoMutationRunner`] and fail closed.
pub trait MutationRunner {
    fn apply_index(&self, launch: MutationLaunch<'_>) -> Result<Mutated, MutationError>;

    fn verify_clean(&self, launch: MutationLaunch<'_>) -> Result<Mutated, MutationError>;
}

pub struct NoMutationRunner;

impl MutationRunner for NoMutationRunner {
    fn apply_index(&self, _launch: MutationLaunch<'_>) -> (r: Result<Mutated, MutationError>)
        ensures
            r is Err,
    {
        Err(MutationError("this entry point has no index mutation boundary".to_string()))
    }

    fn verify_clean(&self, _launch: MutationLaunch<'_>) -> (r: Result<Mutated, MutationError>)
        ensures
            r is Err,
    {
        Err(MutationError("this entry point has no disposable pull-request replay boundary".to_string()))
    }
}

/// What a launch hands the child, as plain values.
pub ghost struct LaunchView {
    pub arguments: Seq<Seq<char>>,
    pub directory: Seq<char>,
    pub surface: Seq<char>,
    pub stdin: Option<Seq<char>>,
    pub environment: Map<String, String>,
}

pub open spec fn optional_text(s: Option<&str>) -> Option<Seq<char>> {
    match s {
        Some(t) => Some(t@),
        None => None,
    }
}

pub open spec fn launch_view(l: Launch<'_>) -> LaunchView {
    LaunchView {
        arguments: string_views(l.arguments@),
        directory: l.directory@,
        surface: l.surface@,
        stdin: optional_text(l.stdin),
        environment: l.environment@,
    }
}

/// The one place RHINO starts a process.
pub trait Launcher {
    /// Whether `answer` is an ending this launcher may give a child started
    /// as `launch` describes. A started process ends as the machine has it,
    /// so the default holds of every answer.
    open spec fn gives(&self, launch: LaunchView, answer: Result<Launched, LaunchError>) -> bool {
        true
    }

    fn launch(&self, launch: Launch<'_>) -> (r: Result<Launched, LaunchError>)
        ensures
            self.gives(launch_view(launch), r),
    ;
}

/// The launcher every command that is not a gate dispatch is given: refusing
/// rather than absent, so a gate dispatch reaching it is a protocol failure
/// with a reason rather than a silent pass.
pub struct NoLauncher;

impl Launcher for NoLauncher {
    fn launch(&self, _launch: Launch<'_>) -> (r: Result<Launched, LaunchError>)
        ensures
            r matches Err(e) && e.failure == LaunchFailure::Refused,
    {
        Err(LaunchError::refused("this build was called through an entry point that starts no process"))
    }
}

} // verus!

verus! {

/// The texts of a list of strings.
pub open spec fn string_views(s: Seq<String>) -> Seq<Seq<char>> {
    Seq::new(s.len(), |i: int| s[i]@)
}

/// `""` addresses the root; everything else gains one trailing separator, so
/// a prefix test cannot match a sibling whose name merely starts the same way.
pub open spec fn normalised(path: Seq<char>) -> Seq<char> {
    let t = trim_char_spec(path, '/');
    if t.len() == 0 || t == "."@ {
        Seq::empty()
    } else {
        t.push('/')
    }
}

fn normalised_chars(path: &Vec<char>) -> (r: Vec<char>)
    ensures
        r@ == normalised(path@),
{
    let mut t = crate::text::trim_char(path, '/');
    if t.len() == 0 || crate::text::is(&t, ".") {
        Vec::new()
    } else {
        t.push('/');
        t
    }
}

/// Whether `path` is `root` or lies beneath it.
pub open spec fn under(path: Seq<char>, root: Seq<char>) -> bool {
    path == root || (root.is_prefix_of(path) && path.len() > root.len() && path[root.len() as int] == '/')
}

fn is_under(path: &Vec<char>, root: &Vec<char>) -> (r: bool)
    ensures
        r == under(path@, root@),
{
    if crate::text::same(path, root) {
        return true;
    }
    crate::text::starts_with(path, root) && path.len() > root.len() && path[root.len()] == '/'
}

/// A path segment no managed file may carry.
pub open spec fn bad_segment(s: Seq<char>) -> bool {
    s.len() == 0 || s == "."@ || s == ".."@ || s.contains('\\')
}

/// A repository-relative path without surrounding separators, or `None`
/// when it names nothing or holds an empty, `.`, `..`, or backslashed
/// segment.
pub open spec fn normal_path(path: Seq<char>) -> Option<Seq<char>> {
    let t = trim_char_spec(path, '/');
    let segs = split_spec(t, '/');
    if t.len() == 0 || exists|i: int| 0 <= i < segs.len() && bad_segment(#[trigger] segs[i]) {
        None
    } else {
        Some(t)
    }
}

fn normal_chars(path: &Vec<char>) -> (r: Option<Vec<char>>)
    ensures
        match r {
            Some(p) => normal_path(path@) == Some(p@),
            None => normal_path(path@) is None,
        },
{
    let t = crate::text::trim_char(path, '/');
    if t.len() == 0 {
        return None;
    }
    let segs = crate::text::split(&t, '/');
    let ghost sv = views(segs@);
    let mut i: usize = 0;
    while i < segs.len()
        invariant
            i <= segs.len(),
            sv == views(segs@),
            sv == split_spec(t@, '/'),
            t@ == trim_char_spec(path@, '/'),
            forall|j: int| 0 <= j < i ==> !bad_segment(#[trigger] sv[j]),
        decreases segs.len() - i,
    {
        let seg = &segs[i];
        assert(sv[i as int] == seg@);
        if seg.len() == 0 || crate::text::is(seg, ".") || crate::text::is(seg, "..")
            || crate::text::contains_char(seg, '\\') {
            assert(bad_segment(sv[i as int]));
            assert(exists|j: int| 0 <= j < sv.len() && bad_segment(#[trigger] sv[j]));
            return None;
        }
        i += 1;
    }
    Some(t)
}

/// The joins of the first one, two, ... `upto` segments.
pub open spec fn prefixes(segs: Seq<Seq<char>>, upto: int) -> Set<Seq<char>> {
    Set::new(|d: Seq<char>| exists|k: int| 1 <= k <= upto && d == join_spec(segs.take(k), "/"@))
}

/// Every directory above a path.
pub open spec fn ancestors(path: Seq<char>) -> Set<Seq<char>> {
    prefixes(split_spec(path, '/'), split_spec(path, '/').len() - 1)
}

/// A directory is implied by a list of files exactly when one of them lies
/// in it, so which directories a list implies depends only on its members.
pub proof fn lemma_all_ancestors_member(files: Seq<Seq<char>>, d: Seq<char>)
    ensures
        all_ancestors(files).contains(d) <==> exists|i: int| 0 <= i < files.len() && #[trigger] ancestors(files[i]).contains(d),
    decreases files.len(),
{
    if files.len() > 0 {
        lemma_all_ancestors_member(files.drop_last(), d);
        if all_ancestors(files.drop_last()).contains(d) {
            let i = choose|i: int| 0 <= i < files.drop_last().len() && #[trigger] ancestors(files.drop_last()[i]).contains(d);
            assert(files[i] == files.drop_last()[i]);
        }
        if exists|i: int| 0 <= i < files.len() && #[trigger] ancestors(files[i]).contains(d) {
            let i = choose|i: int| 0 <= i < files.len() && #[trigger] ancestors(files[i]).contains(d);
            if i < files.len() - 1 {
                assert(files.drop_last()[i] == files[i]);
            }
        }
    }
}

/// Two lists with the same members imply the same directories.
pub proof fn lemma_all_ancestors_set(a: Seq<Seq<char>>, b: Seq<Seq<char>>)
    requires
        a.to_set() == b.to_set(),
    ensures
        all_ancestors(a) == all_ancestors(b),
{
    assert forall|d: Seq<char>| all_ancestors(a).contains(d) implies all_ancestors(b).contains(d) by {
        lemma_all_ancestors_member(a, d);
        lemma_all_ancestors_member(b, d);
        let i = choose|i: int| 0 <= i < a.len() && #[trigger] ancestors(a[i]).contains(d);
        assert(a.to_set().contains(a[i]));
        assert(b.to_set().contains(a[i]));
        let j = choose|j: int| 0 <= j < b.len() && b[j] == a[i];
        assert(ancestors(b[j]).contains(d));
    }
    assert forall|d: Seq<char>| all_ancestors(b).contains(d) implies all_ancestors(a).contains(d) by {
        lemma_all_ancestors_member(a, d);
        lemma_all_ancestors_member(b, d);
        let i = choose|i: int| 0 <= i < b.len() && #[trigger] ancestors(b[i]).contains(d);
        assert(b.to_set().contains(b[i]));
        assert(a.to_set().contains(b[i]));
        let j = choose|j: int| 0 <= j < a.len() && a[j] == b[i];
        assert(ancestors(a[j]).contains(d));
    }
    assert(all_ancestors(a) =~= all_ancestors(b));
}

/// Every directory a list of file paths implies.
pub open spec fn all_ancestors(files: Seq<Seq<char>>) -> Set<Seq<char>>
    decreases files.len(),
{
    if files.len() == 0 {
        Set::empty()
    } else {
        all_ancestors(files.drop_last()).union(ancestors(files.last()))
    }
}

/// Adds the joins of the first one, two, ... `upto` segments to a strictly
/// ascending list.
fn add_prefixes(out: &mut Vec<Vec<char>>, segs: &Vec<Vec<char>>, upto: usize)
    requires
        strictly_sorted(views(old(out)@)),
        upto <= segs.len(),
    ensures
        strictly_sorted(views(final(out)@)),
        views(final(out)@).to_set() == views(old(out)@).to_set().union(prefixes(views(segs@), upto as int)),
{
    let ghost sv = views(segs@);
    let ghost base = views(out@).to_set();
    if upto == 0 {
        assert(prefixes(sv, 0) =~= Set::empty());
        assert(base.union(prefixes(sv, 0)) =~= base);
        return;
    }
    let mut cur = segs[0].clone();
    assert(sv.take(1) =~= seq![sv[0]]);
    let mut k: usize = 1;
    loop
        invariant
            1 <= k <= upto,
            upto <= segs.len(),
            sv == views(segs@),
            base == views(old(out)@).to_set(),
            cur@ == join_spec(sv.take(k as int), "/"@),
            strictly_sorted(views(out@)),
            views(out@).to_set() == base.union(prefixes(sv, k - 1)),
        decreases upto - k,
    {
        let ghost before = views(out@).to_set();
        crate::text::insert_sorted(out, cur.clone());
        assert(prefixes(sv, k as int) =~= prefixes(sv, k - 1).insert(cur@)) by {
            assert forall|d: Seq<char>| prefixes(sv, k as int).contains(d) implies prefixes(sv, k - 1).insert(cur@).contains(d) by {
                let j = choose|j: int| 1 <= j <= k && d == join_spec(sv.take(j), "/"@);
                if j < k {
                    assert(prefixes(sv, k - 1).contains(d));
                }
            }
            assert forall|d: Seq<char>| prefixes(sv, k - 1).insert(cur@).contains(d) implies prefixes(sv, k as int).contains(d) by {
                if d == cur@ {
                    assert(1 <= k as int <= k && d == join_spec(sv.take(k as int), "/"@));
                } else {
                    let j = choose|j: int| 1 <= j <= k - 1 && d == join_spec(sv.take(j), "/"@);
                    assert(1 <= j <= k && d == join_spec(sv.take(j), "/"@));
                }
            }
        }
        assert(views(out@).to_set() =~= base.union(prefixes(sv, k as int)));
        if k == upto {
            return;
        }
        let mut next = cur.clone();
        next.push('/');
        extend(&mut next, &segs[k]);
        proof {
            let t = sv.take(k + 1);
            assert(t.drop_last() =~= sv.take(k as int));
            assert(t.last() == sv[k as int]);
            assert(next@ =~= join_spec(sv.take(k as int), "/"@) + "/"@ + sv[k as int]) by {
                reveal_strlit("/");
            }
        }
        cur = next;
        k += 1;
    }
}

/// Every directory a list of file paths implies, sorted and without repeats.
fn parent_texts(files: &Vec<Vec<char>>) -> (r: Vec<Vec<char>>)
    ensures
        strictly_sorted(views(r@)),
        views(r@).to_set() == all_ancestors(views(files@)),
{
    let ghost fv = views(files@);
    let mut out: Vec<Vec<char>> = Vec::new();
    let mut i: usize = 0;
    assert(views(out@).to_set() =~= Set::empty());
    while i < files.len()
        invariant
            i <= files.len(),
            fv == views(files@),
            strictly_sorted(views(out@)),
            views(out@).to_set() == all_ancestors(fv.take(i as int)),
        decreases files.len() - i,
    {
        let segs = crate::text::split(&files[i], '/');
        proof {
            crate::text::lemma_split_nonempty(files@[i as int]@, '/');
        }
        add_prefixes(&mut out, &segs, segs.len() - 1);
        assert(fv.take(i + 1).drop_last() =~= fv.take(i as int));
        assert(fv.take(i + 1).last() == files@[i as int]@);
        i += 1;
    }
    assert(fv.take(files.len() as int) =~= fv);
    out
}

} // verus!

verus! {

/// The entry a log of keyed values holds last for a key.
pub open spec fn held<V>(log: Seq<(Seq<char>, V)>, key: Seq<char>) -> Option<V>
    decreases log.len(),
{
    if log.len() == 0 {
        None
    } else if log.last().0 == key {
        Some(log.last().1)
    } else {
        held(log.drop_last(), key)
    }
}

/// The entry a log keyed by a range holds last for that range.
pub open spec fn held_range<V>(log: Seq<(Seq<char>, Seq<char>, V)>, base: Seq<char>, head: Seq<char>) -> Option<V>
    decreases log.len(),
{
    if log.len() == 0 {
        None
    } else if log.last().0 == base && log.last().1 == head {
        Some(log.last().2)
    } else {
        held_range(log.drop_last(), base, head)
    }
}

/// The keys of a file log that are not filesystem links.
pub open spec fn unlinked(files: Seq<(Seq<char>, Seq<char>)>, links: Seq<Seq<char>>) -> Seq<Seq<char>>
    decreases files.len(),
{
    if files.len() == 0 {
        Seq::empty()
    } else {
        let rest = unlinked(files.drop_last(), links);
        if links.contains(files.last().0) {
            rest
        } else {
            rest.push(files.last().0)
        }
    }
}

/// Each stated empty directory, and every directory on the way to it.
pub open spec fn stated_directories(empty: Seq<Seq<char>>) -> Set<Seq<char>>
    decreases empty.len(),
{
    if empty.len() == 0 {
        Set::empty()
    } else {
        stated_directories(empty.drop_last()).union(
            prefixes(split_spec(empty.last(), '/'), split_spec(empty.last(), '/').len() as int),
        )
    }
}

/// A tree held in memory, as plain values: a log of written files (the
/// last write of a path is its content) and the states a scenario marked.
#[verifier::ext_equal]
pub ghost struct MemoryView {
    pub files: Seq<(Seq<char>, Seq<char>)>,
    pub unreadable: Seq<Seq<char>>,
    pub vanished: Seq<Seq<char>>,
    pub binary: Seq<Seq<char>>,
    pub links: Seq<Seq<char>>,
    pub empty: Seq<Seq<char>>,
    pub indexed: Option<Seq<Seq<char>>>,
    pub changed: Seq<(Seq<char>, Seq<char>, Seq<Seq<char>>)>,
    pub refs: Seq<(Seq<char>, Seq<char>)>,
    pub messages: Seq<(Seq<char>, Seq<char>, Seq<char>)>,
    pub hook: Option<Seq<char>>,
}

/// What reading a path gives back.
pub open spec fn read_spec(v: MemoryView, path: Seq<char>) -> Result<Seq<char>, TreeFault> {
    let p = crate::text::strip_lead(path, '/');
    if v.unreadable.contains(p) {
        Err(TreeFault::Unreadable("permission denied"@))
    } else if v.binary.contains(p) {
        Err(TreeFault::NotText)
    } else if v.vanished.contains(p) {
        Err(TreeFault::NotFound)
    } else {
        match held(v.files, p) {
            Some(c) => Ok(c),
            None => Err(TreeFault::NotFound),
        }
    }
}

/// The answer to being seen from a path, its refusal taken as text.
pub open spec fn root_view<T>(r: Result<T, String>) -> Result<T, Seq<char>> {
    match r {
        Ok(t) => Ok(t),
        Err(m) => Err(m@),
    }
}

/// A read result as plain values.
pub open spec fn read_view(r: Result<String, TreeError>) -> Result<Seq<char>, TreeFault> {
    match r {
        Ok(s) => Ok(s@),
        Err(e) => Err(e@),
    }
}

/// Whether one segment of a path names something: not empty, not `.`, not
/// `..`.
pub open spec fn named_segment(s: Seq<char>) -> bool {
    s.len() > 0 && s != seq!['.'] && s != seq!['.', '.']
}

/// Whether a selected index path stays inside its root: relative, and every
/// segment names something.
pub open spec fn repository_path(p: Seq<char>) -> bool {
    forall|i: int| 0 <= i < split_spec(p, '/').len() ==> named_segment(#[trigger] split_spec(p, '/')[i])
}

fn is_repository_path(p: &str) -> (r: bool)
    ensures
        r == repository_path(p@),
{
    let parts = crate::text::split(&chars_of(p), '/');
    let ghost pv = split_spec(p@, '/');
    let mut i: usize = 0;
    while i < parts.len()
        invariant
            i <= parts.len(),
            views(parts@) == pv,
            pv == split_spec(p@, '/'),
            forall|j: int| 0 <= j < i ==> named_segment(#[trigger] pv[j]),
        decreases parts.len() - i,
    {
        let seg = &parts[i];
        assert(seg@ == pv[i as int]);
        if seg.len() == 0 || crate::text::is(seg, ".") || crate::text::is(seg, "..") {
            proof {
                reveal_strlit(".");
                reveal_strlit("..");
                assert(".."@ =~= seq!['.', '.']);
                assert("."@ =~= seq!['.']);
            }
            return false;
        }
        proof {
            reveal_strlit(".");
            reveal_strlit("..");
            assert(".."@ =~= seq!['.', '.']);
            assert("."@ =~= seq!['.']);
        }
        i += 1;
    }
    true
}

/// Before an index mutation starts: every selected path has to stay inside
/// its root. Refuses with the first one that does not.
pub fn check_selection(selected: &[String]) -> (r: Result<(), MutationError>)
    ensures
        match r {
            Ok(()) => forall|i: int| 0 <= i < selected@.len() ==> repository_path(#[trigger] selected@[i]@),
            Err(e) => exists|i: int|
                0 <= i < selected@.len() && !repository_path(#[trigger] selected@[i]@) && (forall|j: int|
                    0 <= j < i ==> repository_path(#[trigger] selected@[j]@)) && e.0@
                    == "selected index path escapes its root `"@ + selected@[i]@ + "`"@,
        },
{
    let mut i: usize = 0;
    while i < selected.len()
        invariant
            i <= selected.len(),
            forall|j: int| 0 <= j < i ==> repository_path(#[trigger] selected@[j]@),
        decreases selected.len() - i,
    {
        if !is_repository_path(selected[i].as_str()) {
            let mut m = chars_of("selected index path escapes its root `");
            extend_str(&mut m, selected[i].as_str());
            extend_str(&mut m, "`");
            return Err(MutationError(string_of(&m)));
        }
        i += 1;
    }
    Ok(())
}

/// After a mutator ran on an index snapshot: every path it changed has to be
/// one of the selected paths. Refuses with the first that is not.
pub fn check_changes(changed: &[String], selected: &[String]) -> (r: Result<(), MutationError>)
    ensures
        match r {
            Ok(()) => forall|i: int|
                0 <= i < changed@.len() ==> string_views(selected@).contains(#[trigger] changed@[i]@),
            Err(e) => exists|i: int|
                0 <= i < changed@.len() && !string_views(selected@).contains(#[trigger] changed@[i]@) && (forall|j: int|
                    0 <= j < i ==> string_views(selected@).contains(#[trigger] changed@[j]@)) && e.0@
                    == "mutator changed `"@ + changed@[i]@ + "` outside its selected index paths"@,
        },
{
    let sel = to_texts_of(selected);
    let mut i: usize = 0;
    while i < changed.len()
        invariant
            i <= changed.len(),
            views(sel@) == string_views(selected@),
            forall|j: int| 0 <= j < i ==> string_views(selected@).contains(#[trigger] changed@[j]@),
        decreases changed.len() - i,
    {
        let c = chars_of(changed[i].as_str());
        if !list_has(&sel, &c) {
            let mut m = chars_of("mutator changed `");
            extend_str(&mut m, changed[i].as_str());
            extend_str(&mut m, "` outside its selected index paths");
            return Err(MutationError(string_of(&m)));
        }
        i += 1;
    }
    Ok(())
}

/// The SHA-256 digest of some bytes.
pub uninterp spec fn sha256_of(bytes: Seq<u8>) -> Seq<u8>;

/// `sha2::Sha256::digest` of some bytes, as a vector; the digest is named
/// `sha256_of` of the bytes.
#[verifier::external_body]
fn fingerprint(bytes: &[u8]) -> (r: Vec<u8>)
    ensures
        r@ == sha256_of(bytes@),
{
    <sha2::Sha256 as sha2::Digest>::digest(bytes).to_vec()
}

/// A snapshot's files as plain values: path and bytes.
pub open spec fn snapshot_views(s: Seq<(String, Vec<u8>)>) -> Seq<(Seq<char>, Seq<u8>)> {
    Seq::new(s.len(), |i: int| (s[i].0@, s[i].1@))
}

/// A working tree's files as plain values: path, and bytes when there is a
/// file.
pub open spec fn worktree_views(s: Seq<(String, Option<Vec<u8>>)>) -> Seq<(Seq<char>, Option<Seq<u8>>)> {
    Seq::new(
        s.len(),
        |i: int|
            (
                s[i].0@,
                match s[i].1 {
                    Some(b) => Some(b@),
                    None => None,
                },
            ),
    )
}

pub open spec fn print_view(p: Option<Vec<u8>>) -> Option<Seq<u8>> {
    match p {
        Some(b) => Some(b@),
        None => None,
    }
}

/// The fingerprint a snapshot holds for a path (the last entry for it), or
/// `None` when it holds no file there.
pub open spec fn snapshot_print(snap: Seq<(Seq<char>, Seq<u8>)>, p: Seq<char>) -> Option<Seq<u8>>
    decreases snap.len(),
{
    if snap.len() == 0 {
        None
    } else if snap.last().0 == p {
        Some(sha256_of(snap.last().1))
    } else {
        snapshot_print(snap.drop_last(), p)
    }
}

/// The fingerprint of the working tree's file at a path, or `None` when
/// there is none.
pub open spec fn worktree_print(files: Seq<(Seq<char>, Option<Seq<u8>>)>, p: Seq<char>) -> Option<Seq<u8>>
    decreases files.len(),
{
    if files.len() == 0 {
        None
    } else if files.last().0 == p {
        match files.last().1 {
            Some(b) => Some(sha256_of(b)),
            None => None,
        }
    } else {
        worktree_print(files.drop_last(), p)
    }
}

/// The paths a mutator changed: held by either snapshot, with different
/// fingerprints before and after.
pub open spec fn changed_set(before: Seq<(Seq<char>, Seq<u8>)>, after: Seq<(Seq<char>, Seq<u8>)>) -> Set<Seq<char>> {
    Set::new(
        |p: Seq<char>|
            ((exists|i: int| 0 <= i < before.len() && #[trigger] before[i].0 == p) || (exists|j: int|
                0 <= j < after.len() && #[trigger] after[j].0 == p)) && snapshot_print(before, p) != snapshot_print(after, p),
    )
}

/// The changed paths whose working-tree file no longer holds what the
/// snapshot started from: a change there cannot be synchronized.
pub open spec fn diverging(
    changes: Seq<Seq<char>>,
    before: Seq<(Seq<char>, Seq<u8>)>,
    worktree: Seq<(Seq<char>, Option<Seq<u8>>)>,
) -> Seq<Seq<char>>
    decreases changes.len(),
{
    if changes.len() == 0 {
        Seq::empty()
    } else {
        let rest = diverging(changes.drop_last(), before, worktree);
        let c = changes.last();
        if snapshot_print(before, c) != worktree_print(worktree, c) {
            rest.push(c)
        } else {
            rest
        }
    }
}

fn print_in(snap: &[(String, Vec<u8>)], p: &Vec<char>) -> (r: Option<Vec<u8>>)
    ensures
        print_view(r) == snapshot_print(snapshot_views(snap@), p@),
{
    let ghost v = snapshot_views(snap@);
    let mut i: usize = snap.len();
    assert(v.take(i as int) =~= v);
    while i > 0
        invariant
            i <= snap.len(),
            v == snapshot_views(snap@),
            snapshot_print(v, p@) == snapshot_print(v.take(i as int), p@),
        decreases i,
    {
        i -= 1;
        assert(v.take(i + 1).last() == v[i as int]);
        assert(v.take(i + 1).drop_last() =~= v.take(i as int));
        if crate::text::same(&chars_of(snap[i].0.as_str()), p) {
            return Some(fingerprint(snap[i].1.as_slice()));
        }
    }
    None
}

fn print_at(files: &[(String, Option<Vec<u8>>)], p: &Vec<char>) -> (r: Option<Vec<u8>>)
    ensures
        print_view(r) == worktree_print(worktree_views(files@), p@),
{
    let ghost v = worktree_views(files@);
    let mut i: usize = files.len();
    assert(v.take(i as int) =~= v);
    while i > 0
        invariant
            i <= files.len(),
            v == worktree_views(files@),
            worktree_print(v, p@) == worktree_print(v.take(i as int), p@),
        decreases i,
    {
        i -= 1;
        assert(v.take(i + 1).last() == v[i as int]);
        assert(v.take(i + 1).drop_last() =~= v.take(i as int));
        if crate::text::same(&chars_of(files[i].0.as_str()), p) {
            return match &files[i].1 {
                Some(b) => Some(fingerprint(b.as_slice())),
                None => None,
            };
        }
    }
    None
}

fn same_print(a: &Option<Vec<u8>>, b: &Option<Vec<u8>>) -> (r: bool)
    ensures
        r == (print_view(*a) == print_view(*b)),
{
    match a {
        Some(x) => match b {
            Some(y) => {
                assert(print_view(*a) == Some(x@) && print_view(*b) == Some(y@));
                if x.len() != y.len() {
                    return false;
                }
                let mut i: usize = 0;
                while i < x.len()
                    invariant
                        i <= x.len(),
                        x.len() == y.len(),
                        print_view(*a) == Some(x@),
                        print_view(*b) == Some(y@),
                        forall|k: int| 0 <= k < i ==> x@[k] == y@[k],
                    decreases x.len() - i,
                {
                    if x[i] != y[i] {
                        assert(x@[i as int] != y@[i as int]);
                        return false;
                    }
                    i += 1;
                }
                assert(x@ =~= y@);
                true
            },
            None => false,
        },
        None => match b {
            Some(_) => false,
            None => true,
        },
    }
}

/// The paths a mutator changed between two snapshots, in path order, each
/// once.
fn changed_paths(before: &[(String, Vec<u8>)], after: &[(String, Vec<u8>)]) -> (r: Vec<String>)
    ensures
        strictly_sorted(string_views(r@)),
        string_views(r@).to_set() == changed_set(snapshot_views(before@), snapshot_views(after@)),
{
    let ghost bv = snapshot_views(before@);
    let ghost av = snapshot_views(after@);
    let mut found: Vec<Vec<char>> = Vec::new();
    assert(views(found@).to_set() =~= Set::<Seq<char>>::empty());
    let mut i: usize = 0;
    while i < before.len()
        invariant
            i <= before.len(),
            bv == snapshot_views(before@),
            av == snapshot_views(after@),
            strictly_sorted(views(found@)),
            views(found@).to_set() == Set::new(
                |p: Seq<char>|
                    (exists|k: int| 0 <= k < i && #[trigger] bv[k].0 == p) && snapshot_print(bv, p) != snapshot_print(av, p),
            ),
        decreases before.len() - i,
    {
        let key = chars_of(before[i].0.as_str());
        assert(bv[i as int].0 == key@);
        let b = print_in(before, &key);
        let a = print_in(after, &key);
        let ghost prior = views(found@).to_set();
        if !same_print(&b, &a) {
            crate::text::insert_sorted(&mut found, key);
        }
        assert(views(found@).to_set() =~= Set::new(
            |p: Seq<char>|
                (exists|k: int| 0 <= k < i + 1 && #[trigger] bv[k].0 == p) && snapshot_print(bv, p) != snapshot_print(av, p),
        )) by {
            assert forall|p: Seq<char>|
                (exists|k: int| 0 <= k < i + 1 && #[trigger] bv[k].0 == p) && snapshot_print(bv, p) != snapshot_print(av, p)
                implies views(found@).to_set().contains(p) by {
                let k = choose|k: int| 0 <= k < i + 1 && #[trigger] bv[k].0 == p;
                if k < i {
                    assert(prior.contains(p));
                }
            }
        }
        i += 1;
    }
    let mut j: usize = 0;
    while j < after.len()
        invariant
            j <= after.len(),
            bv == snapshot_views(before@),
            av == snapshot_views(after@),
            strictly_sorted(views(found@)),
            views(found@).to_set() == Set::new(
                |p: Seq<char>|
                    ((exists|k: int| 0 <= k < bv.len() && #[trigger] bv[k].0 == p) || (exists|k: int|
                        0 <= k < j && #[trigger] av[k].0 == p)) && snapshot_print(bv, p) != snapshot_print(av, p),
            ),
        decreases after.len() - j,
    {
        let key = chars_of(after[j].0.as_str());
        assert(av[j as int].0 == key@);
        let b = print_in(before, &key);
        let a = print_in(after, &key);
        let ghost prior = views(found@).to_set();
        if !same_print(&b, &a) {
            crate::text::insert_sorted(&mut found, key);
        }
        assert(views(found@).to_set() =~= Set::new(
            |p: Seq<char>|
                ((exists|k: int| 0 <= k < bv.len() && #[trigger] bv[k].0 == p) || (exists|k: int|
                    0 <= k < j + 1 && #[trigger] av[k].0 == p)) && snapshot_print(bv, p) != snapshot_print(av, p),
        )) by {
            assert forall|p: Seq<char>|
                ((exists|k: int| 0 <= k < bv.len() && #[trigger] bv[k].0 == p) || (exists|k: int|
                    0 <= k < j + 1 && #[trigger] av[k].0 == p)) && snapshot_print(bv, p) != snapshot_print(av, p)
                implies views(found@).to_set().contains(p) by {
                if !(exists|k: int| 0 <= k < bv.len() && #[trigger] bv[k].0 == p) {
                    let k = choose|k: int| 0 <= k < j + 1 && #[trigger] av[k].0 == p;
                    if k < j {
                        assert(prior.contains(p));
                    }
                }
            }
        }
        j += 1;
    }
    assert(views(found@).to_set() =~= changed_set(bv, av));
    to_strings(&found)
}

/// The decisions of one index mutation, from what it was given and what it
/// found: the selected paths have to stay inside the root, and every path
/// the mutator changed in the index snapshot has to be selected. When both
/// hold, the changed paths in path order, and those of them whose
/// working-tree file no longer holds what the snapshot started from, which
/// cannot be synchronized. Nothing is selected, nothing is done.
pub fn index_mutation(
    selected: &[String],
    before: &[(String, Vec<u8>)],
    after: &[(String, Vec<u8>)],
    worktree: &[(String, Option<Vec<u8>>)],
) -> (r: Result<(Vec<String>, Vec<String>), String>)
    ensures
        selected@.len() == 0 ==> (r matches Ok((c, d)) && c@.len() == 0 && d@.len() == 0),
        selected@.len() > 0 ==> match r {
            Ok((changes, divergences)) => {
                &&& forall|i: int| 0 <= i < selected@.len() ==> repository_path(#[trigger] selected@[i]@)
                &&& strictly_sorted(string_views(changes@))
                &&& string_views(changes@).to_set() == changed_set(snapshot_views(before@), snapshot_views(after@))
                &&& forall|i: int| 0 <= i < changes@.len() ==> string_views(selected@).contains(#[trigger] changes@[i]@)
                &&& string_views(divergences@) == diverging(
                    string_views(changes@),
                    snapshot_views(before@),
                    worktree_views(worktree@),
                )
            },
            Err(m) => {
                ||| exists|i: int|
                    0 <= i < selected@.len() && !repository_path(#[trigger] selected@[i]@) && (forall|j: int|
                        0 <= j < i ==> repository_path(#[trigger] selected@[j]@)) && m@
                        == "selected index path escapes its root `"@ + selected@[i]@ + "`"@
                ||| (forall|i: int| 0 <= i < selected@.len() ==> repository_path(#[trigger] selected@[i]@)) && exists|
                    cs: Seq<Seq<char>>,
                    i: int,
                |
                    #![trigger cs[i]]
                    strictly_sorted(cs) && cs.to_set() == changed_set(snapshot_views(before@), snapshot_views(after@)) && 0
                        <= i < cs.len() && !string_views(selected@).contains(cs[i]) && (forall|j: int|
                        0 <= j < i ==> string_views(selected@).contains(#[trigger] cs[j])) && m@ == "mutator changed `"@
                        + cs[i] + "` outside its selected index paths"@
            },
        },
{
    if selected.len() == 0 {
        return Ok((Vec::new(), Vec::new()));
    }
    match check_selection(selected) {
        Err(e) => {
            return Err(e.0);
        },
        Ok(()) => {},
    }
    let changes = changed_paths(before, after);
    match check_changes(changes.as_slice(), selected) {
        Err(e) => {
            let ghost cv = string_views(changes@);
            proof {
                let i = choose|i: int|
                    0 <= i < changes@.len() && !string_views(selected@).contains(#[trigger] changes@[i]@) && (forall|j: int|
                        0 <= j < i ==> string_views(selected@).contains(#[trigger] changes@[j]@)) && e.0@
                        == "mutator changed `"@ + changes@[i]@ + "` outside its selected index paths"@;
                assert(cv[i] == changes@[i]@);
                assert forall|j: int| 0 <= j < i implies string_views(selected@).contains(#[trigger] cv[j]) by {
                    assert(cv[j] == changes@[j]@);
                }
            }
            return Err(e.0);
        },
        Ok(()) => {},
    }
    let ghost bv = snapshot_views(before@);
    let ghost wv = worktree_views(worktree@);
    let ghost cv = string_views(changes@);
    let mut divergences: Vec<String> = Vec::new();
    let mut k: usize = 0;
    while k < changes.len()
        invariant
            k <= changes.len(),
            cv == string_views(changes@),
            bv == snapshot_views(before@),
            wv == worktree_views(worktree@),
            string_views(divergences@) == diverging(cv.take(k as int), bv, wv),
        decreases changes.len() - k,
    {
        assert(cv.take(k + 1).drop_last() =~= cv.take(k as int));
        assert(cv.take(k + 1).last() == changes@[k as int]@);
        let c = chars_of(changes[k].as_str());
        let was = print_in(before, &c);
        let now = print_at(worktree, &c);
        if !same_print(&was, &now) {
            let ghost prior = string_views(divergences@);
            let s = changes[k].clone();
            divergences.push(s);
            assert(string_views(divergences@) =~= prior.push(s@));
        }
        k += 1;
    }
    assert(cv.take(changes.len() as int) =~= cv);
    Ok((changes, divergences))
}

/// A tree held in memory.
///
/// This is the second implementation of the tree rather than a mock of the first:
/// scenarios exercise the same trait the product uses. Files are placed
/// through `write` while the fixture is being built; once a validator holds
/// it as a tree, no write is reachable.
#[derive(Debug)]
pub struct MemoryTree {
    files: Vec<(Vec<char>, Vec<char>)>,
    unreadable: Vec<Vec<char>>,
    vanished: Vec<Vec<char>>,
    binary: Vec<Vec<char>>,
    links: Vec<Vec<char>>,
    empty: Vec<Vec<char>>,
    indexed: Option<Vec<Vec<char>>>,
    changed_files: Vec<(Vec<char>, Vec<char>, Vec<Vec<char>>)>,
    git_refs: Vec<(Vec<char>, Vec<char>)>,
    commit_messages: Vec<(Vec<char>, Vec<char>, Vec<char>)>,
    hook_message_file: Option<Vec<char>>,
}

pub open spec fn pair_views(s: Seq<(Vec<char>, Vec<char>)>) -> Seq<(Seq<char>, Seq<char>)> {
    Seq::new(s.len(), |i: int| (s[i].0@, s[i].1@))
}

pub open spec fn range_views(s: Seq<(Vec<char>, Vec<char>, Vec<Vec<char>>)>) -> Seq<(Seq<char>, Seq<char>, Seq<Seq<char>>)> {
    Seq::new(s.len(), |i: int| (s[i].0@, s[i].1@, views(s[i].2@)))
}

pub open spec fn message_views(s: Seq<(Vec<char>, Vec<char>, Vec<char>)>) -> Seq<(Seq<char>, Seq<char>, Seq<char>)> {
    Seq::new(s.len(), |i: int| (s[i].0@, s[i].1@, s[i].2@))
}

pub open spec fn opt_list(o: Option<Vec<Vec<char>>>) -> Option<Seq<Seq<char>>> {
    match o {
        Some(v) => Some(views(v@)),
        None => None,
    }
}

pub open spec fn opt_text(o: Option<Vec<char>>) -> Option<Seq<char>> {
    match o {
        Some(v) => Some(v@),
        None => None,
    }
}

impl View for MemoryTree {
    type V = MemoryView;

    closed spec fn view(&self) -> MemoryView {
        MemoryView {
            files: pair_views(self.files@),
            unreadable: views(self.unreadable@),
            vanished: views(self.vanished@),
            binary: views(self.binary@),
            links: views(self.links@),
            empty: views(self.empty@),
            indexed: opt_list(self.indexed),
            changed: range_views(self.changed_files@),
            refs: pair_views(self.git_refs@),
            messages: message_views(self.commit_messages@),
            hook: opt_text(self.hook_message_file),
        }
    }
}

/// An empty tree.
pub open spec fn empty_view() -> MemoryView {
    MemoryView {
        files: Seq::empty(),
        unreadable: Seq::empty(),
        vanished: Seq::empty(),
        binary: Seq::empty(),
        links: Seq::empty(),
        empty: Seq::empty(),
        indexed: None,
        changed: Seq::empty(),
        refs: Seq::empty(),
        messages: Seq::empty(),
        hook: None,
    }
}

impl Default for MemoryTree {
    fn default() -> (r: MemoryTree)
        ensures
            r@ == empty_view(),
    {
        let r = MemoryTree {
            files: Vec::new(),
            unreadable: Vec::new(),
            vanished: Vec::new(),
            binary: Vec::new(),
            links: Vec::new(),
            empty: Vec::new(),
            indexed: None,
            changed_files: Vec::new(),
            git_refs: Vec::new(),
            commit_messages: Vec::new(),
            hook_message_file: None,
        };
        assert(r@ =~= empty_view());
        r
    }
}

fn copy_list(v: &Vec<Vec<char>>) -> (r: Vec<Vec<char>>)
    ensures
        views(r@) == views(v@),
{
    let mut r: Vec<Vec<char>> = Vec::new();
    let mut i: usize = 0;
    while i < v.len()
        invariant
            i <= v.len(),
            views(r@) == views(v@).take(i as int),
        decreases v.len() - i,
    {
        let c = v[i].clone();
        assert(c@ == v@[i as int]@);
        let ghost before = views(r@);
        r.push(c);
        assert(views(r@) =~= before.push(c@));
        assert(views(v@).take(i + 1) =~= views(v@).take(i as int).push(v@[i as int]@));
        i += 1;
    }
    assert(views(v@).take(v.len() as int) =~= views(v@));
    r
}

fn copy_pairs(v: &Vec<(Vec<char>, Vec<char>)>) -> (r: Vec<(Vec<char>, Vec<char>)>)
    ensures
        pair_views(r@) == pair_views(v@),
{
    let mut r: Vec<(Vec<char>, Vec<char>)> = Vec::new();
    let mut i: usize = 0;
    while i < v.len()
        invariant
            i <= v.len(),
            pair_views(r@) == pair_views(v@).take(i as int),
        decreases v.len() - i,
    {
        let a = v[i].0.clone();
        let b = v[i].1.clone();
        assert(a@ == v@[i as int].0@ && b@ == v@[i as int].1@);
        let ghost before = pair_views(r@);
        r.push((a, b));
        assert(pair_views(r@) =~= before.push((a@, b@)));
        assert(pair_views(v@).take(i + 1) =~= pair_views(v@).take(i as int).push(pair_views(v@)[i as int]));
        i += 1;
    }
    assert(pair_views(v@).take(v.len() as int) =~= pair_views(v@));
    r
}

fn copy_ranges(v: &Vec<(Vec<char>, Vec<char>, Vec<Vec<char>>)>) -> (r: Vec<(Vec<char>, Vec<char>, Vec<Vec<char>>)>)
    ensures
        range_views(r@) == range_views(v@),
{
    let mut r: Vec<(Vec<char>, Vec<char>, Vec<Vec<char>>)> = Vec::new();
    let mut i: usize = 0;
    while i < v.len()
        invariant
            i <= v.len(),
            range_views(r@) == range_views(v@).take(i as int),
        decreases v.len() - i,
    {
        let a = v[i].0.clone();
        let b = v[i].1.clone();
        assert(a@ == v@[i as int].0@ && b@ == v@[i as int].1@);
        let l = copy_list(&v[i].2);
        let ghost before = range_views(r@);
        r.push((a, b, l));
        assert(range_views(r@) =~= before.push((a@, b@, views(l@))));
        assert(range_views(v@).take(i + 1) =~= range_views(v@).take(i as int).push(range_views(v@)[i as int]));
        i += 1;
    }
    assert(range_views(v@).take(v.len() as int) =~= range_views(v@));
    r
}

fn copy_messages(v: &Vec<(Vec<char>, Vec<char>, Vec<char>)>) -> (r: Vec<(Vec<char>, Vec<char>, Vec<char>)>)
    ensures
        message_views(r@) == message_views(v@),
{
    let mut r: Vec<(Vec<char>, Vec<char>, Vec<char>)> = Vec::new();
    let mut i: usize = 0;
    while i < v.len()
        invariant
            i <= v.len(),
            message_views(r@) == message_views(v@).take(i as int),
        decreases v.len() - i,
    {
        let a = v[i].0.clone();
        let b = v[i].1.clone();
        let c = v[i].2.clone();
        assert(a@ == v@[i as int].0@ && b@ == v@[i as int].1@ && c@ == v@[i as int].2@);
        let ghost before = message_views(r@);
        r.push((a, b, c));
        assert(message_views(r@) =~= before.push((a@, b@, c@)));
        assert(message_views(v@).take(i + 1) =~= message_views(v@).take(i as int).push(message_views(v@)[i as int]));
        i += 1;
    }
    assert(message_views(v@).take(v.len() as int) =~= message_views(v@));
    r
}

fn list_has(v: &Vec<Vec<char>>, x: &Vec<char>) -> (r: bool)
    ensures
        r == views(v@).contains(x@),
{
    let mut i: usize = 0;
    while i < v.len()
        invariant
            i <= v.len(),
            forall|j: int| 0 <= j < i ==> views(v@)[j] != x@,
        decreases v.len() - i,
    {
        if crate::text::same(&v[i], x) {
            assert(views(v@)[i as int] == x@);
            return true;
        }
        i += 1;
    }
    false
}

/// The content a file log holds last for a path.
fn lookup(log: &Vec<(Vec<char>, Vec<char>)>, key: &Vec<char>) -> (r: Option<Vec<char>>)
    ensures
        opt_text(r) == held(pair_views(log@), key@),
{
    let ghost lv = pair_views(log@);
    let mut k: usize = log.len();
    assert(lv.take(log.len() as int) =~= lv);
    while k > 0
        invariant
            k <= log.len(),
            lv == pair_views(log@),
            held(lv, key@) == held(lv.take(k as int), key@),
        decreases k,
    {
        assert(lv.take(k as int).drop_last() =~= lv.take(k - 1));
        if crate::text::same(&log[k - 1].0, key) {
            return Some(log[k - 1].1.clone());
        }
        k -= 1;
    }
    None
}

/// The value a range log holds last for a range.
fn lookup_range(log: &Vec<(Vec<char>, Vec<char>, Vec<Vec<char>>)>, base: &Vec<char>, head: &Vec<char>) -> (r: Option<Vec<Vec<char>>>)
    ensures
        opt_list(r) == held_range(range_views(log@), base@, head@),
{
    let ghost lv = range_views(log@);
    let mut k: usize = log.len();
    assert(lv.take(log.len() as int) =~= lv);
    while k > 0
        invariant
            k <= log.len(),
            lv == range_views(log@),
            held_range(lv, base@, head@) == held_range(lv.take(k as int), base@, head@),
        decreases k,
    {
        assert(lv.take(k as int).drop_last() =~= lv.take(k - 1));
        if crate::text::same(&log[k - 1].0, base) && crate::text::same(&log[k - 1].1, head) {
            return Some(copy_list(&log[k - 1].2));
        }
        k -= 1;
    }
    None
}

/// The message a message log holds last for a range.
fn lookup_message(log: &Vec<(Vec<char>, Vec<char>, Vec<char>)>, base: &Vec<char>, head: &Vec<char>) -> (r: Option<Vec<char>>)
    ensures
        opt_text(r) == held_range(message_views(log@), base@, head@),
{
    let ghost lv = message_views(log@);
    let mut k: usize = log.len();
    assert(lv.take(log.len() as int) =~= lv);
    while k > 0
        invariant
            k <= log.len(),
            lv == message_views(log@),
            held_range(lv, base@, head@) == held_range(lv.take(k as int), base@, head@),
        decreases k,
    {
        assert(lv.take(k as int).drop_last() =~= lv.take(k - 1));
        if crate::text::same(&log[k - 1].0, base) && crate::text::same(&log[k - 1].1, head) {
            return Some(log[k - 1].2.clone());
        }
        k -= 1;
    }
    None
}

} // verus!

verus! {

/// The entries of a file log under a prefix, with the prefix taken off.
pub open spec fn strip_keys(f: Seq<(Seq<char>, Seq<char>)>, p: Seq<char>) -> Seq<(Seq<char>, Seq<char>)>
    decreases f.len(),
{
    if f.len() == 0 {
        Seq::empty()
    } else {
        let rest = strip_keys(f.drop_last(), p);
        if p.is_prefix_of(f.last().0) {
            rest.push((f.last().0.skip(p.len() as int), f.last().1))
        } else {
            rest
        }
    }
}

/// The paths of a list under a prefix, with the prefix taken off.
pub open spec fn strip_list(s: Seq<Seq<char>>, p: Seq<char>) -> Seq<Seq<char>>
    decreases s.len(),
{
    if s.len() == 0 {
        Seq::empty()
    } else {
        let rest = strip_list(s.drop_last(), p);
        if p.is_prefix_of(s.last()) {
            rest.push(s.last().skip(p.len() as int))
        } else {
            rest
        }
    }
}

pub open spec fn strip_ranges(c: Seq<(Seq<char>, Seq<char>, Seq<Seq<char>>)>, p: Seq<char>) -> Seq<(Seq<char>, Seq<char>, Seq<Seq<char>>)> {
    Seq::new(c.len(), |i: int| (c[i].0, c[i].1, strip_list(c[i].2, p)))
}

/// The same tree seen from the directory `p` names (with its separator).
pub open spec fn rerooted(v: MemoryView, p: Seq<char>) -> MemoryView {
    MemoryView {
        files: strip_keys(v.files, p),
        unreadable: strip_list(v.unreadable, p),
        vanished: strip_list(v.vanished, p),
        binary: strip_list(v.binary, p),
        links: strip_list(v.links, p),
        empty: strip_list(v.empty, p),
        indexed: match v.indexed {
            Some(x) => Some(strip_list(x, p)),
            None => None,
        },
        changed: strip_ranges(v.changed, p),
        refs: v.refs,
        messages: v.messages,
        hook: v.hook,
    }
}

/// The tree seen from `path`: itself for the root, the subtree for a
/// directory some file lives under, and a refusal for anything else.
pub open spec fn rooted_spec(v: MemoryView, path: Seq<char>) -> Result<MemoryView, Seq<char>> {
    let p = normalised(path);
    if p.len() == 0 {
        Ok(v)
    } else if !(exists|i: int| 0 <= i < v.files.len() && p.is_prefix_of(#[trigger] v.files[i].0)) {
        Err(path + " is not a directory"@)
    } else {
        Ok(rerooted(v, p))
    }
}

fn strip_list_under(s: &Vec<Vec<char>>, p: &Vec<char>) -> (r: Vec<Vec<char>>)
    ensures
        views(r@) == strip_list(views(s@), p@),
{
    let ghost sv = views(s@);
    let mut r: Vec<Vec<char>> = Vec::new();
    let mut i: usize = 0;
    while i < s.len()
        invariant
            i <= s.len(),
            sv == views(s@),
            views(r@) == strip_list(sv.take(i as int), p@),
        decreases s.len() - i,
    {
        assert(sv.take(i + 1).drop_last() =~= sv.take(i as int));
        assert(sv.take(i + 1).last() == s@[i as int]@);
        if crate::text::starts_with(&s[i], p) {
            let rest = crate::text::slice(&s[i], p.len(), s[i].len());
            assert(rest@ =~= s@[i as int]@.skip(p.len() as int));
            let ghost before = views(r@);
            r.push(rest);
            assert(views(r@) =~= before.push(rest@));
        }
        i += 1;
    }
    assert(sv.take(s.len() as int) =~= sv);
    r
}

fn strip_pairs_under(f: &Vec<(Vec<char>, Vec<char>)>, p: &Vec<char>) -> (r: Vec<(Vec<char>, Vec<char>)>)
    ensures
        pair_views(r@) == strip_keys(pair_views(f@), p@),
{
    let ghost fv = pair_views(f@);
    let mut r: Vec<(Vec<char>, Vec<char>)> = Vec::new();
    let mut i: usize = 0;
    while i < f.len()
        invariant
            i <= f.len(),
            fv == pair_views(f@),
            pair_views(r@) == strip_keys(fv.take(i as int), p@),
        decreases f.len() - i,
    {
        assert(fv.take(i + 1).drop_last() =~= fv.take(i as int));
        assert(fv.take(i + 1).last() == fv[i as int]);
        if crate::text::starts_with(&f[i].0, p) {
            let rest = crate::text::slice(&f[i].0, p.len(), f[i].0.len());
            assert(rest@ =~= f@[i as int].0@.skip(p.len() as int));
            let c = f[i].1.clone();
            let ghost before = pair_views(r@);
            r.push((rest, c));
            assert(pair_views(r@) =~= before.push((rest@, c@)));
        }
        i += 1;
    }
    assert(fv.take(f.len() as int) =~= fv);
    r
}

fn strip_ranges_under(c: &Vec<(Vec<char>, Vec<char>, Vec<Vec<char>>)>, p: &Vec<char>) -> (r: Vec<(Vec<char>, Vec<char>, Vec<Vec<char>>)>)
    ensures
        range_views(r@) == strip_ranges(range_views(c@), p@),
{
    let mut r: Vec<(Vec<char>, Vec<char>, Vec<Vec<char>>)> = Vec::new();
    let mut i: usize = 0;
    while i < c.len()
        invariant
            i <= c.len(),
            range_views(r@) == strip_ranges(range_views(c@), p@).take(i as int),
        decreases c.len() - i,
    {
        let a = c[i].0.clone();
        let b = c[i].1.clone();
        let l = strip_list_under(&c[i].2, p);
        let ghost before = range_views(r@);
        r.push((a, b, l));
        assert(range_views(r@) =~= before.push((a@, b@, views(l@))));
        i += 1;
        assert(range_views(r@) =~= strip_ranges(range_views(c@), p@).take(i as int));
    }
    assert(strip_ranges(range_views(c@), p@).take(c.len() as int) =~= strip_ranges(range_views(c@), p@));
    r
}

fn to_strings(v: &Vec<Vec<char>>) -> (r: Vec<String>)
    ensures
        string_views(r@) == views(v@),
{
    let mut r: Vec<String> = Vec::new();
    let mut i: usize = 0;
    while i < v.len()
        invariant
            i <= v.len(),
            string_views(r@) == views(v@).take(i as int),
        decreases v.len() - i,
    {
        let s = string_of(&v[i]);
        let ghost before = string_views(r@);
        r.push(s);
        assert(string_views(r@) =~= before.push(s@));
        i += 1;
        assert(string_views(r@) =~= views(v@).take(i as int));
    }
    assert(views(v@).take(v.len() as int) =~= views(v@));
    r
}

fn to_texts(v: &Vec<String>) -> (r: Vec<Vec<char>>)
    ensures
        views(r@) == string_views(v@),
{
    let mut r: Vec<Vec<char>> = Vec::new();
    let mut i: usize = 0;
    while i < v.len()
        invariant
            i <= v.len(),
            views(r@) == string_views(v@).take(i as int),
        decreases v.len() - i,
    {
        let c = chars_of(v[i].as_str());
        let ghost before = views(r@);
        r.push(c);
        assert(views(r@) =~= before.push(c@));
        i += 1;
        assert(views(r@) =~= string_views(v@).take(i as int));
    }
    assert(string_views(v@).take(v.len() as int) =~= string_views(v@));
    r
}

impl MemoryTree {
    /// A deep copy.
    fn duplicate(&self) -> (r: MemoryTree)
        ensures
            r@ == self@,
    {
        let r = MemoryTree {
            files: copy_pairs(&self.files),
            unreadable: copy_list(&self.unreadable),
            vanished: copy_list(&self.vanished),
            binary: copy_list(&self.binary),
            links: copy_list(&self.links),
            empty: copy_list(&self.empty),
            indexed: match &self.indexed {
                Some(x) => Some(copy_list(x)),
                None => None,
            },
            changed_files: copy_ranges(&self.changed_files),
            git_refs: copy_pairs(&self.git_refs),
            commit_messages: copy_messages(&self.commit_messages),
            hook_message_file: match &self.hook_message_file {
                Some(h) => Some(h.clone()),
                None => None,
            },
        };
        assert(r@ =~= self@);
        r
    }

    /// Places a file, replacing whatever the path held.
    pub fn write(&mut self, path: &str, content: &str)
        ensures
            final(self)@ == (MemoryView {
                files: old(self)@.files.push((crate::text::strip_lead(path@, '/'), content@)),
                ..old(self)@
            }),
    {
        let key = crate::text::trim_start_char(&chars_of(path), '/');
        let value = chars_of(content);
        self.files.push((key, value));
        assert(self@ =~= MemoryView {
            files: old(self)@.files.push((crate::text::strip_lead(path@, '/'), content@)),
            ..old(self)@
        });
    }

    /// A file the repository holds but that cannot be opened. It stays in
    /// the tree on purpose: a validator has to see it and fail closed.
    pub fn mark_unreadable(&mut self, path: &str)
        ensures
            final(self)@ == (MemoryView {
                unreadable: old(self)@.unreadable.push(crate::text::strip_lead(path@, '/')),
                ..old(self)@
            }),
    {
        let key = crate::text::trim_start_char(&chars_of(path), '/');
        self.unreadable.push(key);
        assert(self@ =~= MemoryView {
            unreadable: old(self)@.unreadable.push(crate::text::strip_lead(path@, '/')),
            ..old(self)@
        });
    }

    /// A file the walk listed and the read can no longer find.
    pub fn mark_vanished(&mut self, path: &str)
        ensures
            final(self)@ == (MemoryView {
                vanished: old(self)@.vanished.push(crate::text::strip_lead(path@, '/')),
                ..old(self)@
            }),
    {
        let key = crate::text::trim_start_char(&chars_of(path), '/');
        self.vanished.push(key);
        assert(self@ =~= MemoryView {
            vanished: old(self)@.vanished.push(crate::text::strip_lead(path@, '/')),
            ..old(self)@
        });
    }

    /// A file whose bytes are not text.
    pub fn mark_binary(&mut self, path: &str)
        ensures
            final(self)@ == (MemoryView {
                binary: old(self)@.binary.push(crate::text::strip_lead(path@, '/')),
                ..old(self)@
            }),
    {
        let key = crate::text::trim_start_char(&chars_of(path), '/');
        self.binary.push(key);
        assert(self@ =~= MemoryView {
            binary: old(self)@.binary.push(crate::text::strip_lead(path@, '/')),
            ..old(self)@
        });
    }

    /// A filesystem link. Never listed, because following one can leave the
    /// repository entirely.
    pub fn mark_link(&mut self, path: &str)
        ensures
            final(self)@ == (MemoryView {
                links: old(self)@.links.push(crate::text::strip_lead(path@, '/')),
                ..old(self)@
            }),
    {
        let key = crate::text::trim_start_char(&chars_of(path), '/');
        self.links.push(key);
        assert(self@ =~= MemoryView {
            links: old(self)@.links.push(crate::text::strip_lead(path@, '/')),
            ..old(self)@
        });
    }

    /// A directory the repository holds and no file lives under.
    pub fn mark_directory(&mut self, path: &str)
        ensures
            final(self)@ == (MemoryView {
                empty: old(self)@.empty.push(trim_char_spec(path@, '/')),
                ..old(self)@
            }),
    {
        let key = crate::text::trim_char(&chars_of(path), '/');
        self.empty.push(key);
        assert(self@ =~= MemoryView {
            empty: old(self)@.empty.push(trim_char_spec(path@, '/')),
            ..old(self)@
        });
    }

    /// States a synthetic index: the given paths, without a leading
    /// separator, sorted and each once.
    pub fn set_indexed_files(&mut self, paths: &[&str])
        ensures
            final(self)@.indexed matches Some(ix) && strictly_sorted(ix) && ix.to_set() == Seq::new(
                paths@.len(),
                |i: int| crate::text::strip_lead(paths@[i]@, '/'),
            ).to_set(),
            final(self)@ == (MemoryView { indexed: final(self)@.indexed, ..old(self)@ }),
    {
        let list = sorted_paths(paths);
        self.indexed = Some(list);
        assert(self@ =~= MemoryView { indexed: self@.indexed, ..old(self)@ });
    }

    /// States the exact path selection for one immutable commit range.
    pub fn set_changed_files(&mut self, base: &str, head: &str, paths: &[&str])
        ensures
            final(self)@.changed.len() == old(self)@.changed.len() + 1,
            final(self)@.changed.drop_last() == old(self)@.changed,
            final(self)@.changed.last().0 == base@,
            final(self)@.changed.last().1 == head@,
            strictly_sorted(final(self)@.changed.last().2),
            final(self)@.changed.last().2.to_set() == Seq::new(
                paths@.len(),
                |i: int| crate::text::strip_lead(paths@[i]@, '/'),
            ).to_set(),
            final(self)@ == (MemoryView { changed: final(self)@.changed, ..old(self)@ }),
    {
        let list = sorted_paths(paths);
        let ghost before = range_views(self.changed_files@);
        let entry = (chars_of(base), chars_of(head), list);
        self.changed_files.push(entry);
        assert(range_views(self.changed_files@).drop_last() =~= before);
        assert(self@ =~= MemoryView { changed: self@.changed, ..old(self)@ });
    }

    /// States a resolved Git ref.
    pub fn set_git_ref(&mut self, reference: &str, commit: &str)
        ensures
            final(self)@ == (MemoryView { refs: old(self)@.refs.push((reference@, commit@)), ..old(self)@ }),
    {
        self.git_refs.push((chars_of(reference), chars_of(commit)));
        assert(self@ =~= MemoryView { refs: old(self)@.refs.push((reference@, commit@)), ..old(self)@ });
    }

    /// States the commit-message text for one immutable range.
    pub fn set_commit_messages(&mut self, base: &str, head: &str, messages: &str)
        ensures
            final(self)@ == (MemoryView {
                messages: old(self)@.messages.push((base@, head@, messages@)),
                ..old(self)@
            }),
    {
        self.commit_messages.push((chars_of(base), chars_of(head), chars_of(messages)));
        assert(self@ =~= MemoryView {
            messages: old(self)@.messages.push((base@, head@, messages@)),
            ..old(self)@
        });
    }

    /// States the one file a synthetic Git hook supplied.
    pub fn set_hook_message_file(&mut self, path: &str)
        ensures
            final(self)@ == (MemoryView { hook: Some(path@), ..old(self)@ }),
    {
        self.hook_message_file = Some(chars_of(path));
        assert(self@ =~= MemoryView { hook: Some(path@), ..old(self)@ });
    }
}

/// The given paths without a leading separator, sorted and each once.
fn sorted_paths(paths: &[&str]) -> (r: Vec<Vec<char>>)
    ensures
        strictly_sorted(views(r@)),
        views(r@).to_set() == Seq::new(paths@.len(), |i: int| crate::text::strip_lead(paths@[i]@, '/')).to_set(),
{
    let ghost want = Seq::new(paths@.len(), |i: int| crate::text::strip_lead(paths@[i]@, '/'));
    let mut r: Vec<Vec<char>> = Vec::new();
    let mut i: usize = 0;
    assert(views(r@).to_set() =~= want.take(0).to_set());
    while i < paths.len()
        invariant
            i <= paths.len(),
            want == Seq::new(paths@.len(), |i: int| crate::text::strip_lead(paths@[i]@, '/')),
            strictly_sorted(views(r@)),
            views(r@).to_set() == want.take(i as int).to_set(),
        decreases paths.len() - i,
    {
        let key = crate::text::trim_start_char(&chars_of(paths[i]), '/');
        crate::text::insert_sorted(&mut r, key);
        proof {
            assert(want.take(i + 1) =~= want.take(i as int).push(want[i as int]));
            want.take(i as int).lemma_push_to_set_commute(want[i as int]);
        }
        i += 1;
    }
    assert(want.take(paths.len() as int) =~= want);
    r
}

} // verus!

verus! {

/// A repository as RHINO is allowed to see it: read, list, and nothing else.
pub trait Tree: Sized {
    /// Whether `answer` is what this tree gives a read of `path`. An
    /// implementation in this library states its reads exactly; the default
    /// holds of every answer, so it claims nothing of a tree it does not know.
    open spec fn reads_as(&self, path: Seq<char>, answer: Result<Seq<char>, TreeFault>) -> bool {
        true
    }

    /// Whether `listing` is the file listing this tree gives. The default
    /// holds of every listing.
    open spec fn lists(&self, listing: Seq<Seq<char>>) -> bool {
        true
    }

    /// Whether `answer` is what this tree gives when it is asked to be seen
    /// from `path`. The default holds of every answer.
    open spec fn roots_as(&self, path: Seq<char>, answer: Result<Self, Seq<char>>) -> bool {
        true
    }

    fn read(&self, path: &str) -> (r: Result<String, TreeError>)
        ensures
            self.reads_as(path@, read_view(r)),
    ;

    /// Read one declared mutation source without following a filesystem
    /// link. The default is an ordinary read.
    fn read_no_follow(&self, path: &str) -> Result<String, TreeError> {
        self.read(path)
    }

    /// Every file in the tree, repository-relative and sorted, with excluded
    /// directories and filesystem links already dropped.
    fn files(&self) -> (r: Vec<String>)
        ensures
            self.lists(string_views(r@)),
    ;

    /// The staged paths selected by the Git index. A tree with no Git
    /// snapshot capability refuses.
    fn indexed_files(&self) -> Result<Vec<String>, String> {
        Err("this tree has no Git index snapshot boundary".to_string())
    }

    /// The paths changed between two already validated immutable commits.
    fn changed_files(&self, base: &str, head: &str) -> Result<Vec<String>, String> {
        Err("this tree has no changed-file range boundary".to_string())
    }

    /// Resolve a repository-declared comparison ref to one immutable commit.
    fn resolve_git_ref(&self, reference: &str) -> Result<String, String> {
        Err("this tree has no Git ref-resolution boundary".to_string())
    }

    /// Read the commit-message text for one already validated range.
    fn commit_messages(&self, base: &str, head: &str) -> Result<String, String> {
        Err("this tree has no commit-message range boundary".to_string())
    }

    /// Read the one message file Git assigned to the current `commit-msg`
    /// hook.
    fn hook_message_file(&self, path: &str) -> Result<String, TreeError> {
        Err(TreeError::Unreadable("the Git hook message-file boundary is unavailable".to_string()))
    }

    /// Every directory in the tree, repository-relative and sorted. The
    /// default derives them from the files.
    fn directories(&self) -> (r: Vec<String>)
        ensures
            exists|listing: Seq<Seq<char>>|
                #[trigger] self.lists(listing) && all_ancestors(listing).subset_of(string_views(r@).to_set()),
    {
        let listing = self.files();
        let r = to_strings(&parent_texts(&to_texts(&listing)));
        assert(self.lists(string_views(listing@)));
        r
    }

    /// Whether a path names a readable file or a directory: a read that
    /// gives text answers yes, and otherwise the directory question does.
    fn exists_at(&self, path: &str) -> (r: bool)
        ensures
            exists|raw: Result<Seq<char>, TreeFault>|
                #[trigger] self.reads_as(path@, raw) && if raw is Ok {
                    r
                } else {
                    exists|listing: Seq<Seq<char>>| #[trigger] self.lists(listing) && r == holds_under(listing, path@)
                },
    {
        let read = self.read(path);
        let ghost raw = read_view(read);
        match read {
            Ok(_) => true,
            Err(_) => self.is_directory(path),
        }
    }

    /// The direct children of a directory, as repository-relative paths: each
    /// listed file directly inside it, and each directory one level down that
    /// holds a listed file; in path order, each once. Derived from whatever
    /// the listing of the tree gives.
    fn children(&self, directory: &str) -> (r: Vec<String>)
        ensures
            exists|listing: Seq<Seq<char>>|
                #[trigger] self.lists(listing) && strictly_sorted(string_views(r@)) && string_views(r@).to_set()
                    == children_spec(listing.to_set(), normalised(directory@)),
    {
        let listing = self.files();
        children_in(&listing, directory)
    }

    /// Whether a path names a directory that holds a listed file, as the
    /// listing of the tree gives it.
    fn is_directory(&self, path: &str) -> (r: bool)
        ensures
            exists|listing: Seq<Seq<char>>| #[trigger] self.lists(listing) && r == holds_under(listing, path@),
    {
        let listing = self.files();
        directory_in(&listing, path)
    }

    /// The same repository with these directory names skipped at any depth.
    fn excluding(&self, directories: &[String]) -> Self;

    /// The same repository seen from `path`, or why it cannot be.
    fn rooted_at(&self, path: &str) -> (r: Result<Self, String>)
        ensures
            self.roots_as(path@, root_view(r)),
    ;

    /// Where this repository is, as a child would have to be told it.
    fn root(&self) -> String {
        ".".to_string()
    }
}

/// The child of `prefix` a listed path under it lies in: the path itself
/// when it sits directly there, else the directory one level down.
pub open spec fn child_of(prefix: Seq<char>, path: Seq<char>) -> Seq<char> {
    let rest = path.skip(prefix.len() as int);
    if rest.contains('/') {
        let k = choose|k: int| 0 <= k < rest.len() && rest[k] == '/' && forall|j: int| 0 <= j < k ==> rest[j] != '/';
        prefix + rest.take(k)
    } else {
        path
    }
}

/// The direct children, under `prefix`, of a set of listed files.
pub open spec fn children_spec(files: Set<Seq<char>>, prefix: Seq<char>) -> Set<Seq<char>> {
    Set::new(|c: Seq<char>| exists|p: Seq<char>| #[trigger] files.contains(p) && prefix.is_prefix_of(p) && c == child_of(prefix, p))
}

/// The direct children of a directory among listed files: each file
/// directly inside it, and each directory one level down that holds a file;
/// in path order, each once.
pub fn children_in(listing: &[String], directory: &str) -> (r: Vec<String>)
    ensures
        strictly_sorted(string_views(r@)),
        string_views(r@).to_set() == children_spec(string_views(listing@).to_set(), normalised(directory@)),
{
    let prefix = normalised_chars(&chars_of(directory));
    let files = to_texts_of(listing);
    let ghost fv = views(files@);
    let ghost pv = prefix@;
    let mut seen: Vec<Vec<char>> = Vec::new();
    let mut i: usize = 0;
    assert(views(seen@).to_set() =~= Set::<Seq<char>>::empty());
    while i < files.len()
        invariant
            i <= files.len(),
            fv == views(files@),
            pv == prefix@,
            crate::text::strictly_sorted(views(seen@)),
            views(seen@).to_set() == Set::new(
                |c: Seq<char>| exists|j: int| 0 <= j < i && pv.is_prefix_of(#[trigger] fv[j]) && c == child_of(pv, fv[j]),
            ),
        decreases files.len() - i,
    {
        let path = &files[i];
        let ghost before = views(seen@).to_set();
        if crate::text::starts_with(path, &prefix) {
            let rest = crate::text::slice(path, prefix.len(), path.len());
            assert(rest@ =~= path@.skip(pv.len() as int));
            let ghost x: Seq<char>;
            match crate::text::find_char(&rest, '/') {
                Some(k) => {
                    let mut child = prefix.clone();
                    let head = crate::text::slice(&rest, 0, k);
                    extend(&mut child, &head);
                    proof {
                        assert(rest@.contains('/'));
                        let k2 = choose|k2: int|
                            0 <= k2 < rest@.len() && rest@[k2] == '/' && forall|j: int| 0 <= j < k2 ==> rest@[j] != '/';
                        if k2 < k {
                            assert(rest@[k2] != '/');
                        }
                        if k2 > k {
                            assert(rest@[k as int] != '/');
                        }
                        assert(head@ =~= rest@.take(k as int));
                        assert(child@ == child_of(pv, fv[i as int]));
                        x = child@;
                    }
                    crate::text::insert_sorted(&mut seen, child);
                },
                None => {
                    proof {
                        assert(!rest@.contains('/'));
                        x = path@;
                    }
                    crate::text::insert_sorted(&mut seen, path.clone());
                },
            }
            assert(views(seen@).to_set() =~= Set::new(
                |c: Seq<char>| exists|j: int| 0 <= j < i + 1 && pv.is_prefix_of(#[trigger] fv[j]) && c == child_of(pv, fv[j]),
            )) by {
                assert(pv.is_prefix_of(fv[i as int]) && x == child_of(pv, fv[i as int]));
            }
        } else {
            assert(views(seen@).to_set() =~= Set::new(
                |c: Seq<char>| exists|j: int| 0 <= j < i + 1 && pv.is_prefix_of(#[trigger] fv[j]) && c == child_of(pv, fv[j]),
            ));
        }
        i += 1;
    }
    assert(fv.to_set() == string_views(listing@).to_set());
    assert(views(seen@).to_set() =~= children_spec(string_views(listing@).to_set(), pv)) by {
        assert forall|c: Seq<char>| #[trigger] children_spec(string_views(listing@).to_set(), pv).contains(c) implies views(seen@).to_set().contains(c) by {
            let p = choose|p: Seq<char>| #[trigger] string_views(listing@).to_set().contains(p) && pv.is_prefix_of(p) && c == child_of(pv, p);
            assert(fv.to_set().contains(p));
            let j = choose|j: int| 0 <= j < fv.len() && fv[j] == p;
            assert(pv.is_prefix_of(fv[j]) && c == child_of(pv, fv[j]));
        }
        assert forall|c: Seq<char>| views(seen@).to_set().contains(c) implies #[trigger] children_spec(string_views(listing@).to_set(), pv).contains(c) by {
            let j = choose|j: int| 0 <= j < fv.len() && pv.is_prefix_of(#[trigger] fv[j]) && c == child_of(pv, fv[j]);
            assert(fv.to_set().contains(fv[j]));
        }
    }
    to_strings(&seen)
}

/// Whether `r` is what the tree says of a path being there: a read that
/// gives text says yes, and otherwise whether a listed file lies under it.
pub open spec fn exists_as<T: Tree>(tree: T, path: Seq<char>, r: bool) -> bool {
    exists|raw: Result<Seq<char>, TreeFault>|
        #[trigger] tree.reads_as(path, raw) && if raw is Ok {
            r
        } else {
            exists|listing: Seq<Seq<char>>| #[trigger] tree.lists(listing) && r == holds_under(listing, path)
        }
}

/// Whether some listed file lies under `path` taken as a directory.
pub open spec fn holds_under(listing: Seq<Seq<char>>, path: Seq<char>) -> bool {
    exists|p: Seq<char>| #[trigger] listing.to_set().contains(p) && normalised(path).is_prefix_of(p)
}

/// Whether a path names a directory that holds one of the listed files.
pub fn directory_in(listing: &[String], path: &str) -> (r: bool)
    ensures
        r == holds_under(string_views(listing@), path@),
{
    let prefix = normalised_chars(&chars_of(path));
    let files = to_texts_of(listing);
    let ghost fv = views(files@);
    let mut i: usize = 0;
    while i < files.len()
        invariant
            i <= files.len(),
            fv == views(files@),
            fv.to_set() == string_views(listing@).to_set(),
            prefix@ == normalised(path@),
            forall|j: int| 0 <= j < i ==> !normalised(path@).is_prefix_of(#[trigger] fv[j]),
        decreases files.len() - i,
    {
        if crate::text::starts_with(&files[i], &prefix) {
            assert(fv[i as int] == files@[i as int]@);
            assert(fv.to_set().contains(fv[i as int]));
            assert(string_views(listing@).to_set().contains(fv[i as int]) && normalised(path@).is_prefix_of(fv[i as int]));
            return true;
        }
        i += 1;
    }
    assert forall|p: Seq<char>| #[trigger] string_views(listing@).to_set().contains(p) implies !normalised(path@).is_prefix_of(p) by {
        assert(fv.to_set().contains(p));
        let j = choose|j: int| 0 <= j < fv.len() && fv[j] == p;
    }
    false
}

/// What listing a tree's files gives: its written paths that are not
/// filesystem links.
pub open spec fn listed(v: MemoryView) -> Set<Seq<char>> {
    unlinked(v.files, v.links).to_set()
}

/// Every directory a tree holds: those its listed files imply, and each
/// stated empty directory with the directories above it.
pub open spec fn directories_spec(v: MemoryView) -> Set<Seq<char>> {
    all_ancestors(unlinked(v.files, v.links)).union(stated_directories(v.empty))
}

/// What reading a path without following a link gives back.
pub open spec fn read_no_follow_spec(v: MemoryView, path: Seq<char>) -> Result<Seq<char>, TreeFault> {
    let p = crate::text::strip_lead(path, '/');
    if v.links.contains(p) {
        Err(TreeFault::Unreadable(p + " is a symbolic link"@))
    } else {
        read_spec(v, p)
    }
}

/// What reading the hook's message file gives back.
pub open spec fn hook_spec(v: MemoryView, path: Seq<char>) -> Result<Seq<char>, TreeFault> {
    match v.hook {
        None => Err(TreeFault::Unreadable("the Git hook message-file boundary is unavailable"@)),
        Some(expected) => if path != expected {
            Err(TreeFault::Unreadable("the supplied path is not Git's canonical COMMIT_EDITMSG"@))
        } else {
            read_spec(v, path)
        },
    }
}

pub proof fn lemma_strip_lead_idempotent(s: Seq<char>, c: char)
    ensures
        crate::text::strip_lead(crate::text::strip_lead(s, c), c) == crate::text::strip_lead(s, c),
    decreases s.len(),
{
    if s.len() > 0 && s[0] == c {
        lemma_strip_lead_idempotent(s.drop_first(), c);
    }
}

impl MemoryTree {
    fn read_stripped(&self, p: &Vec<char>) -> (r: Result<String, TreeError>)
        ensures
            read_view(r) == read_spec(self@, p@),
    {
        let key = crate::text::trim_start_char(p, '/');
        if list_has(&self.unreadable, &key) {
            return Err(TreeError::Unreadable("permission denied".to_string()));
        }
        if list_has(&self.binary, &key) {
            return Err(TreeError::NotText);
        }
        if list_has(&self.vanished, &key) {
            return Err(TreeError::NotFound);
        }
        match lookup(&self.files, &key) {
            Some(c) => Ok(string_of(&c)),
            None => Err(TreeError::NotFound),
        }
    }

    fn listed_paths(&self) -> (r: Vec<Vec<char>>)
        ensures
            strictly_sorted(views(r@)),
            views(r@).to_set() == listed(self@),
    {
        let ghost fv = pair_views(self.files@);
        let ghost lv = views(self.links@);
        let mut r: Vec<Vec<char>> = Vec::new();
        let mut i: usize = 0;
        assert(views(r@).to_set() =~= unlinked(fv.take(0), lv).to_set());
        while i < self.files.len()
            invariant
                i <= self.files.len(),
                fv == pair_views(self.files@),
                lv == views(self.links@),
                strictly_sorted(views(r@)),
                views(r@).to_set() == unlinked(fv.take(i as int), lv).to_set(),
            decreases self.files.len() - i,
        {
            assert(fv.take(i + 1).drop_last() =~= fv.take(i as int));
            assert(fv.take(i + 1).last() == fv[i as int]);
            if !list_has(&self.links, &self.files[i].0) {
                crate::text::insert_sorted(&mut r, self.files[i].0.clone());
                proof {
                    unlinked(fv.take(i as int), lv).lemma_push_to_set_commute(fv[i as int].0);
                }
            }
            i += 1;
        }
        assert(fv.take(self.files.len() as int) =~= fv);
        r
    }
}

impl Tree for MemoryTree {
    open spec fn reads_as(&self, path: Seq<char>, answer: Result<Seq<char>, TreeFault>) -> bool {
        answer == read_spec(self@, path)
    }

    open spec fn lists(&self, listing: Seq<Seq<char>>) -> bool {
        strictly_sorted(listing) && listing.to_set() == listed(self@)
    }

    open spec fn roots_as(&self, path: Seq<char>, answer: Result<MemoryTree, Seq<char>>) -> bool {
        match answer {
            Ok(t) => rooted_spec(self@, path) == Ok::<MemoryView, Seq<char>>(t@),
            Err(m) => rooted_spec(self@, path) == Err::<MemoryView, Seq<char>>(m),
        }
    }

    fn read(&self, path: &str) -> (r: Result<String, TreeError>)
        ensures
            read_view(r) == read_spec(self@, path@),
    {
        self.read_stripped(&chars_of(path))
    }

    fn read_no_follow(&self, path: &str) -> (r: Result<String, TreeError>)
        ensures
            read_view(r) == read_no_follow_spec(self@, path@),
    {
        let p = crate::text::trim_start_char(&chars_of(path), '/');
        if list_has(&self.links, &p) {
            let mut m = p.clone();
            extend_str(&mut m, " is a symbolic link");
            return Err(TreeError::Unreadable(string_of(&m)));
        }
        proof {
            lemma_strip_lead_idempotent(path@, '/');
        }
        self.read_stripped(&p)
    }

    fn files(&self) -> (r: Vec<String>)
        ensures
            strictly_sorted(string_views(r@)),
            string_views(r@).to_set() == listed(self@),
    {
        to_strings(&self.listed_paths())
    }

    fn indexed_files(&self) -> (r: Result<Vec<String>, String>)
        ensures
            match r {
                Ok(v) => self@.indexed == Some(string_views(v@)),
                Err(m) => self@.indexed is None && m@ == "this tree has no Git index snapshot boundary"@,
            },
    {
        match &self.indexed {
            Some(x) => Ok(to_strings(x)),
            None => Err("this tree has no Git index snapshot boundary".to_string()),
        }
    }

    fn changed_files(&self, base: &str, head: &str) -> (r: Result<Vec<String>, String>)
        ensures
            match r {
                Ok(v) => held_range(self@.changed, base@, head@) == Some(string_views(v@)),
                Err(m) => held_range(self@.changed, base@, head@) is None && m@
                    == "this tree has no changed-file range boundary"@,
            },
    {
        match lookup_range(&self.changed_files, &chars_of(base), &chars_of(head)) {
            Some(x) => Ok(to_strings(&x)),
            None => Err("this tree has no changed-file range boundary".to_string()),
        }
    }

    fn resolve_git_ref(&self, reference: &str) -> (r: Result<String, String>)
        ensures
            match r {
                Ok(c) => held(self@.refs, reference@) == Some(c@),
                Err(m) => held(self@.refs, reference@) is None && m@ == "the declared fallback ref `"@
                    + reference@ + "` does not resolve"@,
            },
    {
        match lookup(&self.git_refs, &chars_of(reference)) {
            Some(c) => Ok(string_of(&c)),
            None => {
                let mut m = chars_of("the declared fallback ref `");
                extend_str(&mut m, reference);
                extend_str(&mut m, "` does not resolve");
                Err(string_of(&m))
            },
        }
    }

    fn commit_messages(&self, base: &str, head: &str) -> (r: Result<String, String>)
        ensures
            match r {
                Ok(c) => held_range(self@.messages, base@, head@) == Some(c@),
                Err(m) => held_range(self@.messages, base@, head@) is None && m@
                    == "this tree has no commit-message range boundary"@,
            },
    {
        match lookup_message(&self.commit_messages, &chars_of(base), &chars_of(head)) {
            Some(c) => Ok(string_of(&c)),
            None => Err("this tree has no commit-message range boundary".to_string()),
        }
    }

    fn hook_message_file(&self, path: &str) -> (r: Result<String, TreeError>)
        ensures
            read_view(r) == hook_spec(self@, path@),
    {
        match &self.hook_message_file {
            None => Err(TreeError::Unreadable("the Git hook message-file boundary is unavailable".to_string())),
            Some(expected) => {
                let p = chars_of(path);
                if !crate::text::same(&p, expected) {
                    return Err(TreeError::Unreadable("the supplied path is not Git's canonical COMMIT_EDITMSG".to_string()));
                }
                self.read_stripped(&p)
            },
        }
    }

    fn directories(&self) -> (r: Vec<String>)
        ensures
            strictly_sorted(string_views(r@)),
            string_views(r@).to_set() == directories_spec(self@),
    {
        let ghost fv = pair_views(self.files@);
        let ghost lv = views(self.links@);
        let mut found: Vec<Vec<char>> = Vec::new();
        let mut i: usize = 0;
        assert(views(found@).to_set() =~= all_ancestors(unlinked(fv.take(0), lv)));
        while i < self.files.len()
            invariant
                i <= self.files.len(),
                fv == pair_views(self.files@),
                lv == views(self.links@),
                strictly_sorted(views(found@)),
                views(found@).to_set() == all_ancestors(unlinked(fv.take(i as int), lv)),
            decreases self.files.len() - i,
        {
            assert(fv.take(i + 1).drop_last() =~= fv.take(i as int));
            assert(fv.take(i + 1).last() == fv[i as int]);
            let key = &self.files[i].0;
            if !list_has(&self.links, key) {
                let segs = crate::text::split(key, '/');
                proof {
                    crate::text::lemma_split_nonempty(key@, '/');
                }
                add_prefixes(&mut found, &segs, segs.len() - 1);
                proof {
                    let u = unlinked(fv.take(i as int), lv);
                    assert(u.push(key@).drop_last() =~= u);
                }
            }
            i += 1;
        }
        assert(fv.take(self.files.len() as int) =~= fv);
        let ghost base = views(found@).to_set();
        let ghost ev = views(self.empty@);
        let mut j: usize = 0;
        assert(base.union(stated_directories(ev.take(0))) =~= base);
        while j < self.empty.len()
            invariant
                j <= self.empty.len(),
                ev == views(self.empty@),
                strictly_sorted(views(found@)),
                views(found@).to_set() == base.union(stated_directories(ev.take(j as int))),
            decreases self.empty.len() - j,
        {
            assert(ev.take(j + 1).drop_last() =~= ev.take(j as int));
            assert(ev.take(j + 1).last() == ev[j as int]);
            let segs = crate::text::split(&self.empty[j], '/');
            add_prefixes(&mut found, &segs, segs.len());
            proof {
                let a = stated_directories(ev.take(j as int));
                let b = prefixes(split_spec(ev[j as int], '/'), split_spec(ev[j as int], '/').len() as int);
                assert(base.union(a).union(b) =~= base.union(a.union(b)));
            }
            j += 1;
        }
        assert(ev.take(self.empty.len() as int) =~= ev);
        let listing = self.listed_paths();
        proof {
            assert(self@.files == fv && self@.links == lv);
            lemma_all_ancestors_set(views(listing@), unlinked(fv, lv));
            assert(self.lists(views(listing@)));
        }
        to_strings(&found)
    }

    fn excluding(&self, directories: &[String]) -> (r: MemoryTree)
        ensures
            r@ == self@,
    {
        self.duplicate()
    }

    fn rooted_at(&self, path: &str) -> (r: Result<MemoryTree, String>)
        ensures
            match r {
                Ok(t) => rooted_spec(self@, path@) == Ok::<MemoryView, Seq<char>>(t@),
                Err(m) => rooted_spec(self@, path@) == Err::<MemoryView, Seq<char>>(m@),
            },
    {
        let prefix = normalised_chars(&chars_of(path));
        if prefix.len() == 0 {
            return Ok(self.duplicate());
        }
        let ghost fv = pair_views(self.files@);
        let mut i: usize = 0;
        let mut any = false;
        while i < self.files.len()
            invariant
                i <= self.files.len(),
                fv == pair_views(self.files@),
                any == exists|j: int| 0 <= j < i && prefix@.is_prefix_of(#[trigger] fv[j].0),
            decreases self.files.len() - i,
        {
            let here = crate::text::starts_with(&self.files[i].0, &prefix);
            assert(fv[i as int].0 == self.files@[i as int].0@);
            if here {
                any = true;
            }
            i += 1;
            proof {
                if here {
                    assert(prefix@.is_prefix_of(fv[i - 1].0));
                } else {
                    assert forall|j: int| 0 <= j < i && prefix@.is_prefix_of(#[trigger] fv[j].0) implies j < i - 1 by {}
                }
            }
        }
        if !any {
            let mut m = chars_of(path);
            extend_str(&mut m, " is not a directory");
            return Err(string_of(&m));
        }
        let t = MemoryTree {
            files: strip_pairs_under(&self.files, &prefix),
            unreadable: strip_list_under(&self.unreadable, &prefix),
            vanished: strip_list_under(&self.vanished, &prefix),
            binary: strip_list_under(&self.binary, &prefix),
            links: strip_list_under(&self.links, &prefix),
            empty: strip_list_under(&self.empty, &prefix),
            indexed: match &self.indexed {
                Some(x) => Some(strip_list_under(x, &prefix)),
                None => None,
            },
            changed_files: strip_ranges_under(&self.changed_files, &prefix),
            git_refs: copy_pairs(&self.git_refs),
            commit_messages: copy_messages(&self.commit_messages),
            hook_message_file: match &self.hook_message_file {
                Some(h) => Some(h.clone()),
                None => None,
            },
        };
        assert(t@ =~= rerooted(self@, prefix@));
        Ok(t)
    }
}

} // verus!

verus! {

/// The first path of a list that is not a normal repository path.
pub open spec fn first_abnormal(ps: Seq<Seq<char>>) -> Option<Seq<char>>
    decreases ps.len(),
{
    if ps.len() == 0 {
        None
    } else if normal_path(ps[0]) is None {
        Some(ps[0])
    } else {
        first_abnormal(ps.drop_first())
    }
}

/// The normal forms of a list of paths.
pub open spec fn normals(ps: Seq<Seq<char>>) -> Seq<Seq<char>> {
    Seq::new(ps.len(), |i: int| normal_path(ps[i])->0)
}

/// Whether some path of an ascending list lies beneath the one before it.
pub open spec fn nested_neighbours(s: Seq<Seq<char>>) -> bool {
    exists|i: int| 0 <= i < s.len() - 1 && under(#[trigger] s[i + 1], s[i])
}

/// Whether a path lies beneath any of the roots.
pub open spec fn under_any(p: Seq<char>, roots: Seq<Seq<char>>) -> bool {
    exists|j: int| 0 <= j < roots.len() && under(p, #[trigger] roots[j])
}

/// Normalizes every path into a strictly ascending list, or names the first
/// one that is not a normal repository path.
fn normalise_all(ps: &[String]) -> (r: Result<Vec<Vec<char>>, Vec<char>>)
    ensures
        match r {
            Ok(v) => first_abnormal(string_views(ps@)) is None && strictly_sorted(views(v@)) && views(v@).to_set()
                == normals(string_views(ps@)).to_set(),
            Err(x) => first_abnormal(string_views(ps@)) == Some(x@),
        },
{
    let ghost pv = string_views(ps@);
    let mut norm: Vec<Vec<char>> = Vec::new();
    let mut i: usize = 0;
    assert(pv.skip(0) =~= pv);
    assert(views(norm@).to_set() =~= normals(pv.take(0)).to_set());
    while i < ps.len()
        invariant
            i <= ps.len(),
            pv == string_views(ps@),
            first_abnormal(pv) == first_abnormal(pv.skip(i as int)),
            forall|j: int| 0 <= j < i ==> normal_path(#[trigger] pv[j]) is Some,
            strictly_sorted(views(norm@)),
            views(norm@).to_set() == normals(pv.take(i as int)).to_set(),
        decreases ps.len() - i,
    {
        let raw = chars_of(ps[i].as_str());
        assert(pv.skip(i as int)[0] == raw@);
        assert(pv.skip(i as int).drop_first() =~= pv.skip(i + 1));
        match normal_chars(&raw) {
            None => {
                return Err(raw);
            },
            Some(p) => {
                crate::text::insert_sorted(&mut norm, p);
                proof {
                    assert(normals(pv.take(i + 1)) =~= normals(pv.take(i as int)).push(p@));
                    normals(pv.take(i as int)).lemma_push_to_set_commute(p@);
                }
            },
        }
        i += 1;
    }
    assert(pv.skip(ps.len() as int) =~= Seq::<Seq<char>>::empty());
    assert(pv.take(ps.len() as int) =~= pv);
    Ok(norm)
}

/// Normalizes the declared adapter families and refuses any that repeat or
/// that sit directly beneath the one before them in order.
pub fn adapter_roots(roots: &[String]) -> (r: Result<Vec<String>, AdapterError>)
    ensures
        match r {
            Ok(v) => {
                &&& first_abnormal(string_views(roots@)) is None
                &&& strictly_sorted(string_views(v@))
                &&& string_views(v@).to_set() == normals(string_views(roots@)).to_set()
                &&& v.len() == roots.len()
                &&& !nested_neighbours(string_views(v@))
            },
            Err(e) => match first_abnormal(string_views(roots@)) {
                Some(x) => e.0@ == "invalid adapter root `"@ + x + "`"@,
                None => e.0@ == "adapter roots must be distinct, non-overlapping repository paths"@ && exists|
                    l: Seq<Seq<char>>,
                |
                    #[trigger] strictly_sorted(l) && l.to_set() == normals(string_views(roots@)).to_set() && (
                    l.len() != roots.len() || nested_neighbours(l)),
            },
        },
{
    let norm = match normalise_all(roots) {
        Err(raw) => {
            let mut m = chars_of("invalid adapter root `");
            extend(&mut m, &raw);
            extend_str(&mut m, "`");
            return Err(AdapterError(string_of(&m)));
        },
        Ok(v) => v,
    };
    let ghost nv = views(norm@);
    if norm.len() != roots.len() {
        assert(strictly_sorted(nv));
        return Err(AdapterError("adapter roots must be distinct, non-overlapping repository paths".to_string()));
    }
    let ghost rv = string_views(roots@);
    let mut k: usize = 0;
    while k < norm.len()
        invariant
            k <= norm.len(),
            nv == views(norm@),
            rv == string_views(roots@),
            strictly_sorted(nv),
            nv.to_set() == normals(rv).to_set(),
            first_abnormal(rv) is None,
            norm.len() == roots.len(),
            forall|j: int| 0 <= j < k && j + 1 < nv.len() ==> !under(#[trigger] nv[j + 1], nv[j]),
        decreases norm.len() - k,
    {
        if k + 1 < norm.len() && is_under(&norm[k + 1], &norm[k]) {
            assert(under(nv[k + 1], nv[k as int]));
            return Err(AdapterError("adapter roots must be distinct, non-overlapping repository paths".to_string()));
        }
        k += 1;
    }
    Ok(to_strings(&norm))
}

} // verus!

verus! {

fn under_any_root(p: &Vec<char>, roots: &[String]) -> (r: bool)
    ensures
        r == under_any(p@, string_views(roots@)),
{
    let ghost rv = string_views(roots@);
    let mut j: usize = 0;
    while j < roots.len()
        invariant
            j <= roots.len(),
            rv == string_views(roots@),
            forall|k: int| 0 <= k < j ==> !under(p@, #[trigger] rv[k]),
        decreases roots.len() - j,
    {
        let root = chars_of(roots[j].as_str());
        if is_under(p, &root) {
            assert(under(p@, rv[j as int]));
            return true;
        }
        j += 1;
    }
    false
}

/// Normalizes individually managed adapter files and refuses any that repeat
/// or that a replaceable family already covers.
pub fn adapter_exact_paths(roots: &[String], exact_paths: &[String]) -> (r: Result<Vec<String>, AdapterError>)
    ensures
        match r {
            Ok(v) => {
                &&& first_abnormal(string_views(exact_paths@)) is None
                &&& strictly_sorted(string_views(v@))
                &&& string_views(v@).to_set() == normals(string_views(exact_paths@)).to_set()
                &&& v.len() == exact_paths.len()
                &&& forall|i: int| 0 <= i < v.len() ==> !under_any(#[trigger] string_views(v@)[i], string_views(roots@))
            },
            Err(e) => match first_abnormal(string_views(exact_paths@)) {
                Some(x) => e.0@ == "invalid exact adapter path `"@ + x + "`"@,
                None => e.0@ == "exact adapter paths must be distinct and outside every adapter root"@ && exists|
                    l: Seq<Seq<char>>,
                |
                    #[trigger] strictly_sorted(l) && l.to_set() == normals(string_views(exact_paths@)).to_set() && (
                    l.len() != exact_paths.len() || exists|i: int| 0 <= i < l.len() && under_any(#[trigger] l[i], string_views(roots@))),
            },
        },
{
    let norm = match normalise_all(exact_paths) {
        Err(raw) => {
            let mut m = chars_of("invalid exact adapter path `");
            extend(&mut m, &raw);
            extend_str(&mut m, "`");
            return Err(AdapterError(string_of(&m)));
        },
        Ok(v) => v,
    };
    let ghost nv = views(norm@);
    let ghost ev = string_views(exact_paths@);
    if norm.len() != exact_paths.len() {
        return Err(AdapterError("exact adapter paths must be distinct and outside every adapter root".to_string()));
    }
    let mut k: usize = 0;
    while k < norm.len()
        invariant
            k <= norm.len(),
            nv == views(norm@),
            ev == string_views(exact_paths@),
            strictly_sorted(nv),
            nv.to_set() == normals(ev).to_set(),
            first_abnormal(ev) is None,
            norm.len() == exact_paths.len(),
            forall|j: int| 0 <= j < k ==> !under_any(#[trigger] nv[j], string_views(roots@)),
        decreases norm.len() - k,
    {
        if under_any_root(&norm[k], roots) {
            assert(under_any(nv[k as int], string_views(roots@)));
            return Err(AdapterError("exact adapter paths must be distinct and outside every adapter root".to_string()));
        }
        k += 1;
    }
    assert(k == norm.len());
    assert(forall|j: int| 0 <= j < nv.len() ==> !under_any(#[trigger] nv[j], string_views(roots@)));
    let out = to_strings(&norm);
    assert forall|i: int| 0 <= i < out.len() implies !under_any(#[trigger] string_views(out@)[i], string_views(roots@)) by {
        assert(string_views(out@)[i] == nv[i]);
    }
    Ok(out)
}

pub open spec fn adapter_file_views(fs: Seq<AdapterFile>) -> Seq<(Seq<char>, Seq<char>)> {
    Seq::new(fs.len(), |i: int| (fs[i].path@, fs[i].contents@))
}

/// The first reason a list of generated files cannot be written, given the
/// paths already claimed.
pub open spec fn files_verdict(
    roots: Seq<Seq<char>>,
    exact: Seq<Seq<char>>,
    fs: Seq<(Seq<char>, Seq<char>)>,
    seen: Set<Seq<char>>,
) -> Option<Seq<char>>
    decreases fs.len(),
{
    if fs.len() == 0 {
        None
    } else {
        match normal_path(fs[0].0) {
            None => Some("invalid generated adapter path `"@ + fs[0].0 + "`"@),
            Some(p) => if !under_any(p, roots) && !exact.contains(p) {
                Some("generated adapter path `"@ + p + "` is outside every declared adapter family or exact path"@)
            } else if seen.contains(p) {
                Some("duplicate generated adapter path `"@ + p + "`"@)
            } else {
                files_verdict(roots, exact, fs.drop_first(), seen.insert(p))
            },
        }
    }
}

/// The paths of a list of files.
pub open spec fn paths_of(fs: Seq<(Seq<char>, Seq<char>)>) -> Seq<Seq<char>> {
    Seq::new(fs.len(), |i: int| fs[i].0)
}

/// The generated files, with their paths normalized.
pub open spec fn normal_files(fs: Seq<(Seq<char>, Seq<char>)>) -> Seq<(Seq<char>, Seq<char>)> {
    Seq::new(fs.len(), |i: int| (normal_path(fs[i].0)->0, fs[i].1))
}

/// Checks generated files against the families and exact paths they may
/// replace: each must be a normal path inside one of them and appear once,
/// and every exact path must be generated.
pub fn adapter_files(roots: &[String], exact_paths: &[String], files: &[AdapterFile]) -> (r: Result<Vec<AdapterFile>, AdapterError>)
    ensures
        match files_verdict(string_views(roots@), string_views(exact_paths@), adapter_file_views(files@), Set::empty()) {
            Some(m) => r matches Err(e) && e.0@ == m,
            None => {
                let produced = normal_files(adapter_file_views(files@));
                if exists|i: int| 0 <= i < exact_paths.len() && !paths_of(produced).contains(#[trigger] string_views(exact_paths@)[i]) {
                    r matches Err(e) && e.0@ == "every exact adapter path must have generated bytes"@
                } else {
                    r matches Ok(v) && adapter_file_views(v@) == produced
                }
            },
        },
{
    let ghost rv = string_views(roots@);
    let ghost ev = string_views(exact_paths@);
    let ghost fv = adapter_file_views(files@);
    let mut desired: Vec<AdapterFile> = Vec::new();
    let mut seen: Vec<Vec<char>> = Vec::new();
    let mut i: usize = 0;
    assert(fv.skip(0) =~= fv);
    assert(views(seen@).to_set() =~= Set::<Seq<char>>::empty());
    while i < files.len()
        invariant
            i <= files.len(),
            rv == string_views(roots@),
            ev == string_views(exact_paths@),
            fv == adapter_file_views(files@),
            files_verdict(rv, ev, fv, Set::empty()) == files_verdict(rv, ev, fv.skip(i as int), views(seen@).to_set()),
            adapter_file_views(desired@) == normal_files(fv.take(i as int)),
            views(seen@) == paths_of(normal_files(fv.take(i as int))),
            forall|j: int| 0 <= j < i ==> normal_path(#[trigger] fv[j].0) is Some,
        decreases files.len() - i,
    {
        let raw = chars_of(files[i].path.as_str());
        assert(fv.skip(i as int)[0] == fv[i as int]);
        assert(fv.skip(i as int).drop_first() =~= fv.skip(i + 1));
        let p = match normal_chars(&raw) {
            None => {
                let mut m = chars_of("invalid generated adapter path `");
                extend(&mut m, &raw);
                extend_str(&mut m, "`");
                return Err(AdapterError(string_of(&m)));
            },
            Some(p) => p,
        };
        if !under_any_root(&p, roots) && !list_has(&to_texts_of(exact_paths), &p) {
            let mut m = chars_of("generated adapter path `");
            extend(&mut m, &p);
            extend_str(&mut m, "` is outside every declared adapter family or exact path");
            return Err(AdapterError(string_of(&m)));
        }
        if list_has(&seen, &p) {
            let mut m = chars_of("duplicate generated adapter path `");
            extend(&mut m, &p);
            extend_str(&mut m, "`");
            return Err(AdapterError(string_of(&m)));
        }
        let contents = files[i].contents.clone();
        let ghost before_d = adapter_file_views(desired@);
        let ghost before_s = views(seen@);
        let path = string_of(&p);
        desired.push(AdapterFile { path, contents });
        seen.push(p.clone());
        proof {
            assert(adapter_file_views(desired@) =~= before_d.push((p@, files@[i as int].contents@)));
            assert(normal_files(fv.take(i + 1)) =~= normal_files(fv.take(i as int)).push((p@, fv[i as int].1)));
            assert(views(seen@) =~= before_s.push(p@));
            assert(views(seen@) =~= paths_of(normal_files(fv.take(i + 1))));
            before_s.lemma_push_to_set_commute(p@);
        }
        i += 1;
    }
    assert(fv.skip(files.len() as int) =~= Seq::<(Seq<char>, Seq<char>)>::empty());
    assert(fv.take(files.len() as int) =~= fv);
    let ghost produced = normal_files(fv);
    let mut k: usize = 0;
    while k < exact_paths.len()
        invariant
            k <= exact_paths.len(),
            ev == string_views(exact_paths@),
            rv == string_views(roots@),
            fv == adapter_file_views(files@),
            produced == normal_files(fv),
            files_verdict(rv, ev, fv, Set::empty()) is None,
            adapter_file_views(desired@) == produced,
            views(seen@) == paths_of(produced),
            forall|j: int| 0 <= j < k ==> paths_of(produced).contains(#[trigger] ev[j]),
        decreases exact_paths.len() - k,
    {
        let e = chars_of(exact_paths[k].as_str());
        if !list_has(&seen, &e) {
            assert(!(paths_of(produced)).contains(ev[k as int]));
            return Err(AdapterError("every exact adapter path must have generated bytes".to_string()));
        }
        k += 1;
    }
    Ok(desired)
}

fn to_texts_of(v: &[String]) -> (r: Vec<Vec<char>>)
    ensures
        views(r@) == string_views(v@),
{
    let mut r: Vec<Vec<char>> = Vec::new();
    let mut i: usize = 0;
    while i < v.len()
        invariant
            i <= v.len(),
            views(r@) == string_views(v@).take(i as int),
        decreases v.len() - i,
    {
        let c = chars_of(v[i].as_str());
        let ghost before = views(r@);
        r.push(c);
        assert(views(r@) =~= before.push(c@));
        i += 1;
        assert(views(r@) =~= string_views(v@).take(i as int));
    }
    assert(string_views(v@).take(v.len() as int) =~= string_views(v@));
    r
}

} // verus!

verus! {

/// The entries of a file log that no replaced family or exact path covers.
pub open spec fn kept(f: Seq<(Seq<char>, Seq<char>)>, roots: Seq<Seq<char>>, exact: Seq<Seq<char>>) -> Seq<(Seq<char>, Seq<char>)>
    decreases f.len(),
{
    if f.len() == 0 {
        Seq::empty()
    } else {
        let rest = kept(f.drop_last(), roots, exact);
        if !under_any(f.last().0, roots) && !exact.contains(f.last().0) {
            rest.push(f.last())
        } else {
            rest
        }
    }
}

/// Whether `l` is the declared adapter roots made normal, each once, in
/// path order, none inside another.
pub open spec fn roots_fit(roots: Seq<Seq<char>>, l: Seq<Seq<char>>) -> bool {
    &&& first_abnormal(roots) is None
    &&& strictly_sorted(l)
    &&& l.to_set() == normals(roots).to_set()
    &&& l.len() == roots.len()
    &&& !nested_neighbours(l)
}

/// Whether `l` is the declared exact paths made normal, each once, in path
/// order, none inside one of the roots `rl`.
pub open spec fn exact_fit(exact: Seq<Seq<char>>, rl: Seq<Seq<char>>, l: Seq<Seq<char>>) -> bool {
    &&& first_abnormal(exact) is None
    &&& strictly_sorted(l)
    &&& l.to_set() == normals(exact).to_set()
    &&& l.len() == exact.len()
    &&& forall|i: int| 0 <= i < l.len() ==> !under_any(#[trigger] l[i], rl)
}

/// Whether the generated files fit the normal roots and exact paths, and
/// give every exact path its bytes.
pub open spec fn files_fit(rl: Seq<Seq<char>>, el: Seq<Seq<char>>, files: Seq<(Seq<char>, Seq<char>)>) -> bool {
    &&& files_verdict(rl, el, files, Set::empty()) is None
    &&& forall|i: int| 0 <= i < el.len() ==> paths_of(normal_files(files)).contains(#[trigger] el[i])
}

/// Whether an adapter transaction can be applied: its roots, its exact
/// paths and its files all fit.
pub open spec fn adapter_accepts(roots: Seq<Seq<char>>, exact: Seq<Seq<char>>, files: Seq<(Seq<char>, Seq<char>)>) -> bool {
    exists|rl: Seq<Seq<char>>, el: Seq<Seq<char>>|
        #![trigger roots_fit(roots, rl), exact_fit(exact, rl, el)]
        roots_fit(roots, rl) && exact_fit(exact, rl, el) && files_fit(rl, el, files)
}

/// The in-memory adapter store: it replaces declared families inside the tree
/// it holds.
pub struct MemoryAdapterStore {
    tree: MemoryTree,
}

impl MemoryAdapterStore {
    pub fn new(tree: MemoryTree) -> (r: MemoryAdapterStore)
        ensures
            r.tree()@ == tree@,
    {
        MemoryAdapterStore { tree }
    }

    pub closed spec fn tree(&self) -> MemoryTree {
        self.tree
    }

    /// The tree as the store has left it.
    pub fn held(&self) -> (r: &MemoryTree)
        ensures
            r@ == self.tree()@,
    {
        &self.tree
    }
}

impl AdapterStore for MemoryAdapterStore {
    fn replace(&mut self, _root: &str, transaction: &AdapterTransaction) -> (r: Result<(), AdapterError>)
        ensures
            r is Ok <==> adapter_accepts(
                string_views(transaction.roots@),
                string_views(transaction.exact_paths@),
                adapter_file_views(transaction.files@),
            ),
            match r {
                Ok(()) => exists|roots: Seq<Seq<char>>, exact: Seq<Seq<char>>|
                    {
                        &&& #[trigger] strictly_sorted(roots)
                        &&& roots.to_set() == normals(string_views(transaction.roots@)).to_set()
                        &&& #[trigger] strictly_sorted(exact)
                        &&& exact.to_set() == normals(string_views(transaction.exact_paths@)).to_set()
                        &&& final(self).tree()@ == (MemoryView {
                            files: kept(old(self).tree()@.files, roots, exact) + normal_files(
                                adapter_file_views(transaction.files@),
                            ),
                            ..old(self).tree()@
                        })
                    },
                Err(_) => final(self).tree()@ == old(self).tree()@,
            },
    {
        let ghost rs = string_views(transaction.roots@);
        let ghost es = string_views(transaction.exact_paths@);
        let ghost fs = adapter_file_views(transaction.files@);
        let roots = match adapter_roots(&transaction.roots) {
            Ok(v) => v,
            Err(e) => {
                proof {
                    if adapter_accepts(rs, es, fs) {
                        let (rl, el) = choose|rl: Seq<Seq<char>>, el: Seq<Seq<char>>|
                            roots_fit(rs, rl) && exact_fit(es, rl, el) && files_fit(rl, el, fs);
                        let l = choose|l: Seq<Seq<char>>|
                            #[trigger] strictly_sorted(l) && l.to_set() == normals(rs).to_set() && (l.len() != rs.len()
                                || nested_neighbours(l));
                        crate::text::lemma_sorted_unique(l, rl);
                    }
                }
                return Err(e);
            },
        };
        let ghost rv = string_views(roots@);
        let exact = match adapter_exact_paths(&roots, &transaction.exact_paths) {
            Ok(v) => v,
            Err(e) => {
                proof {
                    if adapter_accepts(rs, es, fs) {
                        let (rl, el) = choose|rl: Seq<Seq<char>>, el: Seq<Seq<char>>|
                            roots_fit(rs, rl) && exact_fit(es, rl, el) && files_fit(rl, el, fs);
                        crate::text::lemma_sorted_unique(rl, rv);
                        let l = choose|l: Seq<Seq<char>>|
                            #[trigger] strictly_sorted(l) && l.to_set() == normals(es).to_set() && (l.len() != es.len()
                                || exists|i: int| 0 <= i < l.len() && under_any(#[trigger] l[i], rv));
                        crate::text::lemma_sorted_unique(l, el);
                    }
                }
                return Err(e);
            },
        };
        let ghost ev = string_views(exact@);
        let files = match adapter_files(&roots, &exact, &transaction.files) {
            Ok(v) => v,
            Err(e) => {
                proof {
                    if adapter_accepts(rs, es, fs) {
                        let (rl, el) = choose|rl: Seq<Seq<char>>, el: Seq<Seq<char>>|
                            roots_fit(rs, rl) && exact_fit(es, rl, el) && files_fit(rl, el, fs);
                        crate::text::lemma_sorted_unique(rl, rv);
                        crate::text::lemma_sorted_unique(el, ev);
                        assert(files_fit(rv, ev, fs));
                    }
                }
                return Err(e);
            },
        };
        assert(roots_fit(rs, rv) && exact_fit(es, rv, ev) && files_fit(rv, ev, fs));
        let exact_texts = to_texts_of(&exact);
        let ghost old_files = pair_views(self.tree.files@);
        let mut next: Vec<(Vec<char>, Vec<char>)> = Vec::new();
        let mut i: usize = 0;
        while i < self.tree.files.len()
            invariant
                i <= self.tree.files.len(),
                old_files == pair_views(self.tree.files@),
                rv == string_views(roots@),
                views(exact_texts@) == ev,
                pair_views(next@) == kept(old_files.take(i as int), rv, ev),
            decreases self.tree.files.len() - i,
        {
            assert(old_files.take(i + 1).drop_last() =~= old_files.take(i as int));
            assert(old_files.take(i + 1).last() == old_files[i as int]);
            let key = &self.tree.files[i].0;
            if !under_any_root(key, &roots) && !list_has(&exact_texts, key) {
                let a = key.clone();
                let b = self.tree.files[i].1.clone();
                let ghost before = pair_views(next@);
                next.push((a, b));
                assert(pair_views(next@) =~= before.push((a@, b@)));
            }
            i += 1;
        }
        assert(old_files.take(self.tree.files.len() as int) =~= old_files);
        let ghost base = pair_views(next@);
        let ghost produced = adapter_file_views(files@);
        let mut j: usize = 0;
        while j < files.len()
            invariant
                j <= files.len(),
                produced == adapter_file_views(files@),
                pair_views(next@) == base + produced.take(j as int),
            decreases files.len() - j,
        {
            let a = chars_of(files[j].path.as_str());
            let b = chars_of(files[j].contents.as_str());
            let ghost before = pair_views(next@);
            next.push((a, b));
            assert(pair_views(next@) =~= before.push((a@, b@)));
            j += 1;
            assert(produced.take(j as int) =~= produced.take(j - 1).push(produced[j - 1]));
            assert(pair_views(next@) =~= base + produced.take(j as int));
        }
        assert(produced.take(files.len() as int) =~= produced);
        let ghost before_tree = self.tree@;
        self.tree.files = next;
        assert(self.tree@ =~= MemoryView { files: base + produced, ..before_tree });
        Ok(())
    }
}

/// The first reason a list of environment targets cannot be written into a
/// file log: a path that is not normal, or one already present that the
/// entry may not replace.
pub open spec fn environment_verdict(
    files: Seq<(Seq<char>, Seq<char>, bool)>,
    current: Seq<(Seq<char>, Seq<char>)>,
) -> Option<Seq<char>>
    decreases files.len(),
{
    if files.len() == 0 {
        None
    } else {
        match normal_path(files[0].0) {
            None => Some("invalid environment target `"@ + files[0].0 + "`"@),
            Some(p) => if held(current, p) is Some && !files[0].2 {
                Some("environment target `"@ + p + "` already exists"@)
            } else {
                environment_verdict(files.drop_first(), current)
            },
        }
    }
}

pub open spec fn created_views(fs: Seq<EnvironmentFile>) -> Seq<(Seq<char>, Seq<char>, bool)> {
    Seq::new(fs.len(), |i: int| (fs[i].path@, fs[i].contents@, false))
}

pub open spec fn restored_views(fs: Seq<EnvironmentRestoreFile>) -> Seq<(Seq<char>, Seq<char>, bool)> {
    Seq::new(fs.len(), |i: int| (fs[i].path@, fs[i].contents@, fs[i].replace))
}

pub open spec fn written_views(fs: Seq<(Seq<char>, Seq<char>, bool)>) -> Seq<(Seq<char>, Seq<char>)> {
    Seq::new(fs.len(), |i: int| (fs[i].0, fs[i].1))
}

/// The in-memory environment store: it writes declared targets into the tree
/// it holds.
pub struct MemoryEnvironmentStore {
    tree: MemoryTree,
}

impl MemoryEnvironmentStore {
    pub fn new(tree: MemoryTree) -> (r: MemoryEnvironmentStore)
        ensures
            r.tree()@ == tree@,
    {
        MemoryEnvironmentStore { tree }
    }

    pub closed spec fn tree(&self) -> MemoryTree {
        self.tree
    }

    /// The tree as the store has left it.
    pub fn held(&self) -> (r: &MemoryTree)
        ensures
            r@ == self.tree()@,
    {
        &self.tree
    }

    /// Checks every target, then writes them all, or none.
    fn write_all(&mut self, entries: Vec<(Vec<char>, Vec<char>, bool)>) -> (r: Result<(), EnvironmentError>)
        ensures
            match environment_verdict(message_flag_views(entries@), old(self).tree()@.files) {
                Some(m) => r matches Err(e) && e.0@ == m && final(self).tree()@ == old(self).tree()@,
                None => r is Ok && final(self).tree()@ == (MemoryView {
                    files: old(self).tree()@.files + written_views(message_flag_views(entries@)),
                    ..old(self).tree()@
                }),
            },
    {
        let ghost ev = message_flag_views(entries@);
        let ghost cur = pair_views(self.tree.files@);
        let mut i: usize = 0;
        assert(ev.skip(0) =~= ev);
        while i < entries.len()
            invariant
                i <= entries.len(),
                ev == message_flag_views(entries@),
                cur == pair_views(self.tree.files@),
                environment_verdict(ev, cur) == environment_verdict(ev.skip(i as int), cur),
            decreases entries.len() - i,
        {
            assert(ev.skip(i as int)[0] == ev[i as int]);
            assert(ev.skip(i as int).drop_first() =~= ev.skip(i + 1));
            match normal_chars(&entries[i].0) {
                None => {
                    let mut m = chars_of("invalid environment target `");
                    extend(&mut m, &entries[i].0);
                    extend_str(&mut m, "`");
                    return Err(EnvironmentError(string_of(&m)));
                },
                Some(p) => {
                    if lookup(&self.tree.files, &p).is_some() && !entries[i].2 {
                        let mut m = chars_of("environment target `");
                        extend(&mut m, &p);
                        extend_str(&mut m, "` already exists");
                        return Err(EnvironmentError(string_of(&m)));
                    }
                },
            }
            i += 1;
        }
        assert(ev.skip(entries.len() as int) =~= Seq::<(Seq<char>, Seq<char>, bool)>::empty());
        let ghost before_tree = self.tree@;
        let ghost wv = written_views(ev);
        let mut j: usize = 0;
        while j < entries.len()
            invariant
                j <= entries.len(),
                ev == message_flag_views(entries@),
                wv == written_views(ev),
                pair_views(self.tree.files@) == before_tree.files + wv.take(j as int),
                self.tree@ == (MemoryView { files: pair_views(self.tree.files@), ..before_tree }),
            decreases entries.len() - j,
        {
            let a = entries[j].0.clone();
            let b = entries[j].1.clone();
            let ghost before = pair_views(self.tree.files@);
            self.tree.files.push((a, b));
            assert(pair_views(self.tree.files@) =~= before.push((a@, b@)));
            j += 1;
            assert(wv.take(j as int) =~= wv.take(j - 1).push(wv[j - 1]));
            assert(pair_views(self.tree.files@) =~= before_tree.files + wv.take(j as int));
            assert(self.tree@ =~= MemoryView { files: pair_views(self.tree.files@), ..before_tree });
        }
        assert(wv.take(entries.len() as int) =~= wv);
        Ok(())
    }
}

pub open spec fn message_flag_views(s: Seq<(Vec<char>, Vec<char>, bool)>) -> Seq<(Seq<char>, Seq<char>, bool)> {
    Seq::new(s.len(), |i: int| (s[i].0@, s[i].1@, s[i].2))
}

impl EnvironmentStore for MemoryEnvironmentStore {
    fn create(&mut self, _root: &str, transaction: &EnvironmentTransaction) -> (r: Result<(), EnvironmentError>)
        ensures
            match environment_verdict(created_views(transaction.files@), old(self).tree()@.files) {
                Some(m) => r matches Err(e) && e.0@ == m && final(self).tree()@ == old(self).tree()@,
                None => r is Ok && final(self).tree()@ == (MemoryView {
                    files: old(self).tree()@.files + written_views(created_views(transaction.files@)),
                    ..old(self).tree()@
                }),
            },
    {
        let mut entries: Vec<(Vec<char>, Vec<char>, bool)> = Vec::new();
        let mut i: usize = 0;
        while i < transaction.files.len()
            invariant
                i <= transaction.files.len(),
                message_flag_views(entries@) == created_views(transaction.files@).take(i as int),
            decreases transaction.files.len() - i,
        {
            let a = chars_of(transaction.files[i].path.as_str());
            let b = chars_of(transaction.files[i].contents.as_str());
            let ghost before = message_flag_views(entries@);
            entries.push((a, b, false));
            assert(message_flag_views(entries@) =~= before.push((a@, b@, false)));
            i += 1;
            assert(message_flag_views(entries@) =~= created_views(transaction.files@).take(i as int));
        }
        assert(created_views(transaction.files@).take(transaction.files.len() as int) =~= created_views(transaction.files@));
        self.write_all(entries)
    }

    fn restore(&mut self, _root: &str, transaction: &EnvironmentRestoreTransaction) -> (r: Result<(), EnvironmentError>)
        ensures
            match environment_verdict(restored_views(transaction.files@), old(self).tree()@.files) {
                Some(m) => r matches Err(e) && e.0@ == m && final(self).tree()@ == old(self).tree()@,
                None => r is Ok && final(self).tree()@ == (MemoryView {
                    files: old(self).tree()@.files + written_views(restored_views(transaction.files@)),
                    ..old(self).tree()@
                }),
            },
    {
        let mut entries: Vec<(Vec<char>, Vec<char>, bool)> = Vec::new();
        let mut i: usize = 0;
        while i < transaction.files.len()
            invariant
                i <= transaction.files.len(),
                message_flag_views(entries@) == restored_views(transaction.files@).take(i as int),
            decreases transaction.files.len() - i,
        {
            let a = chars_of(transaction.files[i].path.as_str());
            let b = chars_of(transaction.files[i].contents.as_str());
            let c = transaction.files[i].replace;
            let ghost before = message_flag_views(entries@);
            entries.push((a, b, c));
            assert(message_flag_views(entries@) =~= before.push((a@, b@, c)));
            i += 1;
            assert(message_flag_views(entries@) =~= restored_views(transaction.files@).take(i as int));
        }
        assert(restored_views(transaction.files@).take(transaction.files.len() as int) =~= restored_views(transaction.files@));
        self.write_all(entries)
    }
}

} // verus!

verus! {

/// A tree after one `write`.
pub open spec fn written(v: MemoryView, path: Seq<char>, content: Seq<char>) -> MemoryView {
    MemoryView { files: v.files.push((crate::text::strip_lead(path, '/'), content)), ..v }
}

/// A read gives back what the last write of a path wrote, unless the path
/// was marked unreadable, binary, or vanished; a write leaves every other
/// path reading as it did.
pub proof fn lemma_read_after_write(v: MemoryView, path: Seq<char>, content: Seq<char>, other: Seq<char>)
    ensures
        ({
            let p = crate::text::strip_lead(path, '/');
            !v.unreadable.contains(p) && !v.binary.contains(p) && !v.vanished.contains(p) ==> read_spec(
                written(v, path, content),
                path,
            ) == Ok::<Seq<char>, TreeFault>(content)
        }),
        crate::text::strip_lead(other, '/') != crate::text::strip_lead(path, '/') ==> read_spec(
            written(v, path, content),
            other,
        ) == read_spec(v, other),
{
    let p = crate::text::strip_lead(path, '/');
    let w = written(v, path, content);
    assert(w.files.drop_last() =~= v.files);
    assert(w.files.last() == (p, content));
}

/// The entries under a prefix, with it taken off, hold for a key what the
/// whole log holds for the prefixed key.
pub proof fn lemma_held_stripped(f: Seq<(Seq<char>, Seq<char>)>, p: Seq<char>, k: Seq<char>)
    ensures
        held(strip_keys(f, p), k) == held(f, p + k),
    decreases f.len(),
{
    if f.len() > 0 {
        lemma_held_stripped(f.drop_last(), p, k);
        let key = f.last().0;
        if p.is_prefix_of(key) {
            let rest = strip_keys(f.drop_last(), p);
            let stripped = key.skip(p.len() as int);
            assert(strip_keys(f, p) == rest.push((stripped, f.last().1)));
            assert(rest.push((stripped, f.last().1)).drop_last() =~= rest);
            if stripped == k {
                assert(key =~= p + k);
            }
            if key == p + k {
                assert(stripped =~= k);
            }
        } else {
            if key == p + k {
                assert(key.take(p.len() as int) =~= p);
            }
        }
    }
}

/// A path is in a list under a prefix, with it taken off, exactly when the
/// prefixed path is in the whole list.
pub proof fn lemma_listed_stripped(s: Seq<Seq<char>>, p: Seq<char>, k: Seq<char>)
    ensures
        strip_list(s, p).contains(k) == s.contains(p + k),
    decreases s.len(),
{
    if s.len() > 0 {
        lemma_listed_stripped(s.drop_last(), p, k);
        let x = s.last();
        let rest = strip_list(s.drop_last(), p);
        assert(s =~= s.drop_last().push(x));
        if p.is_prefix_of(x) {
            let stripped = x.skip(p.len() as int);
            assert(strip_list(s, p) == rest.push(stripped));
            if stripped == k {
                assert(x =~= p + k);
            }
            if x == p + k {
                assert(stripped =~= k);
            }
            if rest.push(stripped).contains(k) && stripped != k {
                let i = choose|i: int| 0 <= i < rest.push(stripped).len() && rest.push(stripped)[i] == k;
                assert(rest[i] == k);
            }
            if rest.contains(k) {
                let i = choose|i: int| 0 <= i < rest.len() && rest[i] == k;
                assert(rest.push(stripped)[i] == k);
            }
            if s.contains(p + k) && x != p + k {
                let i = choose|i: int| 0 <= i < s.len() && s[i] == p + k;
                assert(s.drop_last()[i] == p + k);
            }
            if s.drop_last().contains(p + k) {
                let i = choose|i: int| 0 <= i < s.drop_last().len() && s.drop_last()[i] == p + k;
                assert(s[i] == p + k);
            }
            if x == p + k {
                assert(s[s.len() - 1] == p + k);
            }
            if stripped == k {
                assert(rest.push(stripped)[rest.len() as int] == k);
            }
        } else {
            if x == p + k {
                assert(x.take(p.len() as int) =~= p);
            }
            if s.contains(p + k) {
                let i = choose|i: int| 0 <= i < s.len() && s[i] == p + k;
                assert(i < s.len() - 1);
                assert(s.drop_last()[i] == p + k);
            }
            if s.drop_last().contains(p + k) {
                let i = choose|i: int| 0 <= i < s.drop_last().len() && s.drop_last()[i] == p + k;
                assert(s[i] == p + k);
            }
        }
    }
}

/// A tree seen from a directory reads a path as the whole tree reads that
/// path beneath the directory.
pub proof fn lemma_read_rerooted(v: MemoryView, p: Seq<char>, q: Seq<char>)
    requires
        p.len() > 0,
        p[0] != '/',
        q.len() == 0 || q[0] != '/',
    ensures
        read_spec(rerooted(v, p), q) == read_spec(v, p + q),
{
    assert(crate::text::strip_lead(q, '/') == q);
    assert((p + q)[0] == p[0]);
    assert(crate::text::strip_lead(p + q, '/') == p + q);
    lemma_listed_stripped(v.unreadable, p, q);
    lemma_listed_stripped(v.binary, p, q);
    lemma_listed_stripped(v.vanished, p, q);
    lemma_held_stripped(v.files, p, q);
}

} // verus!

verus! {

/// `""` addresses the root; everything else gains one trailing separator.
pub fn normalise_directory(path: &str) -> (r: String)
    ensures
        r@ == normalised(path@),
{
    string_of(&normalised_chars(&chars_of(path)))
}

/// Whether `path` is `root` or lies beneath it.
pub fn under_root(path: &str, root: &str) -> (r: bool)
    ensures
        r == under(path@, root@),
{
    is_under(&chars_of(path), &chars_of(root))
}

/// A managed file's path without surrounding separators, or `None` when it
/// names nothing or holds an empty, `.`, `..`, or backslashed segment.
pub fn normal_adapter_path(path: &str) -> (r: Option<String>)
    ensures
        match r {
            Some(p) => normal_path(path@) == Some(p@),
            None => normal_path(path@) is None,
        },
{
    match normal_chars(&chars_of(path)) {
        Some(p) => Some(string_of(&p)),
        None => None,
    }
}

/// Every directory a list of file paths implies, sorted and without repeats.
pub fn parents(files: &[String]) -> (r: Vec<String>)
    ensures
        strictly_sorted(string_views(r@)),
        string_views(r@).to_set() == all_ancestors(string_views(files@)),
{
    to_strings(&parent_texts(&to_texts_of(files)))
}

} // verus!
