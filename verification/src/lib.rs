//! RHINO -- Repository Hygiene & INtegration Orchestrator.
//!
//! A generic repository-hygiene validator. Every value it enforces arrives
//! from the consuming repository's `repo-config.yml`; this crate ships no
//! default for any of them.
//!
//! Validators are read-only, network-free, and process-free: an invocation
//! reaches a repository only through [`runtime::Tree`], and receives every
//! other capability as an explicit boundary.
use vstd::prelude::*;

pub mod cli;
pub mod config;
pub mod convention;
pub mod errors;
pub mod gate;
pub mod governance;
pub mod markdown;
pub mod metadata;
pub mod plan;
pub mod report;
pub mod runtime;
pub mod scan;
pub mod text;

use crate::cli::{Format, Parsed, ParsedView, parse_spec};
use crate::config::{ConfigError, ConfigFault, Document};
use crate::errors::{ErrorCode, body_spec};
use crate::report::{Report, ReportView, rendered};
use crate::runtime::{
    AdapterStore, EnvironmentStore, Launcher, MutationRunner, NoAdapterStore, NoEnvironmentStore,
    NoLauncher, NoMutationRunner, NoToolchainRunner, ToolchainRunner, Tree, TreeError, TreeFault,
};
use crate::text::{chars_of, extend_str, string_of};

verus! {

/// Everything an invocation produces, and all the process contract exposes.
///
/// Returned rather than printed so the library is callable from a test
/// without a process.
#[derive(Debug, Clone, PartialEq, Eq)]
pub struct Outcome {
    /// `0` clean or help, `1` findings, `2` an unusable invocation,
    /// configuration, or run, `126` a gate child that could not be executed,
    /// `127` one that was not found.
    pub exit_code: u8,
    pub stdout: String,
    pub stderr: String,
}

impl Default for Outcome {
    fn default() -> (r: Outcome)
        ensures
            r.exit_code == 0 && r.stdout@ == Seq::<char>::empty() && r.stderr@ == Seq::<char>::empty(),
    {
        Outcome { exit_code: 0, stdout: String::new(), stderr: String::new() }
    }
}

/// An outcome as plain values.
pub open spec fn outcome_is(out: Outcome, code: u8, stdout: Seq<char>, stderr: Seq<char>) -> bool {
    out.exit_code == code && out.stdout@ == stdout && out.stderr@ == stderr
}

/// The explicit capabilities an invocation may receive. Grouping them keeps
/// the execution seam legible without merging their authority.
pub struct ExecutionBoundaries<'a, L: Launcher, M: MutationRunner, A: AdapterStore, E: EnvironmentStore, C: ToolchainRunner> {
    pub launcher: &'a L,
    pub mutations: &'a M,
    pub adapters: &'a mut A,
    pub environments: &'a mut E,
    pub toolchains: &'a C,
}

impl Outcome {
    /// A clean answer: exit `0`, the text on standard output.
    pub fn clean(stdout: &str) -> (r: Outcome)
        ensures
            outcome_is(r, 0, stdout@, Seq::empty()),
    {
        Outcome { exit_code: 0, stdout: stdout.to_string(), stderr: String::new() }
    }

    /// A fault in the invocation or the configuration. Never `1`: exit `1`
    /// has to mean "the repository violates its declared policy".
    pub fn refused(stderr: &str) -> (r: Outcome)
        ensures
            outcome_is(r, 2, Seq::empty(), stderr@),
    {
        Outcome { exit_code: 2, stdout: String::new(), stderr: stderr.to_string() }
    }

    /// A refusal carrying a code from the closed vocabulary, rendered for the
    /// format the caller asked for.
    pub fn refusal(format: Format, code: ErrorCode, message: &str) -> (r: Outcome)
        ensures
            outcome_is(r, 2, Seq::empty(), body_spec(format, code, message@)),
    {
        let b = crate::errors::body(format, code, message);
        Outcome::refused(b.as_str())
    }
}

/// This build's release identity, spelled as the release tag spells it.
pub const VERSION: &'static str = "v0.4.0";

/// The commit this build was made from. A build made outside a repository
/// reports forty zeros rather than lying about which revision it is.
pub const COMMIT: &'static str = "0000000000000000000000000000000000000000";

/// What `version` answers in a format.
pub open spec fn version_text(format: Format) -> Seq<char> {
    match format {
        Format::Text => VERSION@ + "\n"@,
        Format::Json => "{\"schemaVersion\":1,\"version\":\""@ + VERSION@ + "\",\"commit\":\""@ + COMMIT@
            + "\"}\n"@,
    }
}

/// This build's release identity.
fn version(format: Format) -> (r: Outcome)
    ensures
        outcome_is(r, 0, version_text(format), Seq::empty()),
{
    let mut out: Vec<char> = Vec::new();
    match format {
        Format::Text => {
            extend_str(&mut out, VERSION);
            extend_str(&mut out, "\n");
        },
        Format::Json => {
            extend_str(&mut out, "{\"schemaVersion\":1,\"version\":\"");
            extend_str(&mut out, VERSION);
            extend_str(&mut out, "\",\"commit\":\"");
            extend_str(&mut out, COMMIT);
            extend_str(&mut out, "\"}\n");
        },
    }
    let s = string_of(&out);
    Outcome::clean(s.as_str())
}

/// What reading the configuration file decides.
pub open spec fn loaded_spec(raw: Result<Seq<char>, TreeFault>) -> Result<Document, ConfigFault> {
    match raw {
        Err(TreeFault::NotFound) => Err(ConfigFault::Missing),
        Err(TreeFault::Unreadable(reason)) => Err(ConfigFault::Unreadable(reason)),
        Err(TreeFault::NotText) => Err(ConfigFault::Unreadable("holds no text"@)),
        Ok(text) => crate::config::parse_spec(text),
    }
}

/// Decides the configuration from what a read of its file gave back: an
/// absent file is missing, an unreadable or non-text one is unreadable, and
/// text is parsed.
pub fn configuration(raw: Result<String, TreeError>) -> (r: Result<Document, ConfigError>)
    ensures
        crate::config::result_view(r) == loaded_spec(crate::runtime::read_view(raw)),
{
    match raw {
        Err(TreeError::NotFound) => Err(ConfigError::Missing),
        Err(TreeError::Unreadable(reason)) => Err(ConfigError::Unreadable(reason)),
        Err(TreeError::NotText) => Err(ConfigError::Unreadable("holds no text".to_string())),
        Ok(text) => crate::config::parse(text.as_str()),
    }
}

/// Whether `loaded` is what the configuration file of `tree` decides: some
/// answer the tree gives a read of `repo-config.yml`, decided as
/// [`configuration`] decides it.
pub open spec fn loads_as<T: Tree>(tree: T, loaded: Result<Document, ConfigFault>) -> bool {
    exists|raw: Result<Seq<char>, TreeFault>| #[trigger] tree.reads_as(crate::config::PATH@, raw) && loaded == loaded_spec(raw)
}

/// Reads `repo-config.yml` from a tree and decides the configuration from
/// what the read gave back.
pub fn load<T: Tree>(tree: &T) -> (r: Result<Document, ConfigError>)
    ensures
        loads_as(*tree, crate::config::result_view(r)),
{
    let raw = tree.read(crate::config::PATH);
    let ghost rv = crate::runtime::read_view(raw);
    let r = configuration(raw);
    assert(tree.reads_as(crate::config::PATH@, rv));
    r
}

/// Whether a root refusal and a configuration are what `tree` gives an
/// invocation: without `--root` the tree's own configuration file is read;
/// with it, the root is handed to the tree, and either the tree refuses it
/// or the configuration file of the tree seen from there is read. `version`
/// reads no configuration.
pub open spec fn tree_gives<T: Tree>(
    tree: T,
    inv: crate::cli::InvocationView,
    root_refusal: Option<Seq<char>>,
    loaded: Result<Document, ConfigFault>,
) -> bool {
    let version = inv.category == "version"@;
    match inv.root {
        None => root_refusal is None && (version || loads_as(tree, loaded)),
        Some(p) => exists|ans: Result<T, Seq<char>>|
            #[trigger] tree.roots_as(p, ans) && match ans {
                Err(m) => root_refusal == Some(m),
                Ok(t) => root_refusal is None && (version || loads_as(t, loaded)),
            },
    }
}

/// The refusal a grouped document gives a command it has no owner for.
pub open spec fn unowned_text() -> Seq<char> {
    "the grouped v0.4 configuration declares no command in this stable release"@
}

/// What a runnable invocation answers once its root and configuration are
/// known: a root that cannot be used is refused, `version` answers before
/// anything is read, a configuration that cannot be used refuses the run,
/// and otherwise the command is answered.
pub open spec fn respond_spec(
    category: Seq<char>,
    format: Format,
    root_refusal: Option<Seq<char>>,
    loaded: Result<Document, ConfigFault>,
    out: Outcome,
) -> bool {
    match root_refusal {
        Some(reason) => outcome_is(out, 2, Seq::empty(), body_spec(format, ErrorCode::RepositoryUnusable, reason)),
        None => if category == "version"@ {
            outcome_is(out, 0, version_text(format), Seq::empty())
        } else {
            match loaded {
                Err(e) => outcome_is(
                    out,
                    2,
                    Seq::empty(),
                    "["@ + category + "] "@ + crate::config::config_message(e) + "\n"@,
                ),
                Ok(Document::V0_4) => if category == "repo-config"@ {
                    rendered(
                        ReportView {
                            category,
                            subject: "configuration file"@,
                            inspected: 1,
                            scanned: Seq::empty(),
                            notes: Seq::empty(),
                            measurements: Seq::empty(),
                            findings: Seq::empty(),
                            refusal: None,
                        },
                        format,
                        out,
                    )
                } else {
                    outcome_is(out, 2, Seq::empty(), "["@ + category + "] "@ + unowned_text() + "\n"@)
                },
            }
        },
    }
}

/// Answers a runnable invocation from what its root and configuration gave
/// back.
pub fn respond(
    category: &'static str,
    format: Format,
    root_refusal: Option<String>,
    loaded: Result<Document, ConfigError>,
) -> (r: Outcome)
    ensures
        respond_spec(
            category@,
            format,
            match root_refusal {
                Some(s) => Some(s@),
                None => None,
            },
            crate::config::result_view(loaded),
            r,
        ),
{
    if let Some(reason) = root_refusal {
        return Outcome::refusal(format, ErrorCode::RepositoryUnusable, reason.as_str());
    }
    if crate::text::is(&chars_of(category), "version") {
        return version(format);
    }
    match loaded {
        Err(error) => {
            let m = error.message();
            let report = Report::refused(category, m.as_str());
            report.render(format)
        },
        Ok(Document::V0_4) => {
            if crate::text::is(&chars_of(category), "repo-config") {
                let mut report = Report::new(category, "configuration file");
                report.inspected(1);
                report.render(format)
            } else {
                let report = Report::refused(
                    category,
                    "the grouped v0.4 configuration declares no command in this stable release",
                );
                report.render(format)
            }
        },
    }
}

/// What an invocation answers against some repository: a refusal or help
/// from the command line alone, and otherwise an answer from the root and
/// configuration the repository gave back.
pub open spec fn answers<T: Tree>(tree: T, args: Seq<Seq<char>>, out: Outcome) -> bool {
    match parse_spec(args) {
        Err(x) => outcome_is(out, 2, Seq::empty(), body_spec(x.format, x.code, x.message)),
        Ok(ParsedView::Help(t)) => outcome_is(out, 0, t, Seq::empty()),
        Ok(ParsedView::Run(inv)) => exists|
            root_refusal: Option<Seq<char>>,
            loaded: Result<Document, ConfigFault>,
        |
            #![trigger tree_gives(tree, inv, root_refusal, loaded)]
            tree_gives(tree, inv, root_refusal, loaded) && respond_spec(
                inv.category,
                inv.format,
                root_refusal,
                loaded,
                out,
            ),
    }
}

/// Runs one invocation against a tree.
pub fn execute<T: Tree>(tree: &T, arguments: &[String]) -> (r: Outcome)
    ensures
        answers(*tree, crate::cli::string_seq(arguments@), r),
{
    execute_with(tree, arguments, None)
}

/// As [`execute`], with whatever a `--file -` selection should read.
pub fn execute_with<T: Tree>(tree: &T, arguments: &[String], stdin: Option<&str>) -> (r: Outcome)
    ensures
        answers(*tree, crate::cli::string_seq(arguments@), r),
{
    execute_using(tree, arguments, stdin, &NoLauncher)
}

/// As [`execute_with`], with the launcher a gate dispatch starts its
/// children through.
pub fn execute_using<T: Tree, L: Launcher>(tree: &T, arguments: &[String], stdin: Option<&str>, launcher: &L) -> (r: Outcome)
    ensures
        answers(*tree, crate::cli::string_seq(arguments@), r),
{
    execute_using_with_mutations(tree, arguments, stdin, launcher, &NoMutationRunner)
}

/// As [`execute_using`], with the one explicit mutation boundary.
pub fn execute_using_with_mutations<T: Tree, L: Launcher, M: MutationRunner>(
    tree: &T,
    arguments: &[String],
    stdin: Option<&str>,
    launcher: &L,
    mutations: &M,
) -> (r: Outcome)
    ensures
        answers(*tree, crate::cli::string_seq(arguments@), r),
{
    let mut adapters = NoAdapterStore;
    let mut environments = NoEnvironmentStore;
    execute_using_with_boundaries(
        tree,
        arguments,
        stdin,
        ExecutionBoundaries {
            launcher,
            mutations,
            adapters: &mut adapters,
            environments: &mut environments,
            toolchains: &NoToolchainRunner,
        },
    )
}

/// As [`execute_using_with_mutations`], with every boundary stated.
pub fn execute_using_with_boundaries<
    T: Tree,
    L: Launcher,
    M: MutationRunner,
    A: AdapterStore,
    E: EnvironmentStore,
    C: ToolchainRunner,
>(tree: &T, arguments: &[String], stdin: Option<&str>, boundaries: ExecutionBoundaries<'_, L, M, A, E, C>) -> (r: Outcome)
    ensures
        answers(*tree, crate::cli::string_seq(arguments@), r),
{
    let invocation = match crate::cli::parse(arguments) {
        Ok(Parsed::Help(crate::cli::Help(text))) => return Outcome::clean(text.as_str()),
        Ok(Parsed::Run(invocation)) => *invocation,
        Err(refusal) => {
            return Outcome::refusal(refusal.format, refusal.code, refusal.message.as_str());
        },
    };
    let ghost inv = invocation@;
    match &invocation.root {
        None => {
            let loaded = if crate::text::is(&chars_of(invocation.category), "version") {
                Ok(Document::V0_4)
            } else {
                load(tree)
            };
            let out = respond(invocation.category, invocation.format, None, loaded);
            assert(tree_gives(*tree, inv, None, crate::config::result_view(loaded)));
            assert(respond_spec(inv.category, inv.format, None, crate::config::result_view(loaded), out));
            out
        },
        Some(path) => {
            let answer = tree.rooted_at(path.as_str());
            let ghost av = crate::runtime::root_view(answer);
            assert(tree.roots_as(path@, av));
            assert(inv.root == Some(path@));
            match answer {
                Ok(rooted) => {
                    let loaded = if crate::text::is(&chars_of(invocation.category), "version") {
                        Ok(Document::V0_4)
                    } else {
                        load(&rooted)
                    };
                    let out = respond(invocation.category, invocation.format, None, loaded);
                    assert(av == Ok::<T, Seq<char>>(rooted));
                    assert((*tree).roots_as(inv.root->0, av));
                    assert(tree_gives(*tree, inv, None, crate::config::result_view(loaded)));
                    assert(respond_spec(inv.category, inv.format, None, crate::config::result_view(loaded), out));
                    out
                },
                Err(reason) => {
                    let ghost rv = reason@;
                    assert(av == Err::<T, Seq<char>>(rv));
                    assert((*tree).roots_as(inv.root->0, av));
                    assert(match av { Err(m) => Some(rv) == Some(m), Ok(t) => false });
                    let out = respond(invocation.category, invocation.format, Some(reason), Ok(Document::V0_4));
                    assert(tree_gives(*tree, inv, Some(rv), Ok(Document::V0_4)));
                    assert(respond_spec(inv.category, inv.format, Some(rv), Ok(Document::V0_4), out));
                    out
                },
            }
        },
    }
}

} // verus!
