//! The command line: what an invocation says, and whether it says it legally.
//!
//! Parsing is separated from doing so that "this invocation is not usable" is
//! decided before any file is opened. The command tree is data: a leaf is a
//! path plus the flags it accepts, so a flag reaching a command that has no use
//! for it is refused here rather than ignored there.
use crate::errors::ErrorCode;
use crate::text::{chars_of, extend, extend_str, is, join_spec, string_of};
use vstd::prelude::*;

verus! {

/// How a leaf renders its result.
#[derive(Debug, Clone, Copy, PartialEq, Eq, Structural)]
pub enum Format {
    Text,
    Json,
}

/// A flag a leaf is willing to be given.
#[derive(Debug, Clone, Copy, PartialEq, Eq, Structural)]
pub enum Accepts {
    /// Repeated paths to inspect instead of the declared surface. `-` is
    /// standard input.
    File,
    /// One directory to inspect instead of the declared trees.
    Directory,
    /// An explicit repository-relative destination for a backup plan.
    BackupDirectory,
    /// Authorize a declared mutation after its default plan has been reviewed.
    Apply,
    /// Replace an existing target after the operation has planned its backup.
    Force,
    /// The one surface a gate dispatch is selected by.
    Surface,
    /// The exact path Git handed to the commit-msg hook.
    MessageFile,
    /// Read Git's pre-push update records from standard input.
    PushUpdatesStdin,
    /// The explicit immutable base/head range for a pull-request run.
    Range,
    /// `version --json`, which predates `--output`.
    Json,
}

/// The position of a flag in the order the help lists flags in.
pub open spec fn rank(a: Accepts) -> nat {
    match a {
        Accepts::File => 0,
        Accepts::Directory => 1,
        Accepts::BackupDirectory => 2,
        Accepts::Apply => 3,
        Accepts::Force => 4,
        Accepts::Surface => 5,
        Accepts::MessageFile => 6,
        Accepts::PushUpdatesStdin => 7,
        Accepts::Range => 8,
        Accepts::Json => 9,
    }
}

pub open spec fn accepts_of(rank: nat) -> Accepts {
    if rank == 0 {
        Accepts::File
    } else if rank == 1 {
        Accepts::Directory
    } else if rank == 2 {
        Accepts::BackupDirectory
    } else if rank == 3 {
        Accepts::Apply
    } else if rank == 4 {
        Accepts::Force
    } else if rank == 5 {
        Accepts::Surface
    } else if rank == 6 {
        Accepts::MessageFile
    } else if rank == 7 {
        Accepts::PushUpdatesStdin
    } else if rank == 8 {
        Accepts::Range
    } else {
        Accepts::Json
    }
}

/// One command the tool answers to.
pub struct Leaf {
    pub path: &'static [&'static str],
    /// The atomic output prefix, stated rather than assembled from the path.
    pub category: &'static str,
    pub accepts: &'static [Accepts],
    pub summary: &'static str,
}

/// A leaf as plain values.
pub ghost struct LeafView {
    pub path: Seq<Seq<char>>,
    pub category: Seq<char>,
    pub accepts: Seq<Accepts>,
    pub summary: Seq<char>,
}

pub open spec fn str_views(s: Seq<&'static str>) -> Seq<Seq<char>> {
    Seq::new(s.len(), |i: int| s[i]@)
}

impl View for Leaf {
    type V = LeafView;

    open spec fn view(&self) -> LeafView {
        LeafView {
            path: str_views(self.path@),
            category: self.category@,
            accepts: self.accepts@,
            summary: self.summary@,
        }
    }
}

pub open spec fn leaf_views(s: Seq<Leaf>) -> Seq<LeafView> {
    Seq::new(s.len(), |i: int| s[i]@)
}

/// Every command this build answers to, in the order help lists them.
pub open spec fn leaf_table() -> Seq<LeafView> {
    seq![
        LeafView {
            path: seq!["repo-config"@, "validate"@],
            category: "repo-config"@,
            accepts: seq![],
            summary: "Check that repo-config.yml is complete and usable."@,
        },
        LeafView {
            path: seq!["gate"@, "run"@],
            category: "gate"@,
            accepts: seq![Accepts::Surface, Accepts::MessageFile, Accepts::PushUpdatesStdin, Accepts::Range],
            summary: "Run the gates the declared surface selects, in declaration order."@,
        },
        LeafView {
            path: seq!["gate"@, "list"@],
            category: "gate-list"@,
            accepts: seq![],
            summary: "List the declared v0.4 lifecycle gates for each closed surface."@,
        },
        LeafView {
            path: seq!["gate"@, "validate"@],
            category: "gate-validate"@,
            accepts: seq![],
            summary: "Validate v0.4 lifecycle membership and pull-request composition."@,
        },
        LeafView {
            path: seq!["governance"@, "vendor"@, "validate"@],
            category: "vendor"@,
            accepts: seq![],
            summary: "Check declared roots for declared vendor terms and exact exceptions."@,
        },
        LeafView {
            path: seq!["governance"@, "layers"@, "validate"@],
            category: "layers"@,
            accepts: seq![],
            summary: "Check the declared governance layer and category structure."@,
        },
        LeafView {
            path: seq!["governance"@, "traceability"@, "validate"@],
            category: "traceability"@,
            accepts: seq![],
            summary: "Check declared artifacts and their declared local links."@,
        },
        LeafView {
            path: seq!["governance"@, "word-budget"@, "validate"@],
            category: "word-budget"@,
            accepts: seq![],
            summary: "Check every declared surface against its declared word budget."@,
        },
        LeafView {
            path: seq!["governance"@, "directory-map"@, "validate"@],
            category: "directory-map"@,
            accepts: seq![Accepts::Directory],
            summary: "Check that every mapped tree's READMEs list their siblings."@,
        },
        LeafView {
            path: seq!["harness"@, "adapters"@, "validate"@],
            category: "harness-adapters-validate"@,
            accepts: seq![],
            summary: "Validate canonical harness adapters without writing them."@,
        },
        LeafView {
            path: seq!["harness"@, "adapters"@, "generate"@],
            category: "harness-adapters-generate"@,
            accepts: seq![],
            summary: "Generate canonical harness adapters in one declared transaction."@,
        },
        LeafView {
            path: seq!["env"@, "backup"@],
            category: "environment-backup"@,
            accepts: seq![Accepts::BackupDirectory],
            summary: "Copy declared environment targets into an explicit backup destination."@,
        },
        LeafView {
            path: seq!["env"@, "validate"@],
            category: "environment-validate"@,
            accepts: seq![],
            summary: "Validate declared environment policy without reporting values."@,
        },
        LeafView {
            path: seq!["env"@, "init"@],
            category: "environment-init"@,
            accepts: seq![Accepts::Apply],
            summary: "Initialize declared environment targets only with explicit authorization."@,
        },
        LeafView {
            path: seq!["env"@, "restore"@],
            category: "environment-restore"@,
            accepts: seq![Accepts::BackupDirectory, Accepts::Force],
            summary: "Restore declared environment targets from an explicit backup directory."@,
        },
        LeafView {
            path: seq!["toolchain"@, "validate"@],
            category: "toolchain-validate"@,
            accepts: seq![],
            summary: "Probe declared toolchains without installing or reporting their output."@,
        },
        LeafView {
            path: seq!["toolchain"@, "provision"@],
            category: "toolchain-provision"@,
            accepts: seq![Accepts::Apply],
            summary: "Provision declared toolchains only with explicit authorization."@,
        },
        LeafView {
            path: seq!["md"@, "frontmatter"@, "validate"@],
            category: "frontmatter"@,
            accepts: seq![],
            summary: "Check every declared surface's front matter against its declared schema."@,
        },
        LeafView {
            path: seq!["md"@, "heading-hierarchy"@, "validate"@],
            category: "heading-hierarchy"@,
            accepts: seq![],
            summary: "Check every declared surface's heading structure."@,
        },
        LeafView {
            path: seq!["metadata"@, "validate"@],
            category: "metadata"@,
            accepts: seq![],
            summary: "Check every declared surface against its path-selected metadata schema."@,
        },
        LeafView {
            path: seq!["md"@, "internal-link"@, "validate"@],
            category: "internal-link"@,
            accepts: seq![],
            summary: "Check that every local Markdown link resolves inside the repository."@,
        },
        LeafView {
            path: seq!["md"@, "mermaid"@, "validate"@],
            category: "mermaid"@,
            accepts: seq![Accepts::File],
            summary: "Check Mermaid diagrams for label length and colour contrast."@,
        },
        LeafView {
            path: seq!["md"@, "naming"@, "validate"@],
            category: "naming"@,
            accepts: seq![],
            summary: "Check every declared surface's filenames against its declared style."@,
        },
        LeafView {
            path: seq!["md"@, "readme-index"@, "validate"@],
            category: "readme-index"@,
            accepts: seq![],
            summary: "Check that every directory in a declared tree carries a README."@,
        },
        LeafView {
            path: seq!["convention"@, "emoji"@, "validate"@],
            category: "emoji"@,
            accepts: seq![],
            summary: "Check that no declared file carries an emoji code point."@,
        },
        LeafView {
            path: seq!["convention"@, "license"@, "validate"@],
            category: "license"@,
            accepts: seq![],
            summary: "Check configured license paths, identifiers, and digests."@,
        },
        LeafView {
            path: seq!["version"@],
            category: "version"@,
            accepts: seq![Accepts::Json],
            summary: "Report this build's release identity."@,
        },
    ]
}

/// Every command this build answers to.
#[verifier::rlimit(50)]
pub fn leaves() -> (r: Vec<Leaf>)
    ensures
        leaf_views(r@) == leaf_table(),
{
    let r = vec![
        Leaf {
            path: &["repo-config", "validate"],
            category: "repo-config",
            accepts: &[],
            summary: "Check that repo-config.yml is complete and usable.",
        },
        Leaf {
            path: &["gate", "run"],
            category: "gate",
            accepts: &[Accepts::Surface, Accepts::MessageFile, Accepts::PushUpdatesStdin, Accepts::Range],
            summary: "Run the gates the declared surface selects, in declaration order.",
        },
        Leaf {
            path: &["gate", "list"],
            category: "gate-list",
            accepts: &[],
            summary: "List the declared v0.4 lifecycle gates for each closed surface.",
        },
        Leaf {
            path: &["gate", "validate"],
            category: "gate-validate",
            accepts: &[],
            summary: "Validate v0.4 lifecycle membership and pull-request composition.",
        },
        Leaf {
            path: &["governance", "vendor", "validate"],
            category: "vendor",
            accepts: &[],
            summary: "Check declared roots for declared vendor terms and exact exceptions.",
        },
        Leaf {
            path: &["governance", "layers", "validate"],
            category: "layers",
            accepts: &[],
            summary: "Check the declared governance layer and category structure.",
        },
        Leaf {
            path: &["governance", "traceability", "validate"],
            category: "traceability",
            accepts: &[],
            summary: "Check declared artifacts and their declared local links.",
        },
        Leaf {
            path: &["governance", "word-budget", "validate"],
            category: "word-budget",
            accepts: &[],
            summary: "Check every declared surface against its declared word budget.",
        },
        Leaf {
            path: &["governance", "directory-map", "validate"],
            category: "directory-map",
            accepts: &[Accepts::Directory],
            summary: "Check that every mapped tree's READMEs list their siblings.",
        },
        Leaf {
            path: &["harness", "adapters", "validate"],
            category: "harness-adapters-validate",
            accepts: &[],
            summary: "Validate canonical harness adapters without writing them.",
        },
        Leaf {
            path: &["harness", "adapters", "generate"],
            category: "harness-adapters-generate",
            accepts: &[],
            summary: "Generate canonical harness adapters in one declared transaction.",
        },
        Leaf {
            path: &["env", "backup"],
            category: "environment-backup",
            accepts: &[Accepts::BackupDirectory],
            summary: "Copy declared environment targets into an explicit backup destination.",
        },
        Leaf {
            path: &["env", "validate"],
            category: "environment-validate",
            accepts: &[],
            summary: "Validate declared environment policy without reporting values.",
        },
        Leaf {
            path: &["env", "init"],
            category: "environment-init",
            accepts: &[Accepts::Apply],
            summary: "Initialize declared environment targets only with explicit authorization.",
        },
        Leaf {
            path: &["env", "restore"],
            category: "environment-restore",
            accepts: &[Accepts::BackupDirectory, Accepts::Force],
            summary: "Restore declared environment targets from an explicit backup directory.",
        },
        Leaf {
            path: &["toolchain", "validate"],
            category: "toolchain-validate",
            accepts: &[],
            summary: "Probe declared toolchains without installing or reporting their output.",
        },
        Leaf {
            path: &["toolchain", "provision"],
            category: "toolchain-provision",
            accepts: &[Accepts::Apply],
            summary: "Provision declared toolchains only with explicit authorization.",
        },
        Leaf {
            path: &["md", "frontmatter", "validate"],
            category: "frontmatter",
            accepts: &[],
            summary: "Check every declared surface's front matter against its declared schema.",
        },
        Leaf {
            path: &["md", "heading-hierarchy", "validate"],
            category: "heading-hierarchy",
            accepts: &[],
            summary: "Check every declared surface's heading structure.",
        },
        Leaf {
            path: &["metadata", "validate"],
            category: "metadata",
            accepts: &[],
            summary: "Check every declared surface against its path-selected metadata schema.",
        },
        Leaf {
            path: &["md", "internal-link", "validate"],
            category: "internal-link",
            accepts: &[],
            summary: "Check that every local Markdown link resolves inside the repository.",
        },
        Leaf {
            path: &["md", "mermaid", "validate"],
            category: "mermaid",
            accepts: &[Accepts::File],
            summary: "Check Mermaid diagrams for label length and colour contrast.",
        },
        Leaf {
            path: &["md", "naming", "validate"],
            category: "naming",
            accepts: &[],
            summary: "Check every declared surface's filenames against its declared style.",
        },
        Leaf {
            path: &["md", "readme-index", "validate"],
            category: "readme-index",
            accepts: &[],
            summary: "Check that every directory in a declared tree carries a README.",
        },
        Leaf {
            path: &["convention", "emoji", "validate"],
            category: "emoji",
            accepts: &[],
            summary: "Check that no declared file carries an emoji code point.",
        },
        Leaf {
            path: &["convention", "license", "validate"],
            category: "license",
            accepts: &[],
            summary: "Check configured license paths, identifiers, and digests.",
        },
        Leaf {
            path: &["version"],
            category: "version",
            accepts: &[Accepts::Json],
            summary: "Report this build's release identity.",
        },
    ];
    let ghost t = leaf_table();
    assert(r@[0]@.path =~= leaf_table()[0].path);
    assert(r@[0]@.accepts =~= leaf_table()[0].accepts);
    assert(r@[1]@.path =~= leaf_table()[1].path);
    assert(r@[1]@.accepts =~= leaf_table()[1].accepts);
    assert(r@[2]@.path =~= leaf_table()[2].path);
    assert(r@[2]@.accepts =~= leaf_table()[2].accepts);
    assert(r@[3]@.path =~= leaf_table()[3].path);
    assert(r@[3]@.accepts =~= leaf_table()[3].accepts);
    assert(r@[4]@.path =~= leaf_table()[4].path);
    assert(r@[4]@.accepts =~= leaf_table()[4].accepts);
    assert(r@[5]@.path =~= leaf_table()[5].path);
    assert(r@[5]@.accepts =~= leaf_table()[5].accepts);
    assert(r@[6]@.path =~= leaf_table()[6].path);
    assert(r@[6]@.accepts =~= leaf_table()[6].accepts);
    assert(r@[7]@.path =~= leaf_table()[7].path);
    assert(r@[7]@.accepts =~= leaf_table()[7].accepts);
    assert(r@[8]@.path =~= leaf_table()[8].path);
    assert(r@[8]@.accepts =~= leaf_table()[8].accepts);
    assert(r@[9]@.path =~= leaf_table()[9].path);
    assert(r@[9]@.accepts =~= leaf_table()[9].accepts);
    assert(r@[10]@.path =~= leaf_table()[10].path);
    assert(r@[10]@.accepts =~= leaf_table()[10].accepts);
    assert(r@[11]@.path =~= leaf_table()[11].path);
    assert(r@[11]@.accepts =~= leaf_table()[11].accepts);
    assert(r@[12]@.path =~= leaf_table()[12].path);
    assert(r@[12]@.accepts =~= leaf_table()[12].accepts);
    assert(r@[13]@.path =~= leaf_table()[13].path);
    assert(r@[13]@.accepts =~= leaf_table()[13].accepts);
    assert(r@[14]@.path =~= leaf_table()[14].path);
    assert(r@[14]@.accepts =~= leaf_table()[14].accepts);
    assert(r@[15]@.path =~= leaf_table()[15].path);
    assert(r@[15]@.accepts =~= leaf_table()[15].accepts);
    assert(r@[16]@.path =~= leaf_table()[16].path);
    assert(r@[16]@.accepts =~= leaf_table()[16].accepts);
    assert(r@[17]@.path =~= leaf_table()[17].path);
    assert(r@[17]@.accepts =~= leaf_table()[17].accepts);
    assert(r@[18]@.path =~= leaf_table()[18].path);
    assert(r@[18]@.accepts =~= leaf_table()[18].accepts);
    assert(r@[19]@.path =~= leaf_table()[19].path);
    assert(r@[19]@.accepts =~= leaf_table()[19].accepts);
    assert(r@[20]@.path =~= leaf_table()[20].path);
    assert(r@[20]@.accepts =~= leaf_table()[20].accepts);
    assert(r@[21]@.path =~= leaf_table()[21].path);
    assert(r@[21]@.accepts =~= leaf_table()[21].accepts);
    assert(r@[22]@.path =~= leaf_table()[22].path);
    assert(r@[22]@.accepts =~= leaf_table()[22].accepts);
    assert(r@[23]@.path =~= leaf_table()[23].path);
    assert(r@[23]@.accepts =~= leaf_table()[23].accepts);
    assert(r@[24]@.path =~= leaf_table()[24].path);
    assert(r@[24]@.accepts =~= leaf_table()[24].accepts);
    assert(r@[25]@.path =~= leaf_table()[25].path);
    assert(r@[25]@.accepts =~= leaf_table()[25].accepts);
    assert(r@[26]@.path =~= leaf_table()[26].path);
    assert(r@[26]@.accepts =~= leaf_table()[26].accepts);
    assert(leaf_views(r@) =~= leaf_table());
    r
}

} // verus!

verus! {

/// What one invocation asks for, once it is known to be askable.
#[derive(Debug)]
pub struct Invocation {
    pub category: &'static str,
    pub root: Option<String>,
    pub format: Format,
    pub files: Vec<String>,
    pub directory: Option<String>,
    pub backup_directory: Option<String>,
    pub surface: Option<String>,
    pub message_file: Option<String>,
    pub push_updates_stdin: bool,
    pub base: Option<String>,
    pub head: Option<String>,
    pub apply: bool,
    pub force: bool,
}

/// An invocation as plain values.
pub ghost struct InvocationView {
    pub category: Seq<char>,
    pub root: Option<Seq<char>>,
    pub format: Format,
    pub files: Seq<Seq<char>>,
    pub directory: Option<Seq<char>>,
    pub backup_directory: Option<Seq<char>>,
    pub surface: Option<Seq<char>>,
    pub message_file: Option<Seq<char>>,
    pub push_updates_stdin: bool,
    pub base: Option<Seq<char>>,
    pub head: Option<Seq<char>>,
    pub apply: bool,
    pub force: bool,
}

pub open spec fn opt_view(o: Option<String>) -> Option<Seq<char>> {
    match o {
        Some(s) => Some(s@),
        None => None,
    }
}

pub open spec fn string_seq(s: Seq<String>) -> Seq<Seq<char>> {
    Seq::new(s.len(), |i: int| s[i]@)
}

impl View for Invocation {
    type V = InvocationView;

    open spec fn view(&self) -> InvocationView {
        InvocationView {
            category: self.category@,
            root: opt_view(self.root),
            format: self.format,
            files: string_seq(self.files@),
            directory: opt_view(self.directory),
            backup_directory: opt_view(self.backup_directory),
            surface: opt_view(self.surface),
            message_file: opt_view(self.message_file),
            push_updates_stdin: self.push_updates_stdin,
            base: opt_view(self.base),
            head: opt_view(self.head),
            apply: self.apply,
            force: self.force,
        }
    }
}

/// A request for help, which is answered rather than refused.
pub struct Help(pub String);

pub enum Parsed {
    Run(Box<Invocation>),
    Help(Help),
}

/// Why an invocation cannot be run.
#[derive(Debug)]
pub struct Refusal {
    pub code: ErrorCode,
    pub message: String,
    /// The output format as far as the parse got before refusing.
    pub format: Format,
}

pub ghost struct RefusalView {
    pub code: ErrorCode,
    pub message: Seq<char>,
    pub format: Format,
}

impl View for Refusal {
    type V = RefusalView;

    open spec fn view(&self) -> RefusalView {
        RefusalView { code: self.code, message: self.message@, format: self.format }
    }
}

pub ghost enum ParsedView {
    Run(InvocationView),
    Help(Seq<char>),
}

pub open spec fn parsed_view(p: Parsed) -> ParsedView {
    match p {
        Parsed::Run(i) => ParsedView::Run(i@),
        Parsed::Help(h) => ParsedView::Help(h.0@),
    }
}

impl Refusal {
    /// The refusal as one line of prose: `rhino: ` and the message.
    pub fn to_text(&self) -> (r: String)
        ensures
            r@ == "rhino: "@ + self.message@,
    {
        let mut out = chars_of("rhino: ");
        extend_str(&mut out, self.message.as_str());
        string_of(&out)
    }
}

/// The format a scan has learned so far: `--json`, or `--output json`.
pub open spec fn resolve_spec(output: Option<Seq<char>>, json: bool) -> Format {
    if json || output == Some("json"@) {
        Format::Json
    } else {
        Format::Text
    }
}

/// What the scan of the command line has collected.
#[verifier::ext_equal]
pub ghost struct ScanView {
    pub path: Seq<Seq<char>>,
    pub help: bool,
    pub version: bool,
    pub root: Option<Seq<char>>,
    pub output: Option<Seq<char>>,
    pub files: Seq<Seq<char>>,
    pub directory: Option<Seq<char>>,
    pub backup: Option<Seq<char>>,
    pub surface: Option<Seq<char>>,
    pub message_file: Option<Seq<char>>,
    pub push: bool,
    pub base: Option<Seq<char>>,
    pub head: Option<Seq<char>>,
    pub apply: bool,
    pub force: bool,
    pub json: bool,
}

pub open spec fn scan_start() -> ScanView {
    ScanView {
        path: Seq::empty(),
        help: false,
        version: false,
        root: None,
        output: None,
        files: Seq::empty(),
        directory: None,
        backup: None,
        surface: None,
        message_file: None,
        push: false,
        base: None,
        head: None,
        apply: false,
        force: false,
        json: false,
    }
}

pub open spec fn needs_value(name: Seq<char>, seen: Format) -> RefusalView {
    RefusalView { code: ErrorCode::ArgsIncomplete, message: "`"@ + name + "` needs a value"@, format: seen }
}

/// What one command-line word is.
#[derive(Clone, Copy, PartialEq, Eq, Structural)]
pub enum ArgKind {
    Help,
    Version,
    Root,
    Output,
    Directory,
    Dir,
    Surface,
    MessageFile,
    Push,
    Base,
    Head,
    Apply,
    Force,
    End,
    File,
    Json,
    Ignored,
    Unknown,
    Segment,
}

pub open spec fn arg_kind(a: Seq<char>) -> ArgKind {
    if a == "--help"@ || a == "-h"@ {
        ArgKind::Help
    } else if a == "--version"@ || a == "-V"@ {
        ArgKind::Version
    } else if a == "--root"@ {
        ArgKind::Root
    } else if a == "--output"@ {
        ArgKind::Output
    } else if a == "--directory"@ {
        ArgKind::Directory
    } else if a == "--dir"@ {
        ArgKind::Dir
    } else if a == "--surface"@ {
        ArgKind::Surface
    } else if a == "--message-file"@ {
        ArgKind::MessageFile
    } else if a == "--push-updates-stdin"@ {
        ArgKind::Push
    } else if a == "--base"@ {
        ArgKind::Base
    } else if a == "--head"@ {
        ArgKind::Head
    } else if a == "--apply"@ {
        ArgKind::Apply
    } else if a == "--force"@ {
        ArgKind::Force
    } else if a == "--"@ {
        ArgKind::End
    } else if a == "--file"@ {
        ArgKind::File
    } else if a == "--json"@ {
        ArgKind::Json
    } else if a == "--quiet"@ || a == "--verbose"@ || a == "--no-color"@ {
        ArgKind::Ignored
    } else if a.len() > 0 && a[0] == '-' {
        ArgKind::Unknown
    } else {
        ArgKind::Segment
    }
}

/// Whether a word takes the next word as its value.
pub open spec fn takes_value(k: ArgKind) -> bool {
    k == ArgKind::Root || k == ArgKind::Output || k == ArgKind::Directory || k == ArgKind::Dir
        || k == ArgKind::Surface || k == ArgKind::MessageFile || k == ArgKind::Base || k
        == ArgKind::Head || k == ArgKind::File
}

/// The scan state after a value-taking word was given `value`.
pub open spec fn with_value(st: ScanView, k: ArgKind, value: Seq<char>) -> ScanView {
    match k {
        ArgKind::Root => ScanView { root: Some(value), ..st },
        ArgKind::Output => ScanView { output: Some(value), ..st },
        ArgKind::Directory => ScanView { directory: Some(value), ..st },
        ArgKind::Dir => ScanView { backup: Some(value), ..st },
        ArgKind::Surface => ScanView { surface: Some(value), ..st },
        ArgKind::MessageFile => ScanView { message_file: Some(value), ..st },
        ArgKind::Base => ScanView { base: Some(value), ..st },
        ArgKind::Head => ScanView { head: Some(value), ..st },
        _ => ScanView { files: st.files.push(value), ..st },
    }
}

/// The scan state after a word that takes no value.
pub open spec fn with_flag(st: ScanView, k: ArgKind, a: Seq<char>) -> ScanView {
    match k {
        ArgKind::Help => ScanView { help: true, ..st },
        ArgKind::Version => ScanView { version: true, ..st },
        ArgKind::Push => ScanView { push: true, ..st },
        ArgKind::Apply => ScanView { apply: true, ..st },
        ArgKind::Force => ScanView { force: true, ..st },
        ArgKind::Json => ScanView { json: true, ..st },
        ArgKind::Segment => ScanView { path: st.path.push(a), ..st },
        _ => st,
    }
}

/// The scan from argument `i` on, given what was collected before it.
pub open spec fn scan_from(args: Seq<Seq<char>>, i: nat, st: ScanView) -> Result<ScanView, RefusalView>
    decreases args.len() - i,
{
    if i >= args.len() {
        Ok(st)
    } else {
        let a = args[i as int];
        let k = arg_kind(a);
        if takes_value(k) {
            if i + 1 < args.len() {
                scan_from(args, i + 2, with_value(st, k, args[(i + 1) as int]))
            } else {
                Err(needs_value(a, resolve_spec(st.output, st.json)))
            }
        } else if k == ArgKind::End {
            Ok(ScanView { path: st.path + args.skip((i + 1) as int), ..st })
        } else if k == ArgKind::Unknown {
            Err(
                RefusalView {
                    code: ErrorCode::ArgsUnrecognized,
                    message: "unrecognized option `"@ + a + "`"@,
                    format: resolve_spec(st.output, st.json),
                },
            )
        } else {
            scan_from(args, i + 1, with_flag(st, k, a))
        }
    }
}

} // verus!

verus! {

struct ScanState {
    path: Vec<Vec<char>>,
    help: bool,
    version: bool,
    root: Option<Vec<char>>,
    output: Option<Vec<char>>,
    files: Vec<Vec<char>>,
    directory: Option<Vec<char>>,
    backup: Option<Vec<char>>,
    surface: Option<Vec<char>>,
    message_file: Option<Vec<char>>,
    push: bool,
    base: Option<Vec<char>>,
    head: Option<Vec<char>>,
    apply: bool,
    force: bool,
    json: bool,
}

pub open spec fn opt_chars(o: Option<Vec<char>>) -> Option<Seq<char>> {
    match o {
        Some(v) => Some(v@),
        None => None,
    }
}

impl View for ScanState {
    type V = ScanView;

    closed spec fn view(&self) -> ScanView {
        ScanView {
            path: crate::text::views(self.path@),
            help: self.help,
            version: self.version,
            root: opt_chars(self.root),
            output: opt_chars(self.output),
            files: crate::text::views(self.files@),
            directory: opt_chars(self.directory),
            backup: opt_chars(self.backup),
            surface: opt_chars(self.surface),
            message_file: opt_chars(self.message_file),
            push: self.push,
            base: opt_chars(self.base),
            head: opt_chars(self.head),
            apply: self.apply,
            force: self.force,
            json: self.json,
        }
    }
}

/// What the scan has learned about the requested format so far. Both
/// spellings count: `--json` is a documented shorthand for `--output json`.
struct PartialFormat<'a> {
    output: Option<&'a Vec<char>>,
    json_flag: bool,
}

impl<'a> PartialFormat<'a> {
    fn resolve(self) -> (f: Format)
        ensures
            f == resolve_spec(
                match self.output {
                    Some(o) => Some(o@),
                    None => None,
                },
                self.json_flag,
            ),
    {
        if self.json_flag {
            return Format::Json;
        }
        match self.output {
            Some(o) => {
                if crate::text::is(o, "json") {
                    Format::Json
                } else {
                    Format::Text
                }
            },
            None => Format::Text,
        }
    }
}

impl Refusal {
    /// A refusal from inside the scan, before the command line has been read
    /// to the end: the format is whatever has been seen so far.
    fn new(seen: PartialFormat, code: ErrorCode, message: Vec<char>) -> (r: Refusal)
        ensures
            r@ == (RefusalView {
                code,
                message: message@,
                format: resolve_spec(
                    match seen.output {
                        Some(o) => Some(o@),
                        None => None,
                    },
                    seen.json_flag,
                ),
            }),
    {
        Refusal { code, message: string_of(&message), format: seen.resolve() }
    }
}

fn scan(args: &Vec<Vec<char>>) -> (r: Result<ScanState, Refusal>)
    ensures
        match r {
            Ok(s) => scan_from(crate::text::views(args@), 0, scan_start()) == Ok::<ScanView, RefusalView>(s@),
            Err(e) => scan_from(crate::text::views(args@), 0, scan_start()) == Err::<ScanView, RefusalView>(e@),
        },
{
    let ghost a = crate::text::views(args@);
    let mut st = ScanState {
        path: Vec::new(),
        help: false,
        version: false,
        root: None,
        output: None,
        files: Vec::new(),
        directory: None,
        backup: None,
        surface: None,
        message_file: None,
        push: false,
        base: None,
        head: None,
        apply: false,
        force: false,
        json: false,
    };
    assert(st@.path =~= Seq::<Seq<char>>::empty());
    assert(st@.files =~= Seq::<Seq<char>>::empty());
    assert(st@ =~= scan_start());
    let mut i: usize = 0;
    while i < args.len()
        invariant
            i <= args.len(),
            a == crate::text::views(args@),
            scan_from(a, 0, scan_start()) == scan_from(a, i as nat, st@),
        decreases args.len() - i,
    {
        match advance(args, i, &mut st) {
            Ok(Some(j)) => {
                i = j;
            },
            Ok(None) => {
                return Ok(st);
            },
            Err(e) => {
                return Err(e);
            },
        }
    }
    Ok(st)
}

/// A copy of a character vector.
fn copy(v: &Vec<char>) -> (r: Vec<char>)
    ensures
        r@ == v@,
{
    crate::text::slice(v, 0, v.len())
}

fn classify(a: &Vec<char>) -> (k: ArgKind)
    ensures
        k == arg_kind(a@),
{
    if is(a, "--help") || is(a, "-h") {
        ArgKind::Help
    } else if is(a, "--version") || is(a, "-V") {
        ArgKind::Version
    } else if is(a, "--root") {
        ArgKind::Root
    } else if is(a, "--output") {
        ArgKind::Output
    } else if is(a, "--directory") {
        ArgKind::Directory
    } else if is(a, "--dir") {
        ArgKind::Dir
    } else if is(a, "--surface") {
        ArgKind::Surface
    } else if is(a, "--message-file") {
        ArgKind::MessageFile
    } else if is(a, "--push-updates-stdin") {
        ArgKind::Push
    } else if is(a, "--base") {
        ArgKind::Base
    } else if is(a, "--head") {
        ArgKind::Head
    } else if is(a, "--apply") {
        ArgKind::Apply
    } else if is(a, "--force") {
        ArgKind::Force
    } else if is(a, "--") {
        ArgKind::End
    } else if is(a, "--file") {
        ArgKind::File
    } else if is(a, "--json") {
        ArgKind::Json
    } else if is(a, "--quiet") || is(a, "--verbose") || is(a, "--no-color") {
        ArgKind::Ignored
    } else if a.len() > 0 && a[0] == '-' {
        ArgKind::Unknown
    } else {
        ArgKind::Segment
    }
}

/// Reads the argument at `i`: where the scan goes next, or that it ended.
fn advance(args: &Vec<Vec<char>>, i: usize, st: &mut ScanState) -> (r: Result<Option<usize>, Refusal>)
    requires
        i < args.len(),
    ensures
        match r {
            Ok(Some(j)) => i < j <= args.len() && scan_from(crate::text::views(args@), i as nat, old(st)@)
                == scan_from(crate::text::views(args@), j as nat, final(st)@),
            Ok(None) => scan_from(crate::text::views(args@), i as nat, old(st)@) == Ok::<ScanView, RefusalView>(final(st)@),
            Err(e) => scan_from(crate::text::views(args@), i as nat, old(st)@) == Err::<ScanView, RefusalView>(e@),
        },
{
    let ghost a = crate::text::views(args@);
    let arg = &args[i];
    assert(a[i as int] == arg@);
    let seen = resolve_of(st);
    let k = classify(arg);
    let ghost old_st = st@;
    match k {
        ArgKind::Root | ArgKind::Output | ArgKind::Directory | ArgKind::Dir | ArgKind::Surface
        | ArgKind::MessageFile | ArgKind::Base | ArgKind::Head | ArgKind::File => {
            if i + 1 >= args.len() {
                let mut m = chars_of("`");
                extend(&mut m, arg);
                extend_str(&mut m, "` needs a value");
                return Err(Refusal { code: ErrorCode::ArgsIncomplete, message: string_of(&m), format: seen });
            }
            assert(a[i + 1] == args@[i + 1]@);
            let value = copy(&args[i + 1]);
            match k {
                ArgKind::Root => st.root = Some(value),
                ArgKind::Output => st.output = Some(value),
                ArgKind::Directory => st.directory = Some(value),
                ArgKind::Dir => st.backup = Some(value),
                ArgKind::Surface => st.surface = Some(value),
                ArgKind::MessageFile => st.message_file = Some(value),
                ArgKind::Base => st.base = Some(value),
                ArgKind::Head => st.head = Some(value),
                _ => {
                    let ghost bf = crate::text::views(st.files@);
                    st.files.push(value);
                    assert(crate::text::views(st.files@) =~= bf.push(a[i + 1]));
                },
            }
            assert(st@ =~= with_value(old_st, k, a[i + 1]));
            Ok(Some(i + 2))
        },
        ArgKind::End => {
            let mut k = i + 1;
            while k < args.len()
                invariant
                    i + 1 <= k <= args.len(),
                    a == crate::text::views(args@),
                    st@ == (ScanView { path: old_st.path + a.subrange(i + 1, k as int), ..old_st }),
                decreases args.len() - k,
            {
                let ghost bp = crate::text::views(st.path@);
                st.path.push(copy(&args[k]));
                assert(crate::text::views(st.path@) =~= bp.push(a[k as int]));
                k += 1;
                assert(a.subrange(i + 1, k as int) =~= a.subrange(i + 1, k - 1).push(a[k - 1]));
                assert(st@ =~= ScanView { path: old_st.path + a.subrange(i + 1, k as int), ..old_st });
            }
            assert(a.subrange(i + 1, args.len() as int) =~= a.skip(i + 1));
            Ok(None)
        },
        ArgKind::Unknown => {
            let mut m = chars_of("unrecognized option `");
            extend(&mut m, arg);
            extend_str(&mut m, "`");
            Err(Refusal { code: ErrorCode::ArgsUnrecognized, message: string_of(&m), format: seen })
        },
        _ => {
            match k {
                ArgKind::Help => st.help = true,
                ArgKind::Version => st.version = true,
                ArgKind::Push => st.push = true,
                ArgKind::Apply => st.apply = true,
                ArgKind::Force => st.force = true,
                ArgKind::Json => st.json = true,
                ArgKind::Segment => {
                    let ghost bp = crate::text::views(st.path@);
                    st.path.push(copy(arg));
                    assert(crate::text::views(st.path@) =~= bp.push(a[i as int]));
                },
                _ => {},
            }
            assert(st@ =~= with_flag(old_st, k, a[i as int]));
            Ok(Some(i + 1))
        },
    }
}

fn resolve_of(st: &ScanState) -> (f: Format)
    ensures
        f == resolve_spec(st@.output, st@.json),
{
    PartialFormat { output: st.output.as_ref(), json_flag: st.json }.resolve()
}

} // verus!

verus! {

/// `s` padded with spaces to at least `width` characters, as `{:<width}`
/// writes it.
pub open spec fn pad_spec(s: Seq<char>, width: nat) -> Seq<char> {
    if s.len() >= width {
        s
    } else {
        s + Seq::new((width - s.len()) as nat, |i: int| ' ')
    }
}

/// The leaves whose path begins with `segs`, in table order.
pub open spec fn matching_spec(table: Seq<LeafView>, segs: Seq<Seq<char>>) -> Seq<LeafView>
    decreases table.len(),
{
    if table.len() == 0 {
        Seq::empty()
    } else {
        let rest = matching_spec(table.drop_last(), segs);
        if segs.is_prefix_of(table.last().path) {
            rest.push(table.last())
        } else {
            rest
        }
    }
}

/// The backquoted paths of the leaves that accept a flag.
pub open spec fn accepting_spec(matching: Seq<LeafView>, flag: Accepts) -> Seq<Seq<char>>
    decreases matching.len(),
{
    if matching.len() == 0 {
        Seq::empty()
    } else {
        let rest = accepting_spec(matching.drop_last(), flag);
        if matching.last().accepts.contains(flag) {
            rest.push("`"@ + join_spec(matching.last().path, " "@) + "`"@)
        } else {
            rest
        }
    }
}

/// One line naming which leaves accept a flag, or nothing when they all do.
pub open spec fn scope_note_spec(matching: Seq<LeafView>, flag: Accepts) -> Seq<char> {
    let accepting = accepting_spec(matching, flag);
    if accepting.len() == matching.len() {
        Seq::empty()
    } else {
        "  (accepted by "@ + join_spec(accepting, ", "@) + " only)\n"@
    }
}

/// Whether any of these leaves accepts a flag.
pub open spec fn present(matching: Seq<LeafView>, flag: Accepts) -> bool {
    exists|i: int| 0 <= i < matching.len() && #[trigger] matching[i].accepts.contains(flag)
}

/// The flags any of these leaves accepts, in help order, each once.
pub open spec fn flags_spec(matching: Seq<LeafView>, n: nat) -> Seq<Accepts>
    decreases n,
{
    if n == 0 {
        Seq::empty()
    } else {
        let rest = flags_spec(matching, (n - 1) as nat);
        if present(matching, accepts_of((n - 1) as nat)) {
            rest.push(accepts_of((n - 1) as nat))
        } else {
            rest
        }
    }
}

pub open spec fn flag_text(flag: Accepts) -> Seq<char> {
    match flag {
        Accepts::File => "  --file <path>          Inspect these paths instead of the declared surface.\n                         Repeatable; `-` reads standard input.\n"@,
        Accepts::Directory => "  --directory <path>     Inspect this directory instead of the declared trees.\n"@,
        Accepts::BackupDirectory => "  --dir <path>           Explicit repository-relative backup destination.\n"@,
        Accepts::Apply => "  --apply                Authorize this declared mutation.\n"@,
        Accepts::Force => "  --force                Replace an existing target after backup planning.\n"@,
        Accepts::Surface => "  --surface <name>       Which closed lifecycle surface is dispatching.\n"@,
        Accepts::MessageFile => "  --message-file <path>  Exact commit-msg hook path, read only for that surface.\n"@,
        Accepts::PushUpdatesStdin => "  --push-updates-stdin   Read Git pre-push update records from standard input.\n"@,
        Accepts::Range => "  --base <sha> --head <sha>\n                         Explicit immutable pull-request range.\n"@,
        Accepts::Json => "  --json                 Shorthand for --output json.\n"@,
    }
}

pub open spec fn help_header(segs: Seq<Seq<char>>) -> Seq<char> {
    if segs.len() == 0 {
        "rhino -- Repository Hygiene & INtegration Orchestrator\n\n"@
            + "Every value it enforces is declared in the repository's repo-config.yml.\n\n"@
    } else {
        "rhino "@ + join_spec(segs, " "@) + "\n\n"@
    }
}

pub open spec fn options_text() -> Seq<char> {
    "\nOptions:\n"@
        + "  --root <path>          The repository to inspect. Defaults to the working directory.\n"@
        + "  --output <text|json>   How to render the result. Defaults to text.\n"@
        + "  -h, --help             Show this help and exit.\n"@
        + "  -V, --version          Show the release identity and exit.\n"@
        + "  --quiet, --verbose, --no-color\n"@
        + "                         Accepted everywhere; presentation only.\n"@
}

pub open spec fn exit_codes_text() -> Seq<char> {
    "\nExit codes:\n  0    checked and clean\n  1    the repository violates its declared policy\n  2    the invocation, root, or configuration was unusable\n  126  a gate child was found and could not be executed\n  127  a gate child was not found\n  128+N  ended by signal N; 130 is an interrupt, 141 a closed pipe\n"@
}

/// The usage text for a path, or `None` when the path names nothing.
pub open spec fn help_spec(segs: Seq<Seq<char>>) -> Option<Seq<char>> {
    let matching = matching_spec(leaf_table(), segs);
    if matching.len() == 0 {
        None
    } else {
        let commands = join_spec(
            Seq::new(
                matching.len(),
                |i: int| "  rhino "@ + pad_spec(join_spec(matching[i].path, " "@), 38) + matching[i].summary + "\n"@,
            ),
            Seq::empty(),
        );
        let flags = flags_spec(matching, 10);
        let flag_block = join_spec(
            Seq::new(flags.len(), |i: int| flag_text(flags[i]) + scope_note_spec(matching, flags[i])),
            Seq::empty(),
        );
        Some(help_header(segs) + "Commands:\n"@ + commands + options_text() + flag_block + exit_codes_text())
    }
}

pub open spec fn unrecognized_spec(segs: Seq<Seq<char>>) -> Seq<char> {
    if segs.len() == 0 {
        "no command given; try `rhino --help`"@
    } else {
        "unrecognized command `"@ + join_spec(segs, " "@) + "`"@
    }
}

/// How far below the root a path's segments reach after each step.
pub open spec fn depth_spec(segs: Seq<Seq<char>>) -> int
    decreases segs.len(),
{
    if segs.len() == 0 {
        0
    } else {
        let s = segs.last();
        depth_spec(segs.drop_last()) + if s == ".."@ {
            -1int
        } else if s == "."@ || s.len() == 0 {
            0int
        } else {
            1int
        }
    }
}

/// Whether some prefix of the segments climbs above the root.
pub open spec fn climbs(segs: Seq<Seq<char>>) -> bool {
    exists|k: int| 1 <= k <= segs.len() && depth_spec(#[trigger] segs.take(k)) < 0
}

/// Why a value cannot address something inside the repository.
pub open spec fn relative_reason(v: Seq<char>) -> Option<Seq<char>> {
    if crate::text::trim_spec(v).len() == 0 {
        Some("names nothing"@)
    } else if v.len() > 0 && v[0] == '/' {
        Some("is absolute, and a selection is relative to the repository root"@)
    } else if climbs(crate::text::split_spec(v, '/')) {
        Some("escapes the repository root"@)
    } else {
        None
    }
}

pub open spec fn opt_is(o: Option<Seq<char>>, s: Seq<char>) -> bool {
    o == Some(s)
}

} // verus!

verus! {

/// Why a value cannot address something inside the repository.
pub fn not_repository_relative(value: &str) -> (r: Option<&'static str>)
    ensures
        match r {
            Some(s) => relative_reason(value@) == Some(s@),
            None => relative_reason(value@) is None,
        },
{
    let v = chars_of(value);
    if crate::text::trim(&v).len() == 0 {
        return Some("names nothing");
    }
    if v.len() > 0 && v[0] == '/' {
        return Some("is absolute, and a selection is relative to the repository root");
    }
    let segments = crate::text::split(&v, '/');
    let ghost segs = crate::text::views(segments@);
    let mut depth: i128 = 0;
    let mut i: usize = 0;
    while i < segments.len()
        invariant
            i <= segments.len(),
            segs == crate::text::views(segments@),
            segs == crate::text::split_spec(v@, '/'),
            v@ == value@,
            crate::text::trim_spec(v@).len() != 0,
            !(v@.len() > 0 && v@[0] == '/'),
            depth as int == depth_spec(segs.take(i as int)),
            0 <= depth <= i,
            forall|k: int| 1 <= k <= i ==> depth_spec(#[trigger] segs.take(k)) >= 0,
        decreases segments.len() - i,
    {
        let s = &segments[i];
        assert(segs[i as int] == s@);
        assert(segs.take(i + 1).drop_last() =~= segs.take(i as int));
        if is(s, "..") {
            depth = depth - 1;
        } else if is(s, ".") || s.len() == 0 {
        } else {
            depth = depth + 1;
        }
        i += 1;
        if depth < 0 {
            assert(depth_spec(segs.take(i as int)) < 0);
            assert(climbs(segs));
            return Some("escapes the repository root");
        }
    }
    assert(segs.take(segs.len() as int) =~= segs);
    assert(!climbs(segs)) by {
        assert forall|k: int| 1 <= k <= segs.len() implies depth_spec(#[trigger] segs.take(k)) >= 0 by {}
    }
    None
}

fn joined_path(path: &'static [&'static str]) -> (r: Vec<char>)
    ensures
        r@ == join_spec(str_views(path@), " "@),
{
    let mut parts: Vec<Vec<char>> = Vec::new();
    let mut i: usize = 0;
    while i < path.len()
        invariant
            i <= path.len(),
            crate::text::views(parts@) == str_views(path@).take(i as int),
        decreases path.len() - i,
    {
        let c = chars_of(path[i]);
        assert(c@ == str_views(path@)[i as int]);
        let ghost before = crate::text::views(parts@);
        parts.push(c);
        assert(crate::text::views(parts@) =~= before.push(c@));
        i += 1;
        assert(crate::text::views(parts@) =~= str_views(path@).take(i as int));
    }
    assert(str_views(path@).take(path.len() as int) =~= str_views(path@));
    crate::text::join(&parts, &chars_of(" "))
}

fn unrecognized_path(segments: &Vec<Vec<char>>) -> (r: Vec<char>)
    ensures
        r@ == unrecognized_spec(crate::text::views(segments@)),
{
    if segments.len() == 0 {
        chars_of("no command given; try `rhino --help`")
    } else {
        let mut m = chars_of("unrecognized command `");
        extend(&mut m, &crate::text::join(segments, &chars_of(" ")));
        extend_str(&mut m, "`");
        m
    }
}

/// The refusal for a command path that names no command.
pub fn unrecognized(segments: &[&str]) -> (r: String)
    ensures
        r@ == unrecognized_spec(str_views(segments@)),
{
    let mut v: Vec<Vec<char>> = Vec::new();
    let mut i: usize = 0;
    while i < segments.len()
        invariant
            i <= segments.len(),
            crate::text::views(v@) == str_views(segments@).take(i as int),
        decreases segments.len() - i,
    {
        let c = chars_of(segments[i]);
        let ghost before = crate::text::views(v@);
        v.push(c);
        assert(crate::text::views(v@) =~= before.push(c@));
        i += 1;
        assert(crate::text::views(v@) =~= str_views(segments@).take(i as int));
    }
    assert(str_views(segments@).take(segments.len() as int) =~= str_views(segments@));
    string_of(&unrecognized_path(&v))
}

pub open spec fn ref_leaf_views<'a>(s: Seq<&'a Leaf>) -> Seq<LeafView> {
    Seq::new(s.len(), |i: int| s[i]@)
}

/// One line naming which leaves accept a flag, or nothing when they all do.
pub fn scope_note(matching: &[&Leaf], flag: Accepts) -> (r: String)
    ensures
        r@ == scope_note_spec(ref_leaf_views(matching@), flag),
{
    let ghost m = ref_leaf_views(matching@);
    let mut accepting: Vec<Vec<char>> = Vec::new();
    let mut i: usize = 0;
    while i < matching.len()
        invariant
            i <= matching.len(),
            m == ref_leaf_views(matching@),
            crate::text::views(accepting@) == accepting_spec(m.take(i as int), flag),
            accepting.len() <= i,
        decreases matching.len() - i,
    {
        let leaf = matching[i];
        assert(m[i as int] == leaf@);
        assert(m.take(i + 1).drop_last() =~= m.take(i as int));
        let mut takes = false;
        let mut k: usize = 0;
        while k < leaf.accepts.len()
            invariant
                k <= leaf.accepts@.len(),
                takes == leaf.accepts@.take(k as int).contains(flag),
            decreases leaf.accepts.len() - k,
        {
            let ghost prev = leaf.accepts@.take(k as int);
            let here = leaf.accepts[k] == flag;
            if here {
                takes = true;
            }
            k += 1;
            proof {
                let now = leaf.accepts@.take(k as int);
                assert(now =~= prev.push(leaf.accepts@[k - 1]));
                if here {
                    assert(now[k - 1] == flag);
                } else {
                    if now.contains(flag) {
                        let j = choose|j: int| 0 <= j < now.len() && now[j] == flag;
                        assert(prev[j] == flag);
                    }
                }
                if prev.contains(flag) {
                    let j = choose|j: int| 0 <= j < prev.len() && prev[j] == flag;
                    assert(now[j] == flag);
                }
            }
        }
        assert(leaf.accepts@.take(leaf.accepts@.len() as int) =~= leaf.accepts@);
        if takes {
            let mut name = chars_of("`");
            extend(&mut name, &joined_path(leaf.path));
            extend_str(&mut name, "`");
            let ghost before = crate::text::views(accepting@);
            accepting.push(name);
            assert(crate::text::views(accepting@) =~= before.push(name@));
        }
        i += 1;
    }
    assert(m.take(matching.len() as int) =~= m);
    if accepting.len() == matching.len() {
        return String::new();
    }
    let mut out = chars_of("  (accepted by ");
    extend(&mut out, &crate::text::join(&accepting, &chars_of(", ")));
    extend_str(&mut out, " only)\n");
    string_of(&out)
}

} // verus!

verus! {

fn accepts_at(r: usize) -> (a: Accepts)
    ensures
        a == accepts_of(r as nat),
{
    if r == 0 {
        Accepts::File
    } else if r == 1 {
        Accepts::Directory
    } else if r == 2 {
        Accepts::BackupDirectory
    } else if r == 3 {
        Accepts::Apply
    } else if r == 4 {
        Accepts::Force
    } else if r == 5 {
        Accepts::Surface
    } else if r == 6 {
        Accepts::MessageFile
    } else if r == 7 {
        Accepts::PushUpdatesStdin
    } else if r == 8 {
        Accepts::Range
    } else {
        Accepts::Json
    }
}

fn takes(leaf: &Leaf, flag: Accepts) -> (r: bool)
    ensures
        r == leaf@.accepts.contains(flag),
{
    let mut k: usize = 0;
    while k < leaf.accepts.len()
        invariant
            k <= leaf.accepts@.len(),
            forall|j: int| 0 <= j < k ==> leaf.accepts@[j] != flag,
        decreases leaf.accepts.len() - k,
    {
        if leaf.accepts[k] == flag {
            assert(leaf.accepts@[k as int] == flag);
            return true;
        }
        k += 1;
    }
    false
}

fn path_starts_with(path: &'static [&'static str], segs: &Vec<Vec<char>>) -> (r: bool)
    ensures
        r == crate::text::views(segs@).is_prefix_of(str_views(path@)),
{
    let ghost s = crate::text::views(segs@);
    let ghost p = str_views(path@);
    if segs.len() > path.len() {
        return false;
    }
    let mut k: usize = 0;
    while k < segs.len()
        invariant
            k <= segs.len() <= path@.len(),
            s == crate::text::views(segs@),
            p == str_views(path@),
            forall|j: int| 0 <= j < k ==> s[j] == p[j],
        decreases segs.len() - k,
    {
        let c = chars_of(path[k]);
        assert(c@ == p[k as int]);
        assert(s[k as int] == segs@[k as int]@);
        if !crate::text::same(&segs[k], &c) {
            assert(p.take(s.len() as int)[k as int] != s[k as int]);
            return false;
        }
        k += 1;
    }
    assert(p.take(s.len() as int) =~= s);
    true
}

fn pad(s: Vec<char>, width: usize) -> (r: Vec<char>)
    ensures
        r@ == pad_spec(s@, width as nat),
{
    let mut r = s;
    let ghost orig = r@;
    if r.len() >= width {
        return r;
    }
    while r.len() < width
        invariant
            orig.len() <= r.len() <= width,
            r@ == orig + Seq::new((r.len() - orig.len()) as nat, |i: int| ' '),
        decreases width - r.len(),
    {
        r.push(' ');
        assert(r@ =~= orig + Seq::new((r.len() - orig.len()) as nat, |i: int| ' '));
    }
    r
}

/// The leaves whose path begins with `segments`, in table order.
fn matching_leaves<'a>(all: &'a Vec<Leaf>, segments: &Vec<Vec<char>>) -> (r: Vec<&'a Leaf>)
    ensures
        ref_leaf_views(r@) == matching_spec(leaf_views(all@), crate::text::views(segments@)),
{
    let ghost table = leaf_views(all@);
    let ghost segs = crate::text::views(segments@);
    let mut r: Vec<&'a Leaf> = Vec::new();
    let mut i: usize = 0;
    while i < all.len()
        invariant
            i <= all.len(),
            table == leaf_views(all@),
            segs == crate::text::views(segments@),
            ref_leaf_views(r@) == matching_spec(table.take(i as int), segs),
        decreases all.len() - i,
    {
        let leaf = &all[i];
        assert(table.take(i + 1).drop_last() =~= table.take(i as int));
        assert(table.take(i + 1).last() == leaf@);
        let ghost before = ref_leaf_views(r@);
        if path_starts_with(leaf.path, segments) {
            r.push(leaf);
            assert(ref_leaf_views(r@) =~= before.push(leaf@));
        }
        i += 1;
    }
    assert(table.take(all.len() as int) =~= table);
    r
}

pub open spec fn command_line(leaf: LeafView) -> Seq<char> {
    "  rhino "@ + pad_spec(join_spec(leaf.path, " "@), 38) + leaf.summary + "\n"@
}

/// One line per matching leaf: its path, padded, and its summary.
fn command_lines(matching: &Vec<&Leaf>) -> (r: Vec<char>)
    ensures
        r@ == join_spec(
            Seq::new(matching@.len(), |i: int| command_line(ref_leaf_views(matching@)[i])),
            Seq::empty(),
        ),
{
    let ghost m = ref_leaf_views(matching@);
    let mut lines: Vec<Vec<char>> = Vec::new();
    let mut i: usize = 0;
    while i < matching.len()
        invariant
            i <= matching.len(),
            m == ref_leaf_views(matching@),
            crate::text::views(lines@) == Seq::new(i as nat, |k: int| command_line(m[k])),
        decreases matching.len() - i,
    {
        let leaf = matching[i];
        let mut line = chars_of("  rhino ");
        extend(&mut line, &pad(joined_path(leaf.path), 38));
        extend_str(&mut line, leaf.summary);
        extend_str(&mut line, "\n");
        assert(line@ =~= command_line(m[i as int]));
        let ghost before = crate::text::views(lines@);
        lines.push(line);
        assert(crate::text::views(lines@) =~= before.push(line@));
        i += 1;
        assert(crate::text::views(lines@) =~= Seq::new(i as nat, |k: int| command_line(m[k])));
    }
    crate::text::join(&lines, &Vec::new())
}

/// The help line of a flag.
fn flag_line(flag: Accepts) -> (r: &'static str)
    ensures
        r@ == flag_text(flag),
{
    match flag {
        Accepts::File => "  --file <path>          Inspect these paths instead of the declared surface.\n                         Repeatable; `-` reads standard input.\n",
        Accepts::Directory => "  --directory <path>     Inspect this directory instead of the declared trees.\n",
        Accepts::BackupDirectory => "  --dir <path>           Explicit repository-relative backup destination.\n",
        Accepts::Apply => "  --apply                Authorize this declared mutation.\n",
        Accepts::Force => "  --force                Replace an existing target after backup planning.\n",
        Accepts::Surface => "  --surface <name>       Which closed lifecycle surface is dispatching.\n",
        Accepts::MessageFile => "  --message-file <path>  Exact commit-msg hook path, read only for that surface.\n",
        Accepts::PushUpdatesStdin => "  --push-updates-stdin   Read Git pre-push update records from standard input.\n",
        Accepts::Range => "  --base <sha> --head <sha>\n                         Explicit immutable pull-request range.\n",
        Accepts::Json => "  --json                 Shorthand for --output json.\n",
    }
}

/// Whether any of the matching leaves accepts a flag.
fn any_accepts(matching: &Vec<&Leaf>, flag: Accepts) -> (r: bool)
    ensures
        r == present(ref_leaf_views(matching@), flag),
{
    let ghost m = ref_leaf_views(matching@);
    let mut i: usize = 0;
    while i < matching.len()
        invariant
            i <= matching.len(),
            m == ref_leaf_views(matching@),
            forall|k: int| 0 <= k < i ==> !(#[trigger] m[k]).accepts.contains(flag),
        decreases matching.len() - i,
    {
        if takes(matching[i], flag) {
            assert(m[i as int].accepts.contains(flag));
            return true;
        }
        i += 1;
    }
    false
}

pub open spec fn flag_entry(matching: Seq<LeafView>, flag: Accepts) -> Seq<char> {
    flag_text(flag) + scope_note_spec(matching, flag)
}

/// The flags any matching leaf accepts, in help order, each with its note.
fn flag_block(matching: &Vec<&Leaf>) -> (r: Vec<char>)
    ensures
        r@ == join_spec(
            Seq::new(
                flags_spec(ref_leaf_views(matching@), 10).len(),
                |i: int| flag_entry(ref_leaf_views(matching@), flags_spec(ref_leaf_views(matching@), 10)[i]),
            ),
            Seq::empty(),
        ),
{
    let ghost m = ref_leaf_views(matching@);
    let mut entries: Vec<Vec<char>> = Vec::new();
    let mut n: usize = 0;
    while n < 10
        invariant
            n <= 10,
            m == ref_leaf_views(matching@),
            crate::text::views(entries@) == Seq::new(
                flags_spec(m, n as nat).len(),
                |i: int| flag_entry(m, flags_spec(m, n as nat)[i]),
            ),
        decreases 10 - n,
    {
        let flag = accepts_at(n);
        let ghost before = crate::text::views(entries@);
        let ghost fl = flags_spec(m, n as nat);
        if any_accepts(matching, flag) {
            let mut entry = chars_of(flag_line(flag));
            let note = scope_note(matching.as_slice(), flag);
            extend_str(&mut entry, note.as_str());
            entries.push(entry);
            assert(flags_spec(m, (n + 1) as nat) == fl.push(flag));
            assert(crate::text::views(entries@) =~= before.push(flag_entry(m, flag)));
        } else {
            assert(flags_spec(m, (n + 1) as nat) == fl);
        }
        n += 1;
        assert(crate::text::views(entries@) =~= Seq::new(
            flags_spec(m, n as nat).len(),
            |i: int| flag_entry(m, flags_spec(m, n as nat)[i]),
        ));
    }
    crate::text::join(&entries, &Vec::new())
}

fn header(segments: &Vec<Vec<char>>) -> (r: Vec<char>)
    ensures
        r@ == help_header(crate::text::views(segments@)),
{
    if segments.len() == 0 {
        let mut h = chars_of("rhino -- Repository Hygiene & INtegration Orchestrator\n\n");
        extend_str(&mut h, "Every value it enforces is declared in the repository's repo-config.yml.\n\n");
        h
    } else {
        let mut h = chars_of("rhino ");
        extend(&mut h, &crate::text::join(segments, &chars_of(" ")));
        extend_str(&mut h, "\n\n");
        h
    }
}

/// Usage for a path, or `None` when the path names nothing. Built from the
/// same table the dispatcher reads, so a leaf cannot exist without being
/// documented.
fn help_for(segments: &Vec<Vec<char>>) -> (r: Option<Vec<char>>)
    ensures
        opt_chars(r) == help_spec(crate::text::views(segments@)),
{
    let all = leaves();
    let matching = matching_leaves(&all, segments);
    if matching.len() == 0 {
        return None;
    }
    let mut out = header(segments);
    extend_str(&mut out, "Commands:\n");
    extend(&mut out, &command_lines(&matching));
    extend_str(&mut out, "\nOptions:\n");
    extend_str(&mut out, "  --root <path>          The repository to inspect. Defaults to the working directory.\n");
    extend_str(&mut out, "  --output <text|json>   How to render the result. Defaults to text.\n");
    extend_str(&mut out, "  -h, --help             Show this help and exit.\n");
    extend_str(&mut out, "  -V, --version          Show the release identity and exit.\n");
    extend_str(&mut out, "  --quiet, --verbose, --no-color\n");
    extend_str(&mut out, "                         Accepted everywhere; presentation only.\n");
    extend(&mut out, &flag_block(&matching));
    extend_str(&mut out, "\nExit codes:\n  0    checked and clean\n  1    the repository violates its declared policy\n  2    the invocation, root, or configuration was unusable\n  126  a gate child was found and could not be executed\n  127  a gate child was not found\n  128+N  ended by signal N; 130 is an interrupt, 141 a closed pipe\n");
    let ghost m = ref_leaf_views(matching@);
    assert(Seq::new(matching@.len(), |i: int| command_line(m[i])) =~= Seq::new(
        m.len(),
        |i: int| "  rhino "@ + pad_spec(join_spec(m[i].path, " "@), 38) + m[i].summary + "\n"@,
    ));
    assert(Seq::new(flags_spec(m, 10).len(), |i: int| flag_entry(m, flags_spec(m, 10)[i])) =~= Seq::new(
        flags_spec(m, 10).len(),
        |i: int| flag_text(flags_spec(m, 10)[i]) + scope_note_spec(m, flags_spec(m, 10)[i]),
    ));
    Some(out)
}

fn find_leaf(all: &Vec<Leaf>, path: &Vec<Vec<char>>) -> (r: Option<usize>)
    ensures
        match r {
            Some(k) => k < all.len() && leaf_index(leaf_views(all@), crate::text::views(path@)) == Some(k as nat),
            None => leaf_index(leaf_views(all@), crate::text::views(path@)) is None,
        },
{
    let ghost table = leaf_views(all@);
    let ghost want = crate::text::views(path@);
    assert(table.skip(0) =~= table);
    let mut i: usize = 0;
    while i < all.len()
        invariant
            i <= all.len(),
            table == leaf_views(all@),
            want == crate::text::views(path@),
            leaf_index(table, want) == match leaf_index(table.skip(i as int), want) {
                Some(k) => Some((k + i) as nat),
                None => None::<nat>,
            },
        decreases all.len() - i,
    {
        let leaf = &all[i];
        assert(table[i as int] == leaf@);
        assert(table.skip(i as int)[0] == table[i as int]);
        assert(table.skip(i as int).drop_first() =~= table.skip(i + 1));
        if path_starts_with(leaf.path, path) && leaf.path.len() == path.len() {
            assert(str_views(leaf.path@) =~= want);
            assert(leaf_index(table.skip(i as int), want) == Some(0nat));
            return Some(i);
        }
        proof {
            if leaf@.path == want {
                assert(want.is_prefix_of(leaf@.path));
            }
        }
        i += 1;
    }
    assert(table.skip(all.len() as int) =~= Seq::<LeafView>::empty());
    None
}

/// The scan result once `help` as a first word and `--version` are taken
/// into account.
pub open spec fn effective(st: ScanView) -> ScanView {
    let st1 = if st.path.len() > 0 && st.path[0] == "help"@ {
        ScanView { path: st.path.drop_first(), help: true, ..st }
    } else {
        st
    };
    if st1.version && !st1.help {
        ScanView { path: seq!["version"@], ..st1 }
    } else {
        st1
    }
}

/// The first leaf whose path is exactly `path`.
pub open spec fn leaf_index(table: Seq<LeafView>, path: Seq<Seq<char>>) -> Option<nat>
    decreases table.len(),
{
    if table.len() == 0 {
        None
    } else if table[0].path == path {
        Some(0)
    } else {
        match leaf_index(table.drop_first(), path) {
            Some(k) => Some(k + 1),
            None => None,
        }
    }
}

pub open spec fn given_flags(e: ScanView) -> Seq<(bool, Accepts, Seq<char>)> {
    seq![
        (e.files.len() > 0, Accepts::File, "--file"@),
        (e.directory is Some, Accepts::Directory, "--directory"@),
        (e.backup is Some, Accepts::BackupDirectory, "--dir"@),
        (e.surface is Some, Accepts::Surface, "--surface"@),
        (e.message_file is Some, Accepts::MessageFile, "--message-file"@),
        (e.push, Accepts::PushUpdatesStdin, "--push-updates-stdin"@),
        (e.base is Some || e.head is Some, Accepts::Range, "--base/--head"@),
        (e.json, Accepts::Json, "--json"@),
        (e.apply, Accepts::Apply, "--apply"@),
        (e.force, Accepts::Force, "--force"@),
    ]
}

/// The first flag given that the leaf does not accept.
pub open spec fn first_rejected(list: Seq<(bool, Accepts, Seq<char>)>, accepts: Seq<Accepts>) -> Option<Seq<char>>
    decreases list.len(),
{
    if list.len() == 0 {
        None
    } else if list[0].0 && !accepts.contains(list[0].1) {
        Some(list[0].2)
    } else {
        first_rejected(list.drop_first(), accepts)
    }
}

/// The first selected file, other than standard input, that cannot address
/// something inside the repository, with the reason.
pub open spec fn first_bad_file(files: Seq<Seq<char>>) -> Option<(Seq<char>, Seq<char>)>
    decreases files.len(),
{
    if files.len() == 0 {
        None
    } else if files[0] != "-"@ && relative_reason(files[0]) is Some {
        Some((files[0], relative_reason(files[0])->0))
    } else {
        first_bad_file(files.drop_first())
    }
}

pub open spec fn refusal(code: ErrorCode, message: Seq<char>, format: Format) -> Result<ParsedView, RefusalView> {
    Err(RefusalView { code, message, format })
}

/// The checks that follow once the leaf and format are known.
pub open spec fn checks_spec(e: ScanView, leaf: LeafView, format: Format) -> Result<ParsedView, RefusalView> {
    let gate = leaf.category == "gate"@;
    if e.directory is Some && relative_reason(e.directory->0) is Some {
        refusal(
            ErrorCode::PathEscapesRoot,
            "`--directory "@ + e.directory->0 + "` "@ + relative_reason(e.directory->0)->0,
            format,
        )
    } else if first_bad_file(e.files) is Some {
        let (f, reason) = first_bad_file(e.files)->0;
        refusal(ErrorCode::PathEscapesRoot, "`--file "@ + f + "` "@ + reason, format)
    } else if e.json && e.output is Some && format == Format::Text {
        refusal(ErrorCode::ArgsIncomplete, "`--json` and `--output text` ask for different things"@, format)
    } else if (e.base is Some) != (e.head is Some) {
        refusal(ErrorCode::ArgsIncomplete, "`--base` and `--head` must be supplied together"@, format)
    } else if gate && e.message_file is Some && e.surface != Some("commit-msg"@) {
        refusal(
            ErrorCode::ArgsIncomplete,
            "`--message-file` is accepted only with `--surface commit-msg`"@,
            format,
        )
    } else if gate && e.push && e.surface != Some("pre-push"@) {
        refusal(
            ErrorCode::ArgsIncomplete,
            "`--push-updates-stdin` is accepted only with `--surface pre-push`"@,
            format,
        )
    } else if gate && e.base is Some && e.surface != Some("pull-request"@) {
        refusal(
            ErrorCode::ArgsIncomplete,
            "`--base` and `--head` are accepted only with `--surface pull-request`"@,
            format,
        )
    } else {
        Ok(
            ParsedView::Run(
                InvocationView {
                    category: leaf.category,
                    root: e.root,
                    format: if e.json {
                        Format::Json
                    } else {
                        format
                    },
                    files: e.files,
                    directory: e.directory,
                    backup_directory: e.backup,
                    surface: e.surface,
                    message_file: e.message_file,
                    push_updates_stdin: e.push,
                    base: e.base,
                    head: e.head,
                    apply: e.apply,
                    force: e.force,
                },
            ),
        )
    }
}

/// What a leaf invocation resolves to once its format is read.
pub open spec fn run_spec(e: ScanView, leaf: LeafView) -> Result<ParsedView, RefusalView> {
    if e.output is Some && e.output != Some("text"@) && e.output != Some("json"@) {
        refusal(
            ErrorCode::ArgsUnrecognized,
            "`--output "@ + e.output->0 + "` is not a format this build writes; expected `text` or `json`"@,
            resolve_spec(None, e.json),
        )
    } else {
        let format = if e.output == Some("json"@) {
            Format::Json
        } else {
            Format::Text
        };
        match first_rejected(given_flags(e), leaf.accepts) {
            Some(name) => refusal(
                ErrorCode::ArgsUnrecognized,
                "`"@ + name + "` is not accepted by `"@ + join_spec(leaf.path, " "@) + "`"@,
                format,
            ),
            None => checks_spec(e, leaf, format),
        }
    }
}

/// What a completed scan decides.
pub open spec fn decide_spec(st: ScanView) -> Result<ParsedView, RefusalView> {
    let e = effective(st);
    let seen = resolve_spec(e.output, e.json);
    if e.help {
        match help_spec(e.path) {
            Some(t) => Ok(ParsedView::Help(t)),
            None => refusal(ErrorCode::ArgsUnrecognized, unrecognized_spec(e.path), seen),
        }
    } else {
        match leaf_index(leaf_table(), e.path) {
            None => refusal(ErrorCode::ArgsUnrecognized, unrecognized_spec(e.path), seen),
            Some(idx) => run_spec(e, leaf_table()[idx as int]),
        }
    }
}

/// What a command line asks for, or why it cannot be run.
pub open spec fn parse_spec(args: Seq<Seq<char>>) -> Result<ParsedView, RefusalView> {
    match scan_from(args, 0, scan_start()) {
        Err(e) => Err(e),
        Ok(st) => decide_spec(st),
    }
}

fn opt_string(o: &Option<Vec<char>>) -> (r: Option<String>)
    ensures
        opt_view(r) == opt_chars(*o),
{
    match o {
        Some(v) => Some(string_of(v)),
        None => None,
    }
}

fn strings(v: &Vec<Vec<char>>) -> (r: Vec<String>)
    ensures
        string_seq(r@) == crate::text::views(v@),
{
    let mut r: Vec<String> = Vec::new();
    let mut i: usize = 0;
    while i < v.len()
        invariant
            i <= v.len(),
            string_seq(r@) == crate::text::views(v@).take(i as int),
        decreases v.len() - i,
    {
        let s = string_of(&v[i]);
        let ghost before = string_seq(r@);
        r.push(s);
        assert(string_seq(r@) =~= before.push(s@));
        i += 1;
        assert(string_seq(r@) =~= crate::text::views(v@).take(i as int));
    }
    assert(crate::text::views(v@).take(v.len() as int) =~= crate::text::views(v@));
    r
}

fn refuse(code: ErrorCode, message: &Vec<char>, format: Format) -> (r: Refusal)
    ensures
        r@ == (RefusalView { code, message: message@, format }),
{
    Refusal { code, message: string_of(message), format }
}

fn opt_is_str(o: &Option<Vec<char>>, s: &str) -> (r: bool)
    ensures
        r == (opt_chars(*o) == Some(s@)),
{
    match o {
        Some(v) => is(v, s),
        None => false,
    }
}

fn checks(e: &ScanState, leaf: &Leaf, format: Format) -> (r: Result<Parsed, Refusal>)
    ensures
        match r {
            Ok(p) => checks_spec(e@, leaf@, format) == Ok::<ParsedView, RefusalView>(parsed_view(p)),
            Err(x) => checks_spec(e@, leaf@, format) == Err::<ParsedView, RefusalView>(x@),
        },
{
    let ghost ev = e@;
    if let Some(d) = &e.directory {
        let ds = string_of(d);
        if let Some(reason) = not_repository_relative(ds.as_str()) {
            let mut m = chars_of("`--directory ");
            extend(&mut m, d);
            extend_str(&mut m, "` ");
            extend_str(&mut m, reason);
            return Err(refuse(ErrorCode::PathEscapesRoot, &m, format));
        }
    }
    assert(ev.files.skip(0) =~= ev.files);
    let mut i: usize = 0;
    while i < e.files.len()
        invariant
            i <= e.files.len(),
            ev == e@,
            ev.files == crate::text::views(e.files@),
            ev.directory is Some ==> relative_reason(ev.directory->0) is None,
            first_bad_file(ev.files) == first_bad_file(ev.files.skip(i as int)),
        decreases e.files.len() - i,
    {
        let f = &e.files[i];
        assert(ev.files.skip(i as int)[0] == f@);
        assert(ev.files.skip(i as int).drop_first() =~= ev.files.skip(i + 1));
        if !(is(f, "-")) {
            let fs = string_of(f);
            if let Some(reason) = not_repository_relative(fs.as_str()) {
                let mut m = chars_of("`--file ");
                extend(&mut m, f);
                extend_str(&mut m, "` ");
                extend_str(&mut m, reason);
                assert(first_bad_file(ev.files.skip(i as int)) == Some((f@, reason@)));
                assert(m@ =~= "`--file "@ + f@ + "` "@ + reason@);
                return Err(refuse(ErrorCode::PathEscapesRoot, &m, format));
            }
        }
        i += 1;
    }
    assert(ev.files.skip(e.files.len() as int) =~= Seq::<Seq<char>>::empty());
    if e.json && e.output.is_some() && format == Format::Text {
        return Err(refuse(ErrorCode::ArgsIncomplete, &chars_of("`--json` and `--output text` ask for different things"), format));
    }
    if e.base.is_some() != e.head.is_some() {
        return Err(refuse(ErrorCode::ArgsIncomplete, &chars_of("`--base` and `--head` must be supplied together"), format));
    }
    let gate = is(&chars_of(leaf.category), "gate");
    if gate && e.message_file.is_some() && !opt_is_str(&e.surface, "commit-msg") {
        return Err(refuse(ErrorCode::ArgsIncomplete, &chars_of("`--message-file` is accepted only with `--surface commit-msg`"), format));
    }
    if gate && e.push && !opt_is_str(&e.surface, "pre-push") {
        return Err(refuse(ErrorCode::ArgsIncomplete, &chars_of("`--push-updates-stdin` is accepted only with `--surface pre-push`"), format));
    }
    if gate && e.base.is_some() && !opt_is_str(&e.surface, "pull-request") {
        return Err(refuse(ErrorCode::ArgsIncomplete, &chars_of("`--base` and `--head` are accepted only with `--surface pull-request`"), format));
    }
    let invocation = Invocation {
        category: leaf.category,
        root: opt_string(&e.root),
        format: if e.json {
            Format::Json
        } else {
            format
        },
        files: strings(&e.files),
        directory: opt_string(&e.directory),
        backup_directory: opt_string(&e.backup),
        surface: opt_string(&e.surface),
        message_file: opt_string(&e.message_file),
        push_updates_stdin: e.push,
        base: opt_string(&e.base),
        head: opt_string(&e.head),
        apply: e.apply,
        force: e.force,
    };
    Ok(Parsed::Run(Box::new(invocation)))
}

fn given_list(e: &ScanState) -> (r: Vec<(bool, Accepts, &'static str)>)
    ensures
        Seq::new(r@.len(), |i: int| (r@[i].0, r@[i].1, r@[i].2@)) == given_flags(e@),
{
    let r = vec![
        (e.files.len() > 0, Accepts::File, "--file"),
        (e.directory.is_some(), Accepts::Directory, "--directory"),
        (e.backup.is_some(), Accepts::BackupDirectory, "--dir"),
        (e.surface.is_some(), Accepts::Surface, "--surface"),
        (e.message_file.is_some(), Accepts::MessageFile, "--message-file"),
        (e.push, Accepts::PushUpdatesStdin, "--push-updates-stdin"),
        (e.base.is_some() || e.head.is_some(), Accepts::Range, "--base/--head"),
        (e.json, Accepts::Json, "--json"),
        (e.apply, Accepts::Apply, "--apply"),
        (e.force, Accepts::Force, "--force"),
    ];
    assert(Seq::new(r@.len(), |i: int| (r@[i].0, r@[i].1, r@[i].2@)) =~= given_flags(e@));
    r
}

fn run(e: &ScanState, leaf: &Leaf) -> (r: Result<Parsed, Refusal>)
    ensures
        match r {
            Ok(p) => run_spec(e@, leaf@) == Ok::<ParsedView, RefusalView>(parsed_view(p)),
            Err(x) => run_spec(e@, leaf@) == Err::<ParsedView, RefusalView>(x@),
        },
{
    proof {
        reveal_strlit("text");
        reveal_strlit("json");
    }
    let format = match &e.output {
        None => Format::Text,
        Some(o) => {
            assert(e@.output == Some(o@));
            assert("text"@[0] != "json"@[0]);
            if is(o, "text") {
                Format::Text
            } else if is(o, "json") {
                Format::Json
            } else {
                let mut m = chars_of("`--output ");
                extend(&mut m, o);
                extend_str(&mut m, "` is not a format this build writes; expected `text` or `json`");
                let seen = PartialFormat { output: None, json_flag: e.json }.resolve();
                return Err(refuse(ErrorCode::ArgsUnrecognized, &m, seen));
            }
        },
    };
    let list = given_list(e);
    let ghost l = Seq::new(list@.len(), |i: int| (list@[i].0, list@[i].1, list@[i].2@));
    assert(l.skip(0) =~= l);
    let mut i: usize = 0;
    while i < list.len()
        invariant
            i <= list.len(),
            l == Seq::new(list@.len(), |i: int| (list@[i].0, list@[i].1, list@[i].2@)),
            l == given_flags(e@),
            !(e@.output is Some && e@.output != Some("text"@) && e@.output != Some("json"@)),
            format == (if e@.output == Some("json"@) { Format::Json } else { Format::Text }),
            first_rejected(l, leaf@.accepts) == first_rejected(l.skip(i as int), leaf@.accepts),
        decreases list.len() - i,
    {
        let (given, flag, name) = list[i];
        assert(l.skip(i as int)[0] == l[i as int]);
        assert(l.skip(i as int).drop_first() =~= l.skip(i + 1));
        if given && !takes(leaf, flag) {
            let mut m = chars_of("`");
            extend_str(&mut m, name);
            extend_str(&mut m, "` is not accepted by `");
            extend(&mut m, &joined_path(leaf.path));
            extend_str(&mut m, "`");
            assert(first_rejected(l.skip(i as int), leaf@.accepts) == Some(name@));
            assert(m@ =~= "`"@ + name@ + "` is not accepted by `"@ + join_spec(leaf@.path, " "@) + "`"@);
            return Err(refuse(ErrorCode::ArgsUnrecognized, &m, format));
        }
        i += 1;
    }
    assert(l.skip(list.len() as int) =~= Seq::<(bool, Accepts, Seq<char>)>::empty());
    assert(first_rejected(given_flags(e@), leaf@.accepts) is None);
    checks(e, leaf, format)
}

fn decide(st: ScanState) -> (r: Result<Parsed, Refusal>)
    ensures
        match r {
            Ok(p) => decide_spec(st@) == Ok::<ParsedView, RefusalView>(parsed_view(p)),
            Err(x) => decide_spec(st@) == Err::<ParsedView, RefusalView>(x@),
        },
{
    let ghost orig = st@;
    let mut st = st;
    if st.path.len() > 0 && is(&st.path[0], "help") {
        let ghost bp = crate::text::views(st.path@);
        st.path.remove(0);
        assert(crate::text::views(st.path@) =~= bp.drop_first());
        st.help = true;
    }
    if st.version && !st.help {
        let mut p: Vec<Vec<char>> = Vec::new();
        p.push(chars_of("version"));
        st.path = p;
        assert(crate::text::views(st.path@) =~= seq!["version"@]);
    }
    assert(st@ =~= effective(orig));
    let seen = resolve_of(&st);
    if st.help {
        return match help_for(&st.path) {
            Some(t) => Ok(Parsed::Help(Help(string_of(&t)))),
            None => Err(refuse(ErrorCode::ArgsUnrecognized, &unrecognized_path(&st.path), seen)),
        };
    }
    let all = leaves();
    match find_leaf(&all, &st.path) {
        Some(k) => {
            assert(leaf_views(all@)[k as int] == all@[k as int]@);
            run(&st, &all[k])
        },
        None => Err(refuse(ErrorCode::ArgsUnrecognized, &unrecognized_path(&st.path), seen)),
    }
}

/// What a command line asks for, or why it cannot be run: help for any
/// prefix of the command tree, a leaf with the flags it accepts, or a refusal
/// carrying its code and the format the caller had asked for.
pub fn parse(arguments: &[String]) -> (r: Result<Parsed, Refusal>)
    ensures
        match r {
            Ok(p) => parse_spec(string_seq(arguments@)) == Ok::<ParsedView, RefusalView>(parsed_view(p)),
            Err(x) => parse_spec(string_seq(arguments@)) == Err::<ParsedView, RefusalView>(x@),
        },
{
    let mut args: Vec<Vec<char>> = Vec::new();
    let mut i: usize = 0;
    while i < arguments.len()
        invariant
            i <= arguments.len(),
            crate::text::views(args@) == string_seq(arguments@).take(i as int),
        decreases arguments.len() - i,
    {
        let c = chars_of(arguments[i].as_str());
        let ghost before = crate::text::views(args@);
        args.push(c);
        assert(crate::text::views(args@) =~= before.push(c@));
        i += 1;
        assert(crate::text::views(args@) =~= string_seq(arguments@).take(i as int));
    }
    assert(string_seq(arguments@).take(arguments.len() as int) =~= string_seq(arguments@));
    match scan(&args) {
        Err(e) => Err(e),
        Ok(st) => decide(st),
    }
}

} // verus!
