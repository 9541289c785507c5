//! The repository configuration.
//!
//! Every value RHINO enforces is declared here by the consuming repository.
//! The tool ships no default for any of them: a repository that declares
//! nothing gets a configuration error, never a borrowed assumption.
//!
//! Sections are named after the command path that reads them, with spaces
//! replaced by hyphens, so a reader can find a section from a command and back
//! again.
use crate::text::{
    chars_of, decimal, decimal_spec, extend, extend_str, find_from, lines_spec, split_once_spec,
    string_of, trim_spec,
};
use vstd::prelude::*;

pub mod v2;

verus! {

/// Where the configuration lives, relative to the repository root.
pub const PATH: &'static str = "repo-config.yml";

/// The one schema this stable build reads.
pub const SCHEMA: &'static str = "rhino/repo-config/v2";

/// Why a configuration could not be used.
///
/// Every variant is exit code `2`. None of them degrade to a partial run: a
/// validator that skipped a tree because its configuration was malformed would
/// report a clean repository that was never checked.
#[derive(Debug, Clone, PartialEq, Eq)]
pub enum ConfigError {
    Missing,
    Unreadable(String),
    SchemaUndeclared,
    SchemaUnrecognized { declared: String, line: usize },
    Malformed(String),
    Semantic { key: String, line: usize, reason: String },
}

/// A configuration error as plain values.
pub ghost enum ConfigFault {
    Missing,
    Unreadable(Seq<char>),
    SchemaUndeclared,
    SchemaUnrecognized { declared: Seq<char>, line: nat },
    Malformed(Seq<char>),
    Semantic { key: Seq<char>, line: nat, reason: Seq<char> },
}

impl View for ConfigError {
    type V = ConfigFault;

    open spec fn view(&self) -> ConfigFault {
        match self {
            ConfigError::Missing => ConfigFault::Missing,
            ConfigError::Unreadable(r) => ConfigFault::Unreadable(r@),
            ConfigError::SchemaUndeclared => ConfigFault::SchemaUndeclared,
            ConfigError::SchemaUnrecognized { declared, line } => ConfigFault::SchemaUnrecognized {
                declared: declared@,
                line: *line as nat,
            },
            ConfigError::Malformed(m) => ConfigFault::Malformed(m@),
            ConfigError::Semantic { key, line, reason } => ConfigFault::Semantic {
                key: key@,
                line: *line as nat,
                reason: reason@,
            },
        }
    }
}

/// A parse result as plain values.
pub open spec fn result_view(r: Result<Document, ConfigError>) -> Result<Document, ConfigFault> {
    match r {
        Ok(d) => Ok(d),
        Err(e) => Err(e@),
    }
}

/// The sentence a configuration error is reported with.
pub open spec fn config_message(e: ConfigFault) -> Seq<char> {
    match e {
        ConfigFault::Missing => PATH@
            + ": no configuration file at line 1: RHINO holds no defaults, so every value it enforces has to be declared here"@,
        ConfigFault::Unreadable(reason) => PATH@ + ": cannot be read at line 1: "@ + reason,
        ConfigFault::SchemaUndeclared => PATH@ + ": line 1 declares no schema: expected `schema: "@
            + SCHEMA@ + "`"@,
        ConfigFault::SchemaUnrecognized { declared, line } => PATH@ + ": line "@ + decimal_spec(
            line,
        ) + ": unrecognized schema `"@ + declared + "`: this stable build accepts only `"@
            + SCHEMA@ + "` and no longer accepts predecessor configuration"@,
        ConfigFault::Malformed(message) => PATH@ + ": "@ + message,
        ConfigFault::Semantic { key, line, reason } => PATH@ + ": line "@ + decimal_spec(line)
            + ": "@ + key + ": "@ + reason,
    }
}

impl ConfigError {
    /// The error as one sentence naming the file and the line.
    pub fn message(&self) -> (r: String)
        ensures
            r@ == config_message(self@),
    {
        let mut out = chars_of(PATH);
        match self {
            ConfigError::Missing => {
                extend_str(
                    &mut out,
                    ": no configuration file at line 1: RHINO holds no defaults, so every value it enforces has to be declared here",
                );
            },
            ConfigError::Unreadable(reason) => {
                extend_str(&mut out, ": cannot be read at line 1: ");
                extend_str(&mut out, reason.as_str());
            },
            ConfigError::SchemaUndeclared => {
                extend_str(&mut out, ": line 1 declares no schema: expected `schema: ");
                extend_str(&mut out, SCHEMA);
                extend_str(&mut out, "`");
            },
            ConfigError::SchemaUnrecognized { declared, line } => {
                extend_str(&mut out, ": line ");
                extend(&mut out, &decimal(*line));
                extend_str(&mut out, ": unrecognized schema `");
                extend_str(&mut out, declared.as_str());
                extend_str(&mut out, "`: this stable build accepts only `");
                extend_str(&mut out, SCHEMA);
                extend_str(&mut out, "` and no longer accepts predecessor configuration");
            },
            ConfigError::Malformed(message) => {
                extend_str(&mut out, ": ");
                extend_str(&mut out, message.as_str());
            },
            ConfigError::Semantic { key, line, reason } => {
                extend_str(&mut out, ": line ");
                extend(&mut out, &decimal(*line));
                extend_str(&mut out, ": ");
                extend_str(&mut out, key.as_str());
                extend_str(&mut out, ": ");
                extend_str(&mut out, reason.as_str());
            },
        }
        string_of(&out)
    }
}

/// Shared typed policy sections projected from the grouped stable document.
#[derive(Debug, Clone, Default)]
pub struct Config {
    pub word_budget: Option<WordBudget>,
    pub directory_map: Option<DirectoryMap>,
    pub internal_link: InternalLink,
    pub mermaid: Option<Mermaid>,
    pub frontmatter: Option<Frontmatter>,
    pub heading_hierarchy: Option<HeadingHierarchy>,
    pub naming: Option<Naming>,
    pub readme_index: Option<ReadmeIndex>,
    pub emoji: Option<Emoji>,
    /// Where this repository's governed artifacts live, and which canonical
    /// schema each surface carries.
    pub metadata: Option<Metadata>,
    pub scan: Option<Scan>,
}

/// The directory names a configuration's scan excludes, or none.
pub open spec fn excluded_spec(c: Config) -> Seq<String> {
    match c.scan {
        Some(s) => s.exclude_directories@,
        None => Seq::empty(),
    }
}

impl Config {
    /// The directory names a grouped policy excludes from its shared scan.
    pub fn excluded(&self) -> (r: &[String])
        ensures
            r@ == excluded_spec(*self),
    {
        match &self.scan {
            Some(scan) => scan.exclude_directories.as_slice(),
            None => &[],
        }
    }
}

/// The portable tiers an agent may be keyed by, named for the workload
/// rather than for a model.
pub open spec fn tiers() -> Seq<Seq<char>> {
    seq!["ultra"@, "plan"@, "execution"@, "fast"@]
}

/// Whether a value names one of the portable tiers.
pub fn is_tier(value: &str) -> (r: bool)
    ensures
        r == tiers().contains(value@),
{
    let v = chars_of(value);
    let r = crate::text::is(&v, "ultra") || crate::text::is(&v, "plan") || crate::text::is(&v, "execution")
        || crate::text::is(&v, "fast");
    proof {
        if r {
            if v@ == "ultra"@ {
                assert(tiers()[0] == value@);
            } else if v@ == "plan"@ {
                assert(tiers()[1] == value@);
            } else if v@ == "execution"@ {
                assert(tiers()[2] == value@);
            } else {
                assert(tiers()[3] == value@);
            }
        }
    }
    r
}

#[derive(Debug, Clone, PartialEq, Eq)]
pub struct Metadata {
    /// Ordered: where two globs match one file, the last matching entry wins.
    pub surfaces: Vec<MetadataSurface>,
}

#[derive(Debug, Clone, PartialEq, Eq)]
pub struct MetadataSurface {
    pub glob: String,
    pub schema: MetadataSchema,
}

/// The four canonical artifact families.
#[derive(Debug, Clone, Copy, PartialEq, Eq, Structural)]
pub enum MetadataSchema {
    Governance,
    Workflow,
    Skill,
    Agent,
}

#[derive(Debug, Clone, PartialEq, Eq)]
pub struct WordBudget {
    /// What this repository means by a word.
    pub count: WordRule,
    /// Ordered: where two globs match one file, the last matching entry wins.
    pub surfaces: Vec<Surface>,
}

/// The two definitions of a word in use.
#[derive(Debug, Clone, Copy, PartialEq, Eq, Structural)]
pub enum WordRule {
    /// A run of letters, marks, and digits, optionally joined to another such
    /// run by an apostrophe, hyphen, or underscore.
    LettersAndDigits,
    /// Anything between two runs of whitespace.
    WhitespaceSeparated,
}

#[derive(Debug, Clone, PartialEq, Eq)]
pub struct Surface {
    pub glob: String,
    /// Strictly greater than this is a finding.
    pub fail: usize,
    pub warn: Option<usize>,
    pub target: Option<usize>,
}

#[derive(Debug, Clone, PartialEq, Eq)]
pub struct DirectoryMap {
    pub trees: Vec<Tree>,
}

/// A repository-relative root to walk.
#[derive(Debug, Clone, PartialEq, Eq)]
pub struct Tree {
    pub path: String,
}

#[derive(Debug, Clone, Default, PartialEq, Eq)]
pub struct InternalLink {
    /// Globs excluded as link sources. Files under them stay valid targets.
    pub exclude_sources: Vec<String>,
}

#[derive(Debug, Clone, PartialEq, Eq)]
pub struct Mermaid {
    /// The one authoring rule this repository applies to conceptual diagrams.
    pub authoring_rule: Option<AuthoringRule>,
    pub node_label_graphemes: usize,
    pub edge_label_graphemes: usize,
    pub fill_colors: Vec<String>,
    pub edge_colors: Vec<String>,
    pub text_colors: Vec<String>,
}

/// The two diagram authoring rules, one of which a repository declares.
#[derive(Debug, Clone, Copy, PartialEq, Eq, Structural)]
pub enum AuthoringRule {
    /// Mermaid, carrying an accessible title and description.
    Rendered,
    /// ASCII with prose beside it, and no Mermaid at all.
    PlainText,
}

#[derive(Debug, Clone, PartialEq, Eq)]
pub struct Frontmatter {
    /// Ordered, last match wins.
    pub surfaces: Vec<FrontmatterSurface>,
}

#[derive(Debug, Clone, PartialEq, Eq)]
pub struct FrontmatterSurface {
    pub glob: String,
    /// Keys that must be present.
    pub require: Vec<String>,
    /// Keys whose value must come from a declared set, each with its set,
    /// keys in ascending order and each once, as a sorted map keeps them.
    pub values: Vec<(String, Vec<String>)>,
    /// Keys whose value must be an ISO calendar date.
    pub iso_date: Vec<String>,
    /// Keys that may not appear.
    pub forbid: Vec<String>,
}

#[derive(Debug, Clone, PartialEq, Eq)]
pub struct HeadingHierarchy {
    pub surfaces: Vec<Globbed>,
    /// Whether a governed document holds exactly one level-1 heading.
    pub single_h1: bool,
    /// How far a heading may drop below the one before it.
    pub max_level_jump: usize,
}

/// A declared glob and nothing else.
#[derive(Debug, Clone, PartialEq, Eq)]
pub struct Globbed {
    pub glob: String,
}

/// Files in which an emoji code point is a finding.
#[derive(Debug, Clone, PartialEq, Eq)]
pub struct Emoji {
    pub prohibited: Vec<Globbed>,
}

/// Which trees require a README in every directory.
#[derive(Debug, Clone)]
pub struct ReadmeIndex {
    pub trees: Vec<Tree>,
}

#[derive(Debug, Clone, PartialEq, Eq)]
pub struct Naming {
    /// Ordered: where two globs match one file, the last matching entry wins.
    pub surfaces: Vec<NamingSurface>,
    /// Globs no style applies to.
    pub exempt: Vec<String>,
}

#[derive(Debug, Clone, PartialEq, Eq)]
pub struct NamingSurface {
    pub glob: String,
    pub style: NameStyle,
    /// What joins an encoded directory prefix to the content name.
    pub separator: Option<String>,
}

/// The two filename styles.
#[derive(Debug, Clone, Copy, PartialEq, Eq, Structural)]
pub enum NameStyle {
    /// Lowercase alphanumeric runs joined by single hyphens.
    KebabCase,
    /// The file's own directory path, encoded, then the separator, then a
    /// kebab-case content name.
    PathPrefixed,
}

#[derive(Debug, Clone)]
pub struct Scan {
    /// Directory names, matched at any depth.
    pub exclude_directories: Vec<String>,
}

/// The sole stable configuration document: one that declares the stable
/// schema.
#[derive(Debug, Clone, Copy, PartialEq, Eq, Structural)]
pub enum Document {
    V0_4,
}

/// The first non-blank line of `ls` at or after `i`, when it is a comment
/// naming a schema: the declared value and its one-based line.
pub open spec fn commented_from(ls: Seq<Seq<char>>, i: nat) -> Option<(Seq<char>, nat)>
    decreases ls.len() - i,
{
    if i >= ls.len() {
        None
    } else {
        let line = trim_spec(ls[i as int]);
        if line.len() == 0 {
            commented_from(ls, i + 1)
        } else if line[0] != '#' {
            None
        } else {
            match split_once_spec(line.drop_first(), "schema:"@) {
                None => commented_from(ls, i + 1),
                Some((_, declared)) => Some((trim_spec(declared), i + 1)),
            }
        }
    }
}

/// A schema declared in a leading comment, which only a predecessor wrote.
pub open spec fn commented_spec(text: Seq<char>) -> Option<(Seq<char>, nat)> {
    commented_from(lines_spec(text), 0)
}

/// A predecessor schema declared in a leading comment, with its line. It is
/// recognized only so it can be refused explicitly; it is never decoded.
pub fn commented_schema(text: &str) -> (r: Option<(String, usize)>)
    ensures
        match r {
            Some((d, n)) => commented_spec(text@) == Some((d@, n as nat)),
            None => commented_spec(text@) is None,
        },
{
    let ls = crate::text::lines(&chars_of(text));
    let ghost lv = crate::text::views(ls@);
    let pattern = chars_of("schema:");
    let mut i: usize = 0;
    while i < ls.len()
        invariant
            i <= ls.len(),
            lv == crate::text::views(ls@),
            lv == lines_spec(text@),
            pattern@ == "schema:"@,
            commented_from(lv, 0) == commented_from(lv, i as nat),
        decreases ls.len() - i,
    {
        let line = crate::text::trim(&ls[i]);
        assert(line@ == trim_spec(lv[i as int]));
        if line.len() > 0 {
            if line[0] != '#' {
                return None;
            }
            let comment = crate::text::slice(&line, 1, line.len());
            assert(comment@ =~= line@.drop_first());
            if let Some((_, declared)) = crate::text::split_once(&comment, &pattern) {
                let d = crate::text::trim(&declared);
                return Some((string_of(&d), i + 1));
            }
        }
        i += 1;
    }
    None
}

/// The top-level `schema` value of a document as `yaml_serde` reads it into a
/// `serde_json::Value`: a string there, nothing, or the parser's message when
/// the text is not YAML.
pub uninterp spec fn yaml_schema(text: Seq<char>) -> Result<Option<Seq<char>>, Seq<char>>;

/// Reads only the top-level `schema` declaration.
///
/// Calls `yaml_serde::from_str` into a `serde_json::Value` and, when the
/// document is a mapping whose `schema` key holds a string, hands that string
/// back. What it returns is named `yaml_schema` of the text; the parser's
/// behaviour is not restated here.
#[verifier::external_body]
fn keyed_schema(text: &str) -> (r: Result<Option<String>, String>)
    ensures
        match r {
            Ok(Some(s)) => yaml_schema(text@) == Ok::<Option<Seq<char>>, Seq<char>>(Some(s@)),
            Ok(None) => yaml_schema(text@) == Ok::<Option<Seq<char>>, Seq<char>>(None),
            Err(m) => yaml_schema(text@) == Err::<Option<Seq<char>>, Seq<char>>(m@),
        },
{
    let raw: serde_json::Value = match yaml_serde::from_str(text) {
        Ok(value) => value,
        Err(error) => return Err(error.to_string()),
    };
    match raw.get("schema") {
        Some(serde_json::Value::String(declared)) => Ok(Some(declared.clone())),
        _ => Ok(None),
    }
}

/// What a read of the `schema` key decides.
pub open spec fn keyed_verdict(keyed: Result<Option<Seq<char>>, Seq<char>>) -> Result<Document, ConfigFault> {
    match keyed {
        Err(m) => Err(ConfigFault::Malformed(m)),
        Ok(None) => Err(ConfigFault::SchemaUndeclared),
        Ok(Some(d)) => if d == SCHEMA@ {
            Ok(Document::V0_4)
        } else {
            Err(ConfigFault::SchemaUnrecognized { declared: d, line: 1 })
        },
    }
}

/// Decides the schema from what a read of the `schema` key gave back: the
/// stable schema is accepted, another is refused as unrecognized at line 1,
/// none is undeclared, and text that is not YAML is malformed.
pub fn schema_verdict(keyed: Result<Option<String>, String>) -> (r: Result<Document, ConfigError>)
    ensures
        result_view(r) == keyed_verdict(
            match keyed {
                Ok(Some(s)) => Ok(Some(s@)),
                Ok(None) => Ok(None),
                Err(m) => Err(m@),
            },
        ),
{
    match keyed {
        Err(m) => Err(ConfigError::Malformed(m)),
        Ok(None) => Err(ConfigError::SchemaUndeclared),
        Ok(Some(d)) => {
            let dc = chars_of(d.as_str());
            if crate::text::is(&dc, SCHEMA) {
                Ok(Document::V0_4)
            } else {
                Err(ConfigError::SchemaUnrecognized { declared: d, line: 1 })
            }
        },
    }
}

/// What configuration text decides: a predecessor schema in a leading comment
/// is refused with its line; otherwise the `schema` key decides.
pub open spec fn parse_spec(text: Seq<char>) -> Result<Document, ConfigFault> {
    match commented_spec(text) {
        Some((declared, line)) => Err(ConfigFault::SchemaUnrecognized { declared, line }),
        None => keyed_verdict(yaml_schema(text)),
    }
}

/// Parse configuration text and decide which schema it declares.
pub fn parse(text: &str) -> (r: Result<Document, ConfigError>)
    ensures
        result_view(r) == parse_spec(text@),
{
    if let Some((declared, line)) = commented_schema(text) {
        return Err(ConfigError::SchemaUnrecognized { declared, line });
    }
    schema_verdict(keyed_schema(text))
}

} // verus!
