//! Internal-link validation.
//!
//! Resolves local document targets and nothing else. An external URL is
//! recognised and skipped -- never fetched, never reported on -- which is
//! what the command name promises and what keeps the whole tool
//! network-free.
use crate::config::{Config, InternalLink};
use crate::governance::directory_map::{has_a_scheme, has_scheme};
use crate::markdown::mermaid::replace_spec;
use crate::markdown::naming::refused_view;
use crate::markdown::{numbered_views, prose_lines, prose_spec};
use crate::report::{Finding, FindingView, Report, ReportView};
use crate::runtime::{exists_as, Tree, TreeFault};
use crate::scan::{corpus_of, corpus_spec, document_views, glob_failure, glob_match, Corpus};
use crate::text::{chars_of, extend, extend_str, join, join_spec, split, split_spec, string_of, views};
use vstd::prelude::*;

verus! {

/// `[text](destination)`, with an optional title the destination stops
/// before. The opening bracket is part of the match so that the character
/// before it can be inspected: `![alt](src)` is an image, not a link.
pub const INLINE: &'static str = "\\[[^\\]]*\\]\\(\\s*<?([^)<>\\s]*)>?(?:\\s+\"[^\"]*\")?\\s*\\)";

/// `[label]: destination`, the reference-style definition.
pub const DEFINITION: &'static str = "^\\s{0,3}\\[[^\\]]+\\]:\\s*<?([^>\\s]+)>?";

/// Each match of `pattern` in `text`, from left to right without overlap:
/// the byte offset at which the match starts and the text of its first
/// group; or `None` when the pattern does not compile.
pub uninterp spec fn regex_captures(pattern: Seq<char>, text: Seq<char>) -> Option<Seq<(Option<nat>, Option<Seq<char>>)>>;

pub open spec fn capture_views(c: Seq<(Option<usize>, Option<String>)>) -> Seq<(Option<nat>, Option<Seq<char>>)> {
    Seq::new(
        c.len(),
        |i: int|
            (
                match c[i].0 {
                    Some(s) => Some(s as nat),
                    None => None,
                },
                match c[i].1 {
                    Some(g) => Some(g@),
                    None => None,
                },
            ),
    )
}

/// Calls `regex::Regex::new` and then `Regex::captures_iter`, handing back
/// for every match where it starts and its first group. Claimed: the result
/// is `regex_captures` of the two arguments; nothing is claimed of what the
/// matches are.
#[verifier::external_body]
fn captures_all(pattern: &str, text: &str) -> (r: Option<Vec<(Option<usize>, Option<String>)>>)
    ensures
        match r {
            Some(found) => regex_captures(pattern@, text@) == Some(capture_views(found@)),
            None => regex_captures(pattern@, text@) is None,
        },
{
    match regex::Regex::new(pattern) {
        Ok(re) => Some(
            re.captures_iter(text).map(|c| (c.get(0).map(|m| m.start()), c.get(1).map(|m| m.as_str().to_string()))).collect(),
        ),
        Err(_) => None,
    }
}

/// How many bytes UTF-8 spends on a character.
pub open spec fn utf8_width(c: char) -> nat {
    if (c as u32) < 0x80 {
        1
    } else if (c as u32) < 0x800 {
        2
    } else if (c as u32) < 0x10000 {
        3
    } else {
        4
    }
}

/// The UTF-8 length of a text.
pub open spec fn byte_len(s: Seq<char>) -> nat
    decreases s.len(),
{
    if s.len() == 0 {
        0
    } else {
        byte_len(s.drop_last()) + utf8_width(s.last())
    }
}

/// Whether the character that ends at byte offset `start` is `!`.
pub open spec fn bang_before(s: Seq<char>, start: nat) -> bool {
    exists|i: int| 0 < i <= s.len() && byte_len(#[trigger] s.take(i)) == start && s[i - 1] == '!'
}

proof fn lemma_byte_len_grows(s: Seq<char>, a: int, b: int)
    requires
        0 <= a <= b <= s.len(),
    ensures
        byte_len(s.take(a)) + (b - a) <= byte_len(s.take(b)),
    decreases b - a,
{
    if a < b {
        lemma_byte_len_grows(s, a, b - 1);
        assert(s.take(b).drop_last() =~= s.take(b - 1));
    }
}

fn width(c: char) -> (r: usize)
    ensures
        r == utf8_width(c),
{
    let n = c as u32;
    if n < 0x80 {
        1
    } else if n < 0x800 {
        2
    } else if n < 0x10000 {
        3
    } else {
        4
    }
}

fn bang_at(s: &Vec<char>, start: usize) -> (r: bool)
    ensures
        r == bang_before(s@, start as nat),
{
    let mut offset: usize = 0;
    let mut i: usize = 0;
    assert(s@.take(0) =~= Seq::<char>::empty());
    while i < s.len()
        invariant
            i <= s.len(),
            offset as nat == byte_len(s@.take(i as int)),
            offset <= start,
            forall|k: int| 0 < k <= i ==> !(byte_len(#[trigger] s@.take(k)) == start && s@[k - 1] == '!'),
        decreases s.len() - i,
    {
        assert(s@.take(i + 1).drop_last() =~= s@.take(i as int));
        assert(s@.take(i + 1).last() == s@[i as int]);
        let w = width(s[i]);
        if start - offset < w {
            assert forall|k: int| 0 < k <= s.len() implies !(byte_len(#[trigger] s@.take(k)) == start && s@[k - 1] == '!') by {
                if k > i {
                    lemma_byte_len_grows(s@, i + 1, k);
                }
            }
            return false;
        }
        let next = offset + w;
        if next == start && s[i] == '!' {
            assert(byte_len(s@.take(i + 1)) == start && s@[i as int] == '!');
            return true;
        }
        offset = next;
        i += 1;
    }
    false
}

/// The inline destinations among a line's captures, images left out.
pub open spec fn inline_from(content: Seq<char>, caps: Seq<(Option<nat>, Option<Seq<char>>)>) -> Seq<Seq<char>>
    decreases caps.len(),
{
    if caps.len() == 0 {
        Seq::empty()
    } else {
        let rest = inline_from(content, caps.drop_last());
        match caps.last() {
            (Some(start), Some(group)) => if bang_before(content, start) {
                rest
            } else {
                rest.push(group)
            },
            _ => rest,
        }
    }
}

/// The destinations one prose line holds: its inline links, then its
/// reference definition, if it is one.
pub open spec fn line_destinations(content: Seq<char>) -> Seq<Seq<char>> {
    (match regex_captures(INLINE@, content) {
        Some(caps) => inline_from(content, caps),
        None => Seq::empty(),
    }) + match regex_captures(DEFINITION@, content) {
        Some(caps) => if caps.len() > 0 && caps[0].1 is Some {
            seq![caps[0].1->Some_0]
        } else {
            Seq::empty()
        },
        None => Seq::empty(),
    }
}

pub open spec fn destinations_from(lines: Seq<(nat, Seq<char>)>) -> Seq<(nat, Seq<char>)>
    decreases lines.len(),
{
    if lines.len() == 0 {
        Seq::empty()
    } else {
        let (line, content) = lines.last();
        let found = line_destinations(content);
        destinations_from(lines.drop_last()) + Seq::new(found.len(), |i: int| (line, found[i]))
    }
}

/// Every link destination in a document's prose, with the line it is on.
pub open spec fn destinations_spec(text: Seq<char>) -> Seq<(nat, Seq<char>)> {
    destinations_from(prose_spec(text))
}

fn line_links(content: &str) -> (r: Vec<Vec<char>>)
    ensures
        views(r@) == line_destinations(content@),
{
    let chars = chars_of(content);
    let mut r: Vec<Vec<char>> = Vec::new();
    match captures_all(INLINE, content) {
        Some(caps) => {
            let ghost cv = capture_views(caps@);
            let mut i: usize = 0;
            while i < caps.len()
                invariant
                    i <= caps.len(),
                    cv == capture_views(caps@),
                    chars@ == content@,
                    views(r@) == inline_from(content@, cv.take(i as int)),
                decreases caps.len() - i,
            {
                assert(cv.take(i + 1).drop_last() =~= cv.take(i as int));
                assert(cv.take(i + 1).last() == cv[i as int]);
                match (&caps[i].0, &caps[i].1) {
                    (Some(start), Some(group)) => {
                        if !bang_at(&chars, *start) {
                            let ghost before = views(r@);
                            r.push(chars_of(group.as_str()));
                            assert(views(r@) =~= before.push(group@));
                        }
                    },
                    _ => {},
                }
                i += 1;
            }
            assert(cv.take(caps.len() as int) =~= cv);
        },
        None => {},
    }
    let ghost inline = views(r@);
    match captures_all(DEFINITION, content) {
        Some(caps) => {
            if caps.len() > 0 {
                match &caps[0].1 {
                    Some(group) => {
                        r.push(chars_of(group.as_str()));
                        assert(capture_views(caps@)[0].1 == Some(group@));
                        assert(views(r@) =~= inline + seq![group@]);
                    },
                    None => {
                        assert(views(r@) =~= inline + Seq::<Seq<char>>::empty());
                    },
                }
            } else {
                assert(views(r@) =~= inline + Seq::<Seq<char>>::empty());
            }
        },
        None => {
            assert(views(r@) =~= inline + Seq::<Seq<char>>::empty());
        },
    }
    r
}

pub open spec fn link_views(v: Seq<(usize, Vec<char>)>) -> Seq<(nat, Seq<char>)> {
    Seq::new(v.len(), |i: int| (v[i].0 as nat, v[i].1@))
}

pub(crate) fn destinations(text: &str) -> (r: Vec<(usize, Vec<char>)>)
    ensures
        link_views(r@) == destinations_spec(text@),
{
    let lines = prose_lines(text);
    let ghost lv = numbered_views(lines@);
    let mut r: Vec<(usize, Vec<char>)> = Vec::new();
    let mut i: usize = 0;
    while i < lines.len()
        invariant
            i <= lines.len(),
            lv == numbered_views(lines@),
            lv == prose_spec(text@),
            link_views(r@) == destinations_from(lv.take(i as int)),
        decreases lines.len() - i,
    {
        assert(lv.take(i + 1).drop_last() =~= lv.take(i as int));
        assert(lv.take(i + 1).last() == (lines@[i as int].0 as nat, lines@[i as int].1@));
        let line = lines[i].0;
        let found = line_links(lines[i].1.as_str());
        let ghost base = link_views(r@);
        let ghost fv = views(found@);
        let mut j: usize = 0;
        while j < found.len()
            invariant
                j <= found.len(),
                fv == views(found@),
                link_views(r@) == base + Seq::new(j as nat, |k: int| (line as nat, fv[k])),
            decreases found.len() - j,
        {
            let ghost before = link_views(r@);
            r.push((line, crate::text::slice(&found[j], 0, found[j].len())));
            assert(found@[j as int]@.subrange(0, found@[j as int]@.len() as int) =~= fv[j as int]);
            assert(link_views(r@) =~= before.push((line as nat, fv[j as int])));
            assert(link_views(r@) =~= base + Seq::new((j + 1) as nat, |k: int| (line as nat, fv[k])));
            j += 1;
        }
        i += 1;
    }
    assert(lv.take(lines.len() as int) =~= lv);
    r
}

/// The repository-relative part of a destination, or `None` when it is not
/// this repository's to resolve: empty, a same-document fragment, or one
/// with a scheme.
pub open spec fn local_spec(destination: Seq<char>) -> Option<Seq<char>> {
    if destination.len() == 0 || destination[0] == '#' || has_scheme(destination) {
        None
    } else {
        Some(split_spec(split_spec(destination, '#')[0], '?')[0])
    }
}

pub(crate) fn local(destination: &Vec<char>) -> (r: Option<Vec<char>>)
    ensures
        match r {
            Some(p) => local_spec(destination@) == Some(p@),
            None => local_spec(destination@) is None,
        },
{
    if destination.len() == 0 || destination[0] == '#' || has_a_scheme(destination) {
        return None;
    }
    let pieces = split(destination, '#');
    proof {
        crate::text::lemma_split_nonempty(destination@, '#');
    }
    let first = &pieces[0];
    let parts = split(first, '?');
    proof {
        crate::text::lemma_split_nonempty(first@, '?');
        assert(views(pieces@)[0] == first@);
    }
    assert(views(parts@)[0] == parts@[0]@);
    Some(crate::text::slice(&parts[0], 0, parts[0].len()))
}

/// Why a local target is not reachable.
#[derive(Clone, Copy, Debug, PartialEq, Eq, Structural)]
pub enum Fault {
    Malformed,
    Outside,
    Missing,
}

impl Fault {
    pub open spec fn kind_spec(self) -> Seq<char> {
        match self {
            Fault::Malformed => "internal-link-malformed"@,
            Fault::Outside => "internal-link-outside-repository"@,
            Fault::Missing => "internal-link-missing"@,
        }
    }

    pub fn kind(&self) -> (r: &'static str)
        ensures
            r@ == self.kind_spec(),
    {
        match self {
            Fault::Malformed => "internal-link-malformed",
            Fault::Outside => "internal-link-outside-repository",
            Fault::Missing => "internal-link-missing",
        }
    }

    pub open spec fn message_spec(self, destination: Seq<char>) -> Seq<char> {
        let readable = replace_spec(destination, seq!['\0'], "\\0"@);
        "`"@ + readable + match self {
            Fault::Malformed => "` is not a usable path"@,
            Fault::Outside => "` resolves outside the repository"@,
            Fault::Missing => "` does not exist"@,
        }
    }

    pub fn message(&self, destination: &Vec<char>) -> (r: String)
        ensures
            r@ == self.message_spec(destination@),
    {
        proof {
            reveal_strlit("\0");
            assert("\0"@ =~= seq!['\0']);
        }
        let readable = crate::markdown::mermaid::replace(destination, "\0", &chars_of("\\0"));
        let mut m = chars_of("`");
        extend(&mut m, &readable);
        match self {
            Fault::Malformed => extend_str(&mut m, "` is not a usable path"),
            Fault::Outside => extend_str(&mut m, "` resolves outside the repository"),
            Fault::Missing => extend_str(&mut m, "` does not exist"),
        }
        string_of(&m)
    }
}

/// Walks the segments of a target from the directory `base`: an empty
/// segment or `.` stays, `..` climbs, and climbing past the root is `None`.
pub open spec fn walk_segments(base: Seq<Seq<char>>, segments: Seq<Seq<char>>) -> Option<Seq<Seq<char>>>
    decreases segments.len(),
{
    if segments.len() == 0 {
        Some(base)
    } else {
        let s = segments[0];
        if s == Seq::<char>::empty() || s == "."@ {
            walk_segments(base, segments.drop_first())
        } else if s == ".."@ {
            if base.len() == 0 {
                None
            } else {
                walk_segments(base.drop_last(), segments.drop_first())
            }
        } else {
            walk_segments(base.push(s), segments.drop_first())
        }
    }
}

/// What a target resolves to from the document at `source`, or `None` when
/// it climbs out of the repository.
pub open spec fn resolved_spec(source: Seq<char>, target: Seq<char>) -> Option<Seq<char>> {
    match walk_segments(split_spec(source, '/').drop_last(), split_spec(target, '/')) {
        Some(segments) => Some(join_spec(segments, "/"@)),
        None => None,
    }
}

/// The fault of a local target, given whether the path it resolves to
/// exists.
pub open spec fn fault_spec(source: Seq<char>, target: Seq<char>, present: bool) -> Option<Fault> {
    if target.contains('\0') {
        Some(Fault::Malformed)
    } else if target.len() > 0 && target[0] == '/' {
        Some(Fault::Outside)
    } else if target.len() == 0 {
        None
    } else {
        match resolved_spec(source, target) {
            None => Some(Fault::Outside),
            Some(path) => if path.len() == 0 || present {
                None
            } else {
                Some(Fault::Missing)
            },
        }
    }
}

fn walk(base: Vec<Vec<char>>, segments: &Vec<Vec<char>>) -> (r: Option<Vec<Vec<char>>>)
    ensures
        match r {
            Some(s) => walk_segments(views(base@), views(segments@)) == Some(views(s@)),
            None => walk_segments(views(base@), views(segments@)) is None,
        },
{
    let mut current = base;
    let mut i: usize = 0;
    assert(views(segments@).skip(0) =~= views(segments@));
    while i < segments.len()
        invariant
            i <= segments.len(),
            walk_segments(views(base@), views(segments@)) == walk_segments(views(current@), views(segments@).skip(i as int)),
        decreases segments.len() - i,
    {
        let ghost rest = views(segments@).skip(i as int);
        assert(rest[0] == segments@[i as int]@);
        assert(rest.drop_first() =~= views(segments@).skip(i + 1));
        let s = &segments[i];
        if s.len() == 0 || crate::text::is(s, ".") {
            assert(s@ == Seq::<char>::empty() || s@ == "."@);
            assert(walk_segments(views(current@), rest) == walk_segments(views(current@), rest.drop_first()));
        } else if crate::text::is(s, "..") {
            if current.len() == 0 {
                return None;
            }
            let ghost before = views(current@);
            current.pop();
            assert(views(current@) =~= before.drop_last());
        } else {
            let ghost before = views(current@);
            let piece = crate::text::slice(s, 0, s.len());
            assert(piece@ =~= s@);
            current.push(piece);
            assert(views(current@) =~= before.push(s@));
        }
        i += 1;
    }
    assert(views(segments@).skip(segments.len() as int) =~= Seq::<Seq<char>>::empty());
    Some(current)
}

/// The path a local target asks the tree about: the non-empty path it
/// resolves to inside the repository, when it is well formed.
pub open spec fn asked_path(source: Seq<char>, target: Seq<char>) -> Option<Seq<char>> {
    if target.contains('\0') || (target.len() > 0 && target[0] == '/') || target.len() == 0 {
        None
    } else {
        match resolved_spec(source, target) {
            Some(path) => if path.len() > 0 {
                Some(path)
            } else {
                None
            },
            None => None,
        }
    }
}

fn resolve<T: Tree>(tree: &T, source: &str, target: &Vec<char>) -> (r: (Option<Fault>, Ghost<bool>))
    ensures
        r.0 == fault_spec(source@, target@, r.1@),
        match asked_path(source@, target@) {
            Some(path) => exists_as(*tree, path, r.1@),
            None => true,
        },
{
    if crate::text::contains_char(target, '\0') {
        return (Some(Fault::Malformed), Ghost(false));
    }
    if target.len() > 0 && target[0] == '/' {
        return (Some(Fault::Outside), Ghost(false));
    }
    if target.len() == 0 {
        return (None, Ghost(false));
    }
    let mut segments = split(&chars_of(source), '/');
    proof {
        crate::text::lemma_split_nonempty(source@, '/');
    }
    let ghost all = views(segments@);
    segments.pop();
    assert(views(segments@) =~= all.drop_last());
    match walk(segments, &split(target, '/')) {
        None => (Some(Fault::Outside), Ghost(false)),
        Some(walked) => {
            let resolved = join(&walked, &chars_of("/"));
            if resolved.len() == 0 {
                return (None, Ghost(false));
            }
            let present = tree.exists_at(string_of(&resolved).as_str());
            assert(exists_as(*tree, resolved@, present));
            if present {
                (None, Ghost(present))
            } else {
                (Some(Fault::Missing), Ghost(present))
            }
        },
    }
}

pub open spec fn at_line(kind: Seq<char>, path: Seq<char>, line: nat, message: Seq<char>) -> FindingView {
    FindingView { kind, path, line: Some(line), column: None, field: None, message, details: Seq::empty() }
}

/// How many local targets a document's destinations hold, and the findings
/// for those that are unreachable, given for each destination whether the
/// path it resolves to exists.
pub open spec fn link_findings(path: Seq<char>, dests: Seq<(nat, Seq<char>)>, present: Seq<bool>) -> (nat, Seq<FindingView>)
    decreases dests.len(),
{
    if dests.len() == 0 || present.len() < dests.len() {
        (0, Seq::empty())
    } else {
        let k = dests.len() - 1;
        let (n, found) = link_findings(path, dests.drop_last(), present.take(k));
        let (line, destination) = dests[k];
        match local_spec(destination) {
            None => (n, found),
            Some(target) => (
                n + 1,
                match fault_spec(path, target, present[k]) {
                    Some(fault) => found.push(at_line(fault.kind_spec(), path, line, fault.message_spec(destination))),
                    None => found,
                },
            ),
        }
    }
}

/// Whether any of the globs matches a path.
pub open spec fn any_match(globs: Seq<Seq<char>>, path: Seq<char>) -> bool {
    exists|i: int| 0 <= i < globs.len() && glob_match(#[trigger] globs[i], path)
}

/// The count and findings over a corpus, skipping the excluded sources,
/// given the answers for each document's destinations.
pub open spec fn corpus_links(documents: Seq<(Seq<char>, Seq<char>)>, excluded: Seq<Seq<char>>, present: Seq<Seq<bool>>) -> (nat, Seq<FindingView>)
    decreases documents.len(),
{
    if documents.len() == 0 || present.len() < documents.len() {
        (0, Seq::empty())
    } else {
        let k = documents.len() - 1;
        let (n, found) = corpus_links(documents.drop_last(), excluded, present.take(k));
        let (path, text) = documents[k];
        if any_match(excluded, path) {
            (n, found)
        } else {
            let (m, more) = link_findings(path, destinations_spec(text), present[k]);
            (n + m, found + more)
        }
    }
}

/// Whether each presence flag of a document's destinations is what the
/// tree says of the path its local target resolves to.
pub open spec fn flags_tied<T: Tree>(tree: T, path: Seq<char>, dests: Seq<(nat, Seq<char>)>, present: Seq<bool>) -> bool {
    forall|j: int|
        0 <= j < dests.len() && j < present.len() ==> match local_spec((#[trigger] dests[j]).1) {
            Some(target) => match asked_path(path, target) {
                Some(p) => exists_as(tree, p, present[j]),
                None => true,
            },
            None => true,
        }
}

/// The same over every document a run looked into.
pub open spec fn presence_tied<T: Tree>(
    tree: T,
    documents: Seq<(Seq<char>, Seq<char>)>,
    present: Seq<Seq<bool>>,
) -> bool {
    forall|k: int|
        0 <= k < documents.len() && k < present.len() ==> flags_tied(
            tree,
            (#[trigger] documents[k]).0,
            destinations_spec(documents[k].1),
            present[k],
        )
}

pub open spec fn excluded_globs(config: Config) -> Seq<Seq<char>> {
    Seq::new(config.internal_link.exclude_sources@.len(), |i: int| config.internal_link.exclude_sources@[i]@)
}

pub open spec fn link_report(counted: (nat, Seq<FindingView>)) -> ReportView {
    ReportView {
        category: "internal-link"@,
        subject: "link"@,
        inspected: crate::governance::word_budget::capped(counted.0),
        scanned: Seq::empty(),
        notes: Seq::empty(),
        measurements: Seq::empty(),
        findings: counted.1,
        refusal: None,
    }
}

fn exclusion_texts(link: &InternalLink) -> (r: Vec<&str>)
    ensures
        crate::cli::str_views(r@) == Seq::new(link.exclude_sources@.len(), |i: int| link.exclude_sources@[i]@),
{
    let mut r: Vec<&str> = Vec::new();
    let mut i: usize = 0;
    while i < link.exclude_sources.len()
        invariant
            i <= link.exclude_sources.len(),
            crate::cli::str_views(r@) == Seq::new(i as nat, |k: int| link.exclude_sources@[k]@),
        decreases link.exclude_sources.len() - i,
    {
        let ghost before = crate::cli::str_views(r@);
        r.push(link.exclude_sources[i].as_str());
        assert(crate::cli::str_views(r@) =~= before.push(link.exclude_sources@[i as int]@));
        i += 1;
        assert(crate::cli::str_views(r@) =~= Seq::new(i as nat, |k: int| link.exclude_sources@[k]@));
    }
    r
}

/// Checks that every local link in the corpus resolves to something in the
/// repository. An excluded source is not read for links, but stays a valid
/// target for links elsewhere.
pub fn validate<T: Tree>(tree: &T, config: &Config) -> (r: Report)
    ensures
        match glob_failure("md-internal-link.exclude-sources"@, excluded_globs(*config)) {
            Some(reason) => r@ == refused_view("internal-link"@, reason),
            None => exists|listed: Seq<Seq<char>>, reads: Seq<(Seq<char>, Result<Seq<char>, TreeFault>)>|
                #[trigger] corpus_of(*tree, *config, listed, reads) && match corpus_spec(reads) {
                    Err(reason) => r@ == refused_view("internal-link"@, reason),
                    Ok(documents) => exists|present: Seq<Seq<bool>>|
                        #![trigger corpus_links(documents, excluded_globs(*config), present)]
                        present.len() == documents.len() && presence_tied(*tree, documents, present) && r@ == link_report(
                            corpus_links(documents, excluded_globs(*config), present),
                        ),
                },
        },
{
    let texts = exclusion_texts(&config.internal_link);
    assert(crate::cli::str_views(texts@) =~= excluded_globs(*config));
    let excluded = match crate::scan::glob_set("md-internal-link.exclude-sources", &texts) {
        Ok(g) => g,
        Err(reason) => return Report::refused("internal-link", reason.as_str()),
    };
    let corpus = match Corpus::read(tree, config) {
        Ok(c) => c,
        Err(reason) => return Report::refused("internal-link", reason.as_str()),
    };
    let documents = corpus.documents();
    let ghost dv = document_views(documents@);
    let ghost globs = excluded_globs(*config);
    let mut report = Report::new("internal-link", "link");
    let mut count: usize = 0;
    let ghost mut present: Seq<Seq<bool>> = Seq::empty();
    let mut i: usize = 0;
    while i < documents.len()
        invariant
            i <= documents.len(),
            dv == document_views(documents@),
            excluded.patterns() == globs,
            present.len() == i,
            presence_tied(*tree, dv, present),
            count as nat == crate::governance::word_budget::capped(corpus_links(dv.take(i as int), globs, present).0),
            report@ == (ReportView { inspected: 0, ..link_report(corpus_links(dv.take(i as int), globs, present)) }),
        decreases documents.len() - i,
    {
        let document = &documents[i];
        assert(dv.take(i + 1).drop_last() =~= dv.take(i as int));
        assert(dv.take(i + 1)[i as int] == (document.path@, document.text@));
        let ghost prior = corpus_links(dv.take(i as int), globs, present);
        let ghost mut mine: Seq<bool> = Seq::empty();
        if !excluded.is_match(document.path.as_str()) {
            let dests = destinations(document.text.as_str());
            let ghost lv = link_views(dests@);
            let ghost base = report@.findings;
            let mut j: usize = 0;
            while j < dests.len()
                invariant
                    j <= dests.len(),
                    lv == link_views(dests@),
                    mine.len() == j,
                    report@.findings == base + link_findings(document.path@, lv.take(j as int), mine).1,
                    report@ == (ReportView { findings: report@.findings, inspected: 0, ..link_report(prior) }),
                    report@.findings == base + link_findings(document.path@, lv.take(j as int), mine).1,
                    base == prior.1,
                    mine.len() <= lv.len(),
                    flags_tied(*tree, document.path@, lv, mine),
                    count as nat == crate::governance::word_budget::capped(prior.0 + link_findings(document.path@, lv.take(j as int), mine).0),
                decreases dests.len() - j,
            {
                assert(lv.take(j + 1).drop_last() =~= lv.take(j as int));
                assert(lv.take(j + 1)[j as int] == (dests@[j as int].0 as nat, dests@[j as int].1@));
                let line = dests[j].0;
                let destination = &dests[j].1;
                let ghost before = report@.findings;
                let ghost mut flag: bool = false;
                match local(destination) {
                    None => {},
                    Some(target) => {
                        count = count.saturating_add(1);
                        let (fault, Ghost(answer)) = resolve(tree, document.path.as_str(), &target);
                        proof {
                            flag = answer;
                        }
                        match fault {
                            Some(f) => {
                                let m = f.message(destination);
                                report.found(Finding::new(f.kind(), document.path.as_str(), m.as_str()).at_line(line));
                            },
                            None => {},
                        }
                    },
                }
                proof {
                    let next = mine.push(flag);
                    assert(next.take(j as int) =~= mine);
                    assert(next[j as int] == flag);
                    assert(flags_tied(*tree, document.path@, lv, next)) by {
                        assert forall|q: int| 0 <= q < lv.len() && q < next.len() implies match local_spec((#[trigger] lv[q]).1) {
                            Some(target) => match asked_path(document.path@, target) {
                                Some(p) => exists_as(*tree, p, next[q]),
                                None => true,
                            },
                            None => true,
                        } by {
                            if q < j {
                                assert(next[q] == mine[q]);
                            }
                        }
                    }
                    mine = next;
                }
                j += 1;
            }
            assert(lv.take(dests.len() as int) =~= lv);
            proof {
                let after = present.push(mine);
                assert(after.take(i as int) =~= present);
                assert(!any_match(globs, document.path@));
                assert(corpus_links(dv.take(i + 1), globs, after) == (
                    prior.0 + link_findings(document.path@, destinations_spec(document.text@), mine).0,
                    prior.1 + link_findings(document.path@, destinations_spec(document.text@), mine).1,
                ));
            }
        } else {
            proof {
                let after = present.push(mine);
                assert(after.take(i as int) =~= present);
                assert(any_match(globs, document.path@));
                assert(corpus_links(dv.take(i + 1), globs, after) == prior);
            }
        }
        proof {
            let next = present.push(mine);
            assert(next.take(i as int) =~= present);
            assert(next[i as int] == mine);
            assert(presence_tied(*tree, dv, next)) by {
                assert forall|k: int| 0 <= k < dv.len() && k < next.len() implies flags_tied(
                    *tree,
                    (#[trigger] dv[k]).0,
                    destinations_spec(dv[k].1),
                    next[k],
                ) by {
                    if k < i {
                        assert(next[k] == present[k]);
                    }
                }
            }
            present = next;
        }
        i += 1;
    }
    assert(dv.take(documents.len() as int) =~= dv);
    report.inspected(count);
    assert(dv == corpus.view_documents());
    assert(report@ == link_report(corpus_links(dv, excluded_globs(*config), present)));
    assert(glob_failure("md-internal-link.exclude-sources"@, excluded_globs(*config)) is None);
    assert(exists|listed: Seq<Seq<char>>, reads: Seq<(Seq<char>, Result<Seq<char>, TreeFault>)>|
        #[trigger] corpus_of(*tree, *config, listed, reads) && corpus_spec(reads) == Ok::<Seq<(Seq<char>, Seq<char>)>, Seq<char>>(dv));
    proof {
        let (l, rd) = choose|listed: Seq<Seq<char>>, reads: Seq<(Seq<char>, Result<Seq<char>, TreeFault>)>|
            #[trigger] corpus_of(*tree, *config, listed, reads) && corpus_spec(reads) == Ok::<Seq<(Seq<char>, Seq<char>)>, Seq<char>>(dv);
        assert(corpus_spec(rd)->Ok_0 == dv);
        assert(present.len() == dv.len() && report@ == link_report(corpus_links(corpus_spec(rd)->Ok_0, excluded_globs(*config), present)));
        assert(corpus_of(*tree, *config, l, rd));
    }
    report
}


/// `..` leaves the innermost directory walked so far: climbing out of `x`
/// and then walking on is walking on from where `x` was entered.
pub proof fn lemma_climb_leaves_innermost(base: Seq<Seq<char>>, x: Seq<char>, segments: Seq<Seq<char>>)
    ensures
        walk_segments(base.push(x), seq![".."@] + segments) == walk_segments(base, segments),
{
    reveal_strlit("..");
    reveal_strlit(".");
    let s = seq![".."@] + segments;
    assert(s[0] == ".."@);
    assert(".."@ != Seq::<char>::empty());
    assert(".."@.len() == 2 && "."@.len() == 1);
    assert(s.drop_first() =~= segments);
    assert(base.push(x).drop_last() =~= base);
}

/// Resolving `../t` from a document one directory deeper gives the path
/// resolving `t` gives from the directory above it: from `docs/guide/a.md`,
/// `../README.md` is `docs/README.md`, as `README.md` is from `docs/a.md`.
pub proof fn lemma_climb_resolves(source: Seq<char>, above: Seq<char>, x: Seq<char>, climbing: Seq<char>, target: Seq<char>)
    requires
        split_spec(source, '/').drop_last() == split_spec(above, '/').drop_last().push(x),
        split_spec(climbing, '/') == seq![".."@] + split_spec(target, '/'),
    ensures
        resolved_spec(source, climbing) == resolved_spec(above, target),
{
    lemma_climb_leaves_innermost(split_spec(above, '/').drop_last(), x, split_spec(target, '/'));
}

/// Climbing above the repository root resolves nowhere.
pub proof fn lemma_climb_out_of_root(segments: Seq<Seq<char>>)
    ensures
        walk_segments(Seq::empty(), seq![".."@] + segments) is None,
{
    reveal_strlit("..");
    reveal_strlit(".");
    let s = seq![".."@] + segments;
    assert(s[0] == ".."@);
    assert(".."@.len() == 2 && "."@.len() == 1);
}


/// Whether a segment names a directory or a file: not empty, not `.`, not
/// `..`.
pub open spec fn names_something(s: Seq<char>) -> bool {
    s.len() > 0 && s != "."@ && s != ".."@
}

/// Walking segments that each name something descends through them in
/// order; an empty segment or `.` stays where it is.
pub proof fn lemma_walk_descends(base: Seq<Seq<char>>, segments: Seq<Seq<char>>)
    ensures
        (forall|i: int| 0 <= i < segments.len() ==> names_something(#[trigger] segments[i])) ==> walk_segments(base, segments)
            == Some(base + segments),
        walk_segments(base, seq!["."@] + segments) == walk_segments(base, segments),
        walk_segments(base, seq![Seq::<char>::empty()] + segments) == walk_segments(base, segments),
    decreases segments.len(),
{
    reveal_strlit("..");
    reveal_strlit(".");
    assert((seq!["."@] + segments)[0] == "."@);
    assert((seq!["."@] + segments).drop_first() =~= segments);
    assert((seq![Seq::<char>::empty()] + segments)[0] == Seq::<char>::empty());
    assert((seq![Seq::<char>::empty()] + segments).drop_first() =~= segments);
    if segments.len() > 0 && forall|i: int| 0 <= i < segments.len() ==> names_something(#[trigger] segments[i]) {
        assert(names_something(segments[0]));
        assert forall|i: int| 0 <= i < segments.drop_first().len() implies names_something(#[trigger] segments.drop_first()[i]) by {
            assert(segments.drop_first()[i] == segments[i + 1]);
        }
        lemma_walk_descends(base.push(segments[0]), segments.drop_first());
        assert(base.push(segments[0]) + segments.drop_first() =~= base + segments);
    } else if segments.len() == 0 {
        assert(base + segments =~= base);
    }
}

} // verus!
