//! Filename validation.
//!
//! A repository declares which trees carry which filename style; RHINO holds
//! the two styles themselves, because a style is a rule about characters
//! rather than a policy about files -- and because the encoded style is
//! derivable from the path being walked.
use crate::config::{Config, NameStyle, Naming, NamingSurface};
use crate::report::{Detail, DetailView, Finding, FindingView, Report, ReportView};
use crate::runtime::{string_views, Tree};
use crate::scan::{glob_failure, glob_match, Globs, Surfaces};
use crate::text::{
    chars_of, extend, extend_str, is_digit, is_lower, is_upper, join_spec, rfind_spec, split_once_spec,
    split_spec, string_of, trim_char_spec, views,
};
use vstd::prelude::*;

verus! {

pub const KIND: &'static str = "invalid-md-name";

pub const FRAGMENT: &'static str = "fragmented-md-name";

/// The message a fragmentary name is reported with.
pub const FRAGMENT_MESSAGE: &'static str = "is named as a fragment; a document that outgrew its budget splits into an entrypoint and a companion set rather than into numbered halves";

/// What a path holds after its last `/`.
pub open spec fn file_of(path: Seq<char>) -> Seq<char> {
    match rfind_spec(path, seq!['/']) {
        Some(k) => path.skip((k + 1) as int),
        None => path,
    }
}

/// What a path holds before its last `/`, or nothing.
pub open spec fn directory_of(path: Seq<char>) -> Seq<char> {
    match rfind_spec(path, seq!['/']) {
        Some(k) => path.take(k as int),
        None => Seq::empty(),
    }
}

/// A file name without its last extension.
pub open spec fn stem_of(file: Seq<char>) -> Seq<char> {
    match rfind_spec(file, seq!['.']) {
        Some(k) => file.take(k as int),
        None => file,
    }
}

/// Whether every character is an ASCII digit, and there is one.
pub open spec fn all_digits(s: Seq<char>) -> bool {
    s.len() > 0 && forall|i: int| 0 <= i < s.len() ==> is_digit(#[trigger] s[i])
}

/// Whether a name ends in `shape` followed by a number.
pub open spec fn numbered(name: Seq<char>, shape: Seq<char>) -> bool {
    match rfind_spec(name, shape) {
        Some(k) => all_digits(name.skip((k + shape.len()) as int)),
        None => false,
    }
}

/// Whether a name ends in one of the closed mechanical fragment shapes:
/// `-part-` or `-continuation-` and a number, or `-continued`.
pub open spec fn fragment_spec(path: Seq<char>) -> bool {
    let name = stem_of(file_of(path));
    numbered(name, "-part-"@) || numbered(name, "-continuation-"@) || "-continued"@.is_suffix_of(name)
}

/// Lowercase alphanumeric runs joined by single hyphens.
pub open spec fn kebab_spec(name: Seq<char>) -> bool {
    let parts = split_spec(name, '-');
    name.len() > 0 && forall|j: int|
        0 <= j < parts.len() ==> (#[trigger] parts[j]).len() > 0 && forall|k: int|
            0 <= k < parts[j].len() ==> is_lower(#[trigger] parts[j][k]) || is_digit(parts[j][k])
}

fn last_index(v: &Vec<char>, c: char) -> (r: Option<usize>)
    ensures
        match r {
            Some(k) => k < v.len() && rfind_spec(v@, seq![c]) == Some(k as nat),
            None => rfind_spec(v@, seq![c]) is None,
        },
{
    let mut p: Vec<char> = Vec::new();
    p.push(c);
    assert(p@ =~= seq![c]);
    crate::text::rfind(v, &p)
}

fn file_part(path: &Vec<char>) -> (r: Vec<char>)
    ensures
        r@ == file_of(path@),
{
    match last_index(path, '/') {
        Some(k) => crate::text::slice(path, k + 1, path.len()),
        None => path.clone(),
    }
}

fn directory_part(path: &Vec<char>) -> (r: Vec<char>)
    ensures
        r@ == directory_of(path@),
{
    match last_index(path, '/') {
        Some(k) => crate::text::slice(path, 0, k),
        None => Vec::new(),
    }
}

pub fn stem_text(file: &Vec<char>) -> (r: Vec<char>)
    ensures
        r@ == stem_of(file@),
{
    match last_index(file, '.') {
        Some(k) => crate::text::slice(file, 0, k),
        None => file.clone(),
    }
}

fn digits_only(s: &Vec<char>) -> (r: bool)
    ensures
        r == all_digits(s@),
{
    if s.len() == 0 {
        return false;
    }
    let mut i: usize = 0;
    while i < s.len()
        invariant
            i <= s.len(),
            forall|k: int| 0 <= k < i ==> is_digit(#[trigger] s@[k]),
        decreases s.len() - i,
    {
        if !('0' <= s[i] && s[i] <= '9') {
            return false;
        }
        i += 1;
    }
    true
}

fn ends_numbered(name: &Vec<char>, shape: &str) -> (r: bool)
    ensures
        r == numbered(name@, shape@),
{
    let p = chars_of(shape);
    match crate::text::rfind(name, &p) {
        Some(k) => {
            let tail = crate::text::slice(name, k + p.len(), name.len());
            digits_only(&tail)
        },
        None => false,
    }
}

/// Whether a path is named as half a document.
pub fn is_fragment(path: &str) -> (r: bool)
    ensures
        r == fragment_spec(path@),
{
    let p = chars_of(path);
    let name = stem_text(&file_part(&p));
    ends_numbered(&name, "-part-") || ends_numbered(&name, "-continuation-") || crate::text::ends_with_str(
        &name,
        "-continued",
    )
}

/// The finding a fragmentary name is reported with.
pub open spec fn plain_finding(kind: Seq<char>, path: Seq<char>, message: Seq<char>) -> FindingView {
    FindingView { kind, path, line: None, column: None, field: None, message, details: Seq::empty() }
}

/// The fragment finding for a path, when its name is fragmentary.
pub fn fragment(path: &str) -> (r: Option<Finding>)
    ensures
        match r {
            Some(f) => fragment_spec(path@) && f@ == plain_finding(FRAGMENT@, path@, FRAGMENT_MESSAGE@),
            None => !fragment_spec(path@),
        },
{
    if is_fragment(path) {
        Some(Finding::new(FRAGMENT, path, FRAGMENT_MESSAGE))
    } else {
        None
    }
}

/// Lowercase alphanumeric runs joined by single hyphens.
pub fn is_kebab_case(name: &str) -> (r: bool)
    ensures
        r == kebab_spec(name@),
{
    let n = chars_of(name);
    if n.len() == 0 {
        return false;
    }
    let parts = crate::text::split(&n, '-');
    let ghost pv = views(parts@);
    let mut j: usize = 0;
    while j < parts.len()
        invariant
            j <= parts.len(),
            pv == views(parts@),
            pv == split_spec(n@, '-'),
            pv == split_spec(name@, '-'),
            n@ == name@,
            n@.len() > 0,
            forall|a: int|
                0 <= a < j ==> (#[trigger] pv[a]).len() > 0 && forall|k: int|
                    0 <= k < pv[a].len() ==> is_lower(#[trigger] pv[a][k]) || is_digit(pv[a][k]),
        decreases parts.len() - j,
    {
        let part = &parts[j];
        assert(pv[j as int] == part@);
        if part.len() == 0 {
            return false;
        }
        let mut k: usize = 0;
        while k < part.len()
            invariant
                k <= part.len(),
                j < pv.len(),
                part@ == pv[j as int],
                pv == split_spec(name@, '-'),
                forall|b: int| 0 <= b < k ==> is_lower(#[trigger] part@[b]) || is_digit(part@[b]),
            decreases part.len() - k,
        {
            let c = part[k];
            if !(('a' <= c && c <= 'z') || ('0' <= c && c <= '9')) {
                assert(!(is_lower(part@[k as int]) || is_digit(part@[k as int])));
                return false;
            }
            k += 1;
        }
        j += 1;
    }
    true
}

/// What `char::to_lowercase` yields for a character.
pub uninterp spec fn lower_of(c: char) -> Seq<char>;

/// `char::to_lowercase`, collected: one or more characters, the ASCII
/// lowercase for an ASCII capital, and the character itself for any other
/// ASCII character. What it yields beyond ASCII is named `lower_of`.
#[verifier::external_body]
fn lowercase(c: char) -> (r: Vec<char>)
    ensures
        r@ == lower_of(c),
        r@.len() >= 1,
        is_upper(c) ==> r@ == seq![crate::text::ascii_lower(c)],
        (c as int) < 128 && !is_upper(c) ==> r@ == seq![c],
{
    c.to_lowercase().collect()
}

/// A word with every character lowercased, as `to_lowercase` spells it.
pub open spec fn lowered(word: Seq<char>) -> Seq<char>
    decreases word.len(),
{
    if word.len() == 0 {
        Seq::empty()
    } else {
        lowered(word.drop_last()) + lower_of(word.last())
    }
}

/// Two characters of a lowercased word, or one and an underscore.
pub open spec fn encode_word_spec(word: Seq<char>) -> Seq<char> {
    let l = lowered(word);
    if l.len() == 1 {
        seq![l[0], '_']
    } else {
        seq![l[0], l[1]]
    }
}

/// A word with every character lowercased.
fn lower_word(word: &Vec<char>) -> (r: Vec<char>)
    ensures
        r@ == lowered(word@),
        r@.len() >= word@.len(),
{
    let mut out: Vec<char> = Vec::new();
    let mut i: usize = 0;
    while i < word.len()
        invariant
            i <= word.len(),
            out@ == lowered(word@.take(i as int)),
            out@.len() >= i,
        decreases word.len() - i,
    {
        let l = lowercase(word[i]);
        assert(word@.take(i + 1).drop_last() =~= word@.take(i as int));
        assert(word@.take(i + 1).last() == word@[i as int]);
        extend(&mut out, &l);
        i += 1;
    }
    assert(word@.take(word.len() as int) =~= word@);
    out
}

/// Two characters of a word, or one character and an underscore, so a
/// one-character word stays visible.
pub fn encode_word(word: &str) -> (r: String)
    requires
        word@.len() > 0,
    ensures
        r@ == encode_word_spec(word@),
{
    let l = lower_word(&chars_of(word));
    let mut out: Vec<char> = Vec::new();
    out.push(l[0]);
    if l.len() == 1 {
        out.push('_');
    } else {
        out.push(l[1]);
    }
    assert(out@ =~= encode_word_spec(word@));
    string_of(&out)
}

/// The non-empty pieces of a split, in order.
pub open spec fn nonempty(parts: Seq<Seq<char>>) -> Seq<Seq<char>>
    decreases parts.len(),
{
    if parts.len() == 0 {
        Seq::empty()
    } else if parts.last().len() == 0 {
        nonempty(parts.drop_last())
    } else {
        nonempty(parts.drop_last()).push(parts.last())
    }
}

/// One directory level: each hyphen-separated word encoded, concatenated.
pub open spec fn encode_segment_spec(segment: Seq<char>) -> Seq<char> {
    let words = nonempty(split_spec(segment, '-'));
    join_spec(Seq::new(words.len(), |i: int| encode_word_spec(words[i])), Seq::empty())
}

fn nonempty_parts(v: &Vec<char>, sep: char) -> (r: Vec<Vec<char>>)
    ensures
        views(r@) == nonempty(split_spec(v@, sep)),
        forall|i: int| 0 <= i < r.len() ==> (#[trigger] r@[i])@.len() > 0,
{
    let parts = crate::text::split(v, sep);
    let ghost pv = views(parts@);
    let mut r: Vec<Vec<char>> = Vec::new();
    let mut i: usize = 0;
    while i < parts.len()
        invariant
            i <= parts.len(),
            pv == views(parts@),
            pv == split_spec(v@, sep),
            views(r@) == nonempty(pv.take(i as int)),
            forall|j: int| 0 <= j < r.len() ==> (#[trigger] r@[j])@.len() > 0,
        decreases parts.len() - i,
    {
        assert(pv.take(i + 1).drop_last() =~= pv.take(i as int));
        assert(pv.take(i + 1).last() == parts@[i as int]@);
        if parts[i].len() > 0 {
            let c = parts[i].clone();
            let ghost before = views(r@);
            r.push(c);
            assert(views(r@) =~= before.push(c@));
        }
        i += 1;
    }
    assert(pv.take(parts.len() as int) =~= pv);
    r
}

pub fn encode_segment(segment: &str) -> (r: String)
    ensures
        r@ == encode_segment_spec(segment@),
{
    let words = nonempty_parts(&chars_of(segment), '-');
    let ghost wv = views(words@);
    let mut pieces: Vec<Vec<char>> = Vec::new();
    let mut i: usize = 0;
    while i < words.len()
        invariant
            i <= words.len(),
            wv == views(words@),
            forall|j: int| 0 <= j < words.len() ==> (#[trigger] words@[j])@.len() > 0,
            views(pieces@) == Seq::new(i as nat, |k: int| encode_word_spec(wv[k])),
        decreases words.len() - i,
    {
        let w = string_of(&words[i]);
        assert(words@[i as int]@.len() > 0);
        let e = encode_word(w.as_str());
        let c = chars_of(e.as_str());
        let ghost before = views(pieces@);
        pieces.push(c);
        assert(views(pieces@) =~= before.push(c@));
        i += 1;
        assert(views(pieces@) =~= Seq::new(i as nat, |k: int| encode_word_spec(wv[k])));
    }
    string_of(&crate::text::join(&pieces, &Vec::new()))
}

/// The prefix a directory encodes to, relative to its surface's root: each
/// level encoded, the levels joined by a hyphen.
pub open spec fn encoded_prefix_spec(directory: Seq<char>, root: Seq<char>) -> Seq<char> {
    let below = trim_char_spec(
        if root.is_prefix_of(directory) {
            directory.skip(root.len() as int)
        } else {
            directory
        },
        '/',
    );
    let segments = nonempty(split_spec(below, '/'));
    join_spec(Seq::new(segments.len(), |i: int| encode_segment_spec(segments[i])), "-"@)
}

pub fn encoded_prefix(directory: &str, root: &str) -> (r: String)
    ensures
        r@ == encoded_prefix_spec(directory@, root@),
{
    let d = chars_of(directory);
    let rt = chars_of(root);
    let rest = if crate::text::starts_with(&d, &rt) {
        let s = crate::text::slice(&d, rt.len(), d.len());
        assert(s@ =~= d@.skip(rt@.len() as int));
        s
    } else {
        d.clone()
    };
    let below = crate::text::trim_char(&rest, '/');
    let segments = nonempty_parts(&below, '/');
    let ghost sv = views(segments@);
    let mut pieces: Vec<Vec<char>> = Vec::new();
    let mut i: usize = 0;
    while i < segments.len()
        invariant
            i <= segments.len(),
            sv == views(segments@),
            views(pieces@) == Seq::new(i as nat, |k: int| encode_segment_spec(sv[k])),
        decreases segments.len() - i,
    {
        let e = encode_segment(string_of(&segments[i]).as_str());
        let c = chars_of(e.as_str());
        let ghost before = views(pieces@);
        pieces.push(c);
        assert(views(pieces@) =~= before.push(c@));
        i += 1;
        assert(views(pieces@) =~= Seq::new(i as nat, |k: int| encode_segment_spec(sv[k])));
    }
    string_of(&crate::text::join(&pieces, &chars_of("-")))
}

/// Whether a segment holds a glob metacharacter.
pub open spec fn has_meta(s: Seq<char>) -> bool {
    s.contains('*') || s.contains('?') || s.contains('[') || s.contains('{')
}

/// The segments before the first one carrying a metacharacter.
pub open spec fn literal_prefix(segs: Seq<Seq<char>>) -> Seq<Seq<char>>
    decreases segs.len(),
{
    if segs.len() == 0 || has_meta(segs[0]) {
        Seq::empty()
    } else {
        seq![segs[0]] + literal_prefix(segs.drop_first())
    }
}

/// The fixed leading path of a glob.
pub open spec fn literal_root_spec(glob: Seq<char>) -> Seq<char> {
    join_spec(literal_prefix(split_spec(glob, '/')), "/"@)
}

/// The fixed leading path of a glob: every segment before the first one
/// carrying a metacharacter. A surface's prefixes are relative to it.
pub fn literal_root(glob: &str) -> (r: String)
    ensures
        r@ == literal_root_spec(glob@),
{
    let segs = crate::text::split(&chars_of(glob), '/');
    let ghost sv = views(segs@);
    let mut kept: Vec<Vec<char>> = Vec::new();
    let mut i: usize = 0;
    assert(sv.skip(0) =~= sv);
    assert(views(kept@) + literal_prefix(sv.skip(0)) =~= literal_prefix(sv));
    while i < segs.len()
        invariant
            i <= segs.len(),
            sv == views(segs@),
            sv == split_spec(glob@, '/'),
            literal_prefix(sv) == views(kept@) + literal_prefix(sv.skip(i as int)),
        decreases segs.len() - i,
    {
        let seg = &segs[i];
        assert(sv.skip(i as int)[0] == seg@);
        assert(sv.skip(i as int).drop_first() =~= sv.skip(i + 1));
        if crate::text::contains_char(seg, '*') || crate::text::contains_char(seg, '?')
            || crate::text::contains_char(seg, '[') || crate::text::contains_char(seg, '{') {
            assert(literal_prefix(sv.skip(i as int)) =~= Seq::<Seq<char>>::empty());
            assert(views(kept@) + Seq::<Seq<char>>::empty() =~= views(kept@));
            return string_of(&crate::text::join(&kept, &chars_of("/")));
        }
        let ghost before = views(kept@);
        kept.push(seg.clone());
        assert(views(kept@) =~= before.push(seg@));
        assert(before + (seq![seg@] + literal_prefix(sv.skip(i + 1))) =~= before.push(seg@) + literal_prefix(sv.skip(i + 1)));
        i += 1;
    }
    assert(sv.skip(segs.len() as int) =~= Seq::<Seq<char>>::empty());
    assert(views(kept@) + Seq::<Seq<char>>::empty() =~= views(kept@));
    string_of(&crate::text::join(&kept, &chars_of("/")))
}

/// A naming surface as plain values.
pub open spec fn surface_view(s: NamingSurface) -> (Seq<char>, NameStyle, Option<Seq<char>>) {
    (
        s.glob@,
        s.style,
        match s.separator {
            Some(x) => Some(x@),
            None => None,
        },
    )
}

/// What a governed path is found to be, under its surface's style.
pub open spec fn inspect_spec(path: Seq<char>, style: NameStyle, separator: Option<Seq<char>>, root: Seq<char>) -> Option<FindingView> {
    let name = stem_of(file_of(path));
    match style {
        NameStyle::KebabCase => if !kebab_spec(name) {
            Some(plain_finding(KIND@, path, "is not named in the declared kebab-case style"@))
        } else {
            None
        },
        NameStyle::PathPrefixed => {
            let expected = encoded_prefix_spec(directory_of(path), root);
            let named = match split_once_spec(name, separator->0) {
                Some((prefix, content)) => prefix == expected && kebab_spec(content),
                None => expected.len() == 0 && kebab_spec(name),
            };
            if !named {
                Some(
                    FindingView {
                        details: seq![("prefix"@, DetailView::Text(expected))],
                        ..plain_finding(KIND@, path, "is not named in the declared path-prefixed style"@)
                    },
                )
            } else {
                None
            }
        },
    }
}

/// Judges one governed path against its surface.
pub fn inspect(path: &str, surface: &NamingSurface, root: &str) -> (r: Option<Finding>)
    requires
        surface.style == NameStyle::PathPrefixed ==> surface.separator is Some,
    ensures
        match r {
            Some(f) => inspect_spec(path@, surface.style, surface_view(*surface).2, root@) == Some(f@),
            None => inspect_spec(path@, surface.style, surface_view(*surface).2, root@) is None,
        },
{
    let p = chars_of(path);
    let directory = directory_part(&p);
    let name = stem_text(&file_part(&p));
    let name_text = string_of(&name);
    match surface.style {
        NameStyle::KebabCase => {
            if !is_kebab_case(name_text.as_str()) {
                Some(Finding::new(KIND, path, "is not named in the declared kebab-case style"))
            } else {
                None
            }
        },
        NameStyle::PathPrefixed => {
            let separator = match &surface.separator {
                Some(s) => chars_of(s.as_str()),
                None => Vec::new(),
            };
            let expected = encoded_prefix(string_of(&directory).as_str(), root);
            let ex = chars_of(expected.as_str());
            let named = match crate::text::split_once(&name, &separator) {
                Some((prefix, content)) => crate::text::same(&prefix, &ex) && is_kebab_case(string_of(&content).as_str()),
                None => ex.len() == 0 && is_kebab_case(name_text.as_str()),
            };
            if !named {
                let f = Finding::new(KIND, path, "is not named in the declared path-prefixed style");
                Some(f.with("prefix", Detail::Text(expected)))
            } else {
                None
            }
        },
    }
}

/// The surface that governs a path: the last whose glob matches it.
pub open spec fn last_match(ps: Seq<Seq<char>>, path: Seq<char>) -> Option<nat>
    decreases ps.len(),
{
    if ps.len() == 0 {
        None
    } else if glob_match(ps.last(), path) {
        Some((ps.len() - 1) as nat)
    } else {
        last_match(ps.drop_last(), path)
    }
}

pub proof fn lemma_last_match(ps: Seq<Seq<char>>, path: Seq<char>, r: Option<nat>)
    requires
        match r {
            Some(i) => i < ps.len() && glob_match(ps[i as int], path) && forall|j: int|
                i < j < ps.len() ==> !glob_match(#[trigger] ps[j], path),
            None => forall|j: int| 0 <= j < ps.len() ==> !glob_match(#[trigger] ps[j], path),
        },
    ensures
        r == last_match(ps, path),
    decreases ps.len(),
{
    if ps.len() > 0 {
        match r {
            Some(i) => {
                if i < ps.len() - 1 {
                    assert(!glob_match(ps[ps.len() - 1], path));
                    assert forall|j: int| i < j < ps.drop_last().len() implies !glob_match(#[trigger] ps.drop_last()[j], path) by {
                        assert(ps.drop_last()[j] == ps[j]);
                    }
                    assert(ps.drop_last()[i as int] == ps[i as int]);
                    lemma_last_match(ps.drop_last(), path, r);
                }
            },
            None => {
                assert forall|j: int| 0 <= j < ps.drop_last().len() implies !glob_match(#[trigger] ps.drop_last()[j], path) by {
                    assert(ps.drop_last()[j] == ps[j]);
                }
                assert(!glob_match(ps[ps.len() - 1], path));
                lemma_last_match(ps.drop_last(), path, r);
            },
        }
    }
}

/// Whether any exemption matches a path.
pub open spec fn exempted(exempt: Seq<Seq<char>>, path: Seq<char>) -> bool {
    exists|i: int| 0 <= i < exempt.len() && glob_match(#[trigger] exempt[i], path)
}

/// One path's effect on a naming report: its fragment finding, and, unless
/// exempt, its scan and style finding under the surface that governs it.
pub open spec fn naming_step(
    v: ReportView,
    path: Seq<char>,
    surfaces: Seq<(Seq<char>, NameStyle, Option<Seq<char>>)>,
    exempt: Seq<Seq<char>>,
) -> ReportView {
    let v1 = if fragment_spec(path) {
        ReportView { findings: v.findings.push(plain_finding(FRAGMENT@, path, FRAGMENT_MESSAGE@)), ..v }
    } else {
        v
    };
    if exempted(exempt, path) {
        v1
    } else {
        match last_match(Seq::new(surfaces.len(), |i: int| surfaces[i].0), path) {
            None => v1,
            Some(i) => {
                let v2 = ReportView { inspected: v1.inspected + 1, scanned: v1.scanned.push(path), ..v1 };
                let s = surfaces[i as int];
                match inspect_spec(path, s.1, s.2, literal_root_spec(s.0)) {
                    Some(f) => ReportView { findings: v2.findings.push(f), ..v2 },
                    None => v2,
                }
            },
        }
    }
}

/// A naming report after a run over paths.
pub open spec fn naming_run(
    paths: Seq<Seq<char>>,
    surfaces: Seq<(Seq<char>, NameStyle, Option<Seq<char>>)>,
    exempt: Seq<Seq<char>>,
) -> ReportView
    decreases paths.len(),
{
    if paths.len() == 0 {
        ReportView {
            category: "naming"@,
            subject: "file"@,
            inspected: 0,
            scanned: Seq::empty(),
            notes: Seq::empty(),
            measurements: Seq::empty(),
            findings: Seq::empty(),
            refusal: None,
        }
    } else {
        naming_step(naming_run(paths.drop_last(), surfaces, exempt), paths.last(), surfaces, exempt)
    }
}

pub open spec fn naming_surfaces(n: Naming) -> Seq<(Seq<char>, NameStyle, Option<Seq<char>>)> {
    Seq::new(n.surfaces@.len(), |i: int| surface_view(n.surfaces@[i]))
}

pub open spec fn refused_view(category: Seq<char>, reason: Seq<char>) -> ReportView {
    ReportView {
        category,
        subject: "subject"@,
        inspected: 0,
        scanned: Seq::empty(),
        notes: Seq::empty(),
        measurements: Seq::empty(),
        findings: Seq::empty(),
        refusal: Some(reason),
    }
}

fn glob_texts(surfaces: &Vec<NamingSurface>) -> (r: Vec<&str>)
    ensures
        crate::cli::str_views(r@) == Seq::new(surfaces@.len(), |i: int| surfaces@[i].glob@),
{
    let mut r: Vec<&str> = Vec::new();
    let mut i: usize = 0;
    while i < surfaces.len()
        invariant
            i <= surfaces.len(),
            crate::cli::str_views(r@) == Seq::new(i as nat, |k: int| surfaces@[k].glob@),
        decreases surfaces.len() - i,
    {
        let ghost before = crate::cli::str_views(r@);
        r.push(surfaces[i].glob.as_str());
        assert(crate::cli::str_views(r@) =~= before.push(surfaces@[i as int].glob@));
        i += 1;
        assert(crate::cli::str_views(r@) =~= Seq::new(i as nat, |k: int| surfaces@[k].glob@));
    }
    r
}

fn str_list(v: &Vec<String>) -> (r: Vec<&str>)
    ensures
        crate::cli::str_views(r@) == string_views(v@),
{
    let mut r: Vec<&str> = Vec::new();
    let mut i: usize = 0;
    while i < v.len()
        invariant
            i <= v.len(),
            crate::cli::str_views(r@) == string_views(v@).take(i as int),
        decreases v.len() - i,
    {
        let ghost before = crate::cli::str_views(r@);
        r.push(v[i].as_str());
        assert(crate::cli::str_views(r@) =~= before.push(v@[i as int]@));
        i += 1;
        assert(crate::cli::str_views(r@) =~= string_views(v@).take(i as int));
    }
    assert(string_views(v@).take(v.len() as int) =~= string_views(v@));
    r
}

/// Judges already listed paths against a naming policy whose globs compiled.
pub fn judge(paths: &Vec<String>, naming: &Naming, surfaces: &Surfaces, exempt: &Globs) -> (r: Report)
    requires
        forall|i: int| 0 <= i < naming.surfaces@.len() ==> (#[trigger] naming.surfaces@[i]).style == NameStyle::PathPrefixed ==> naming.surfaces@[i].separator is Some,
        surfaces.patterns() == Seq::new(naming.surfaces@.len(), |i: int| naming.surfaces@[i].glob@),
    ensures
        r@ == naming_run(string_views(paths@), naming_surfaces(*naming), exempt.patterns()),
{
    let ghost pv = string_views(paths@);
    let ghost sv = naming_surfaces(*naming);
    let mut roots: Vec<String> = Vec::new();
    let mut k: usize = 0;
    while k < naming.surfaces.len()
        invariant
            k <= naming.surfaces.len(),
            roots.len() == k,
            forall|j: int| 0 <= j < k ==> (#[trigger] roots@[j])@ == literal_root_spec(naming.surfaces@[j].glob@),
        decreases naming.surfaces.len() - k,
    {
        roots.push(literal_root(naming.surfaces[k].glob.as_str()));
        k += 1;
    }
    let mut report = Report::new("naming", "file");
    let mut i: usize = 0;
    assert(report@ == naming_run(pv.take(0), sv, exempt.patterns()));
    while i < paths.len()
        invariant
            i <= paths.len(),
            pv == string_views(paths@),
            sv == naming_surfaces(*naming),
            roots.len() == naming.surfaces.len(),
            forall|j: int| 0 <= j < roots.len() ==> (#[trigger] roots@[j])@ == literal_root_spec(naming.surfaces@[j].glob@),
            forall|j: int| 0 <= j < naming.surfaces@.len() ==> (#[trigger] naming.surfaces@[j]).style == NameStyle::PathPrefixed ==> naming.surfaces@[j].separator is Some,
            surfaces.patterns() == Seq::new(naming.surfaces@.len(), |j: int| naming.surfaces@[j].glob@),
            report@ == naming_run(pv.take(i as int), sv, exempt.patterns()),
            report@.inspected <= i,
        decreases paths.len() - i,
    {
        let path = paths[i].as_str();
        assert(pv.take(i + 1).drop_last() =~= pv.take(i as int));
        assert(pv.take(i + 1).last() == path@);
        let ghost before = report@;
        if let Some(f) = fragment(path) {
            report.found(f);
        }
        let ghost after_fragment = report@;
        if !exempt.is_match(path) {
            let g = surfaces.governing(path);
            proof {
                lemma_last_match(surfaces.patterns(), path@, match g { Some(x) => Some(x as nat), None => None });
                assert(Seq::new(sv.len(), |j: int| sv[j].0) =~= surfaces.patterns());
            }
            if let Some(index) = g {
                report.scanned(path);
                if let Some(f) = inspect(path, &naming.surfaces[index], roots[index].as_str()) {
                    report.found(f);
                }
            }
        }
        i += 1;
    }
    assert(pv.take(paths.len() as int) =~= pv);
    report
}

/// Checks every listed Markdown file's name: fragmentary names everywhere,
/// and, outside the exemptions, the style of the surface that governs it.
pub fn validate<T: Tree>(tree: &T, config: &Config, naming: &Naming) -> (r: Report)
    requires
        forall|i: int| 0 <= i < naming.surfaces@.len() ==> (#[trigger] naming.surfaces@[i]).style == NameStyle::PathPrefixed ==> naming.surfaces@[i].separator is Some,
    ensures
        match glob_failure("md-naming.surfaces"@, Seq::new(naming.surfaces@.len(), |i: int| naming.surfaces@[i].glob@)) {
            Some(reason) => r@ == refused_view("naming"@, reason),
            None => match glob_failure("md-naming.exempt"@, string_views(naming.exempt@)) {
                Some(reason) => r@ == refused_view("naming"@, reason),
                None => exists|listed: Seq<Seq<char>>|
                    tree.lists(listed) && r@ == naming_run(
                        #[trigger] crate::scan::selected(listed, string_views(crate::config::excluded_spec(*config)), true),
                        naming_surfaces(*naming),
                        string_views(naming.exempt@),
                    ),
            },
        },
{
    let globs = glob_texts(&naming.surfaces);
    let surfaces = match Surfaces::compile("md-naming.surfaces", &globs) {
        Ok(s) => s,
        Err(reason) => return Report::refused("naming", reason.as_str()),
    };
    let exempt_list = str_list(&naming.exempt);
    let exempt = match crate::scan::glob_set("md-naming.exempt", &exempt_list) {
        Ok(g) => g,
        Err(reason) => return Report::refused("naming", reason.as_str()),
    };
    let paths = crate::scan::markdown_files(tree, config);
    judge(&paths, naming, &surfaces, &exempt)
}

} // verus!
