//! Mermaid accessibility and legibility validation.
//!
//! Two questions about one artefact, answered by one command: a diagram
//! nobody can read because the contrast is wrong and a diagram nobody can
//! read because the label overflows are the same problem to a reader.
//!
//! Which diagram syntaxes can be read is a property of the tool; which
//! colours and label lengths are acceptable is a property of the
//! repository, and every one of them arrives from configuration. How much
//! two colours contrast is arithmetic on real numbers, so it arrives as an
//! argument: the pairs of declared colours that fall below the threshold.
use crate::config::Mermaid;
use crate::report::{Detail, DetailView, Finding, FindingView, Report, ReportView};
use crate::text::{
    ascii_lower, chars_of, extend, extend_str, find, find_from, rfind, rfind_spec, split, split_once, is_whitespace, is_ws, slice, split_once_spec, split_spec,
    string_of, trim, trim_char_spec, trim_spec,
};
use vstd::prelude::*;

verus! {

pub const ACCESSIBILITY: &'static str = "mermaid-accessibility";

pub const LEGIBILITY: &'static str = "mermaid-legibility";

/// The diagram syntaxes this build can read well enough to judge.
#[derive(Debug, Clone, Copy, PartialEq, Eq, Structural)]
pub enum Kind {
    Flow,
    Class,
    State,
    Entity,
    Requirement,
    Block,
}

pub open spec fn kind_spec(d: Seq<char>) -> Option<Kind> {
    if d == "flowchart"@ || d == "graph"@ {
        Some(Kind::Flow)
    } else if d == "classDiagram"@ || d == "classDiagram-v2"@ {
        Some(Kind::Class)
    } else if d == "stateDiagram"@ || d == "stateDiagram-v2"@ {
        Some(Kind::State)
    } else if d == "erDiagram"@ {
        Some(Kind::Entity)
    } else if d == "requirementDiagram"@ {
        Some(Kind::Requirement)
    } else if d == "block"@ || d == "block-beta"@ {
        Some(Kind::Block)
    } else {
        None
    }
}

pub fn kind_of(d: &Vec<char>) -> (r: Option<Kind>)
    ensures
        r == kind_spec(d@),
{
    if crate::text::is(d, "flowchart") || crate::text::is(d, "graph") {
        Some(Kind::Flow)
    } else if crate::text::is(d, "classDiagram") || crate::text::is(d, "classDiagram-v2") {
        Some(Kind::Class)
    } else if crate::text::is(d, "stateDiagram") || crate::text::is(d, "stateDiagram-v2") {
        Some(Kind::State)
    } else if crate::text::is(d, "erDiagram") {
        Some(Kind::Entity)
    } else if crate::text::is(d, "requirementDiagram") {
        Some(Kind::Requirement)
    } else if crate::text::is(d, "block") || crate::text::is(d, "block-beta") {
        Some(Kind::Block)
    } else {
        None
    }
}

/// Where the first whitespace character at or after `i` is, or the end.
pub open spec fn first_ws(t: Seq<char>, i: nat) -> nat
    decreases t.len() - i,
{
    if i < t.len() && !is_ws(t[i as int]) {
        first_ws(t, i + 1)
    } else {
        i
    }
}

/// The first whitespace-separated word of a text that opens with a
/// non-whitespace character.
pub open spec fn first_word(t: Seq<char>) -> Seq<char> {
    t.take(first_ws(t, 0) as int)
}

fn word_end(t: &Vec<char>, from: usize) -> (r: usize)
    requires
        from <= t.len(),
    ensures
        r as nat == first_ws(t@, from as nat),
        from <= r <= t.len(),
{
    let mut i = from;
    while i < t.len() && !is_whitespace(t[i])
        invariant
            from <= i <= t.len(),
            first_ws(t@, from as nat) == first_ws(t@, i as nat),
        decreases t.len() - i,
    {
        i += 1;
    }
    i
}

/// Whether a line opens with a prefix.
pub open spec fn opens(t: Seq<char>, p: Seq<char>) -> bool {
    p.is_prefix_of(t)
}

/// The kind a block declares, read past any front matter, or `None` when
/// it declares none or one this build cannot read.
pub open spec fn read_from(lines: Seq<(nat, Seq<char>)>, i: nat, in_front_matter: bool, kind: Option<Kind>) -> Option<Kind>
    decreases lines.len() - i,
{
    if i >= lines.len() {
        kind
    } else {
        let t = trim_spec(lines[i as int].1);
        if t == "---"@ {
            read_from(lines, i + 1, !in_front_matter, kind)
        } else if kind is None && !in_front_matter && t.len() > 0 && !opens(t, "%%"@) {
            match kind_spec(first_word(t)) {
                None => None,
                Some(k) => read_from(lines, i + 1, in_front_matter, Some(k)),
            }
        } else {
            read_from(lines, i + 1, in_front_matter, kind)
        }
    }
}

pub open spec fn numbered(lines: Seq<(usize, String)>) -> Seq<(nat, Seq<char>)> {
    Seq::new(lines.len(), |i: int| (lines[i].0 as nat, lines[i].1@))
}

/// Reads a fenced block as a diagram of a kind this build can judge.
pub fn read(lines: &Vec<(usize, String)>) -> (r: Option<Kind>)
    ensures
        r == read_from(numbered(lines@), 0, false, None),
{
    let ghost nv = numbered(lines@);
    let mut in_front_matter = false;
    let mut kind: Option<Kind> = None;
    let mut i: usize = 0;
    while i < lines.len()
        invariant
            i <= lines.len(),
            nv == numbered(lines@),
            read_from(nv, 0, false, None) == read_from(nv, i as nat, in_front_matter, kind),
        decreases lines.len() - i,
    {
        let t = trim(&chars_of(lines[i].1.as_str()));
        assert(nv[i as int].1 == lines@[i as int].1@);
        if crate::text::is(&t, "---") {
            in_front_matter = !in_front_matter;
        } else if kind.is_none() && !in_front_matter && t.len() > 0 && !crate::text::starts_with_str(&t, "%%") {
            let end = word_end(&t, 0);
            let word = slice(&t, 0, end);
            match kind_of(&word) {
                None => return None,
                Some(k) => {
                    kind = Some(k);
                },
            }
        }
        i += 1;
    }
    kind
}

/// Whether a value is `#` and six ASCII hex digits.
pub open spec fn hex6(v: Seq<char>) -> bool {
    &&& v.len() == 7
    &&& v[0] == '#'
    &&& forall|i: int| 1 <= i < 7 ==> is_hex(#[trigger] v[i])
}

pub open spec fn is_hex(c: char) -> bool {
    ('0' <= c <= '9') || ('a' <= c <= 'f') || ('A' <= c <= 'F')
}

fn is_six_digit_hex(v: &Vec<char>) -> (r: bool)
    ensures
        r == hex6(v@),
{
    if v.len() != 7 || v[0] != '#' {
        return false;
    }
    let mut i: usize = 1;
    while i < 7
        invariant
            1 <= i <= 7,
            v.len() == 7,
            forall|k: int| 1 <= k < i ==> is_hex(#[trigger] v@[k]),
        decreases 7 - i,
    {
        let c = v[i];
        if !(('0' <= c && c <= '9') || ('a' <= c && c <= 'f') || ('A' <= c && c <= 'F')) {
            return false;
        }
        i += 1;
    }
    true
}

/// `str::eq_ignore_ascii_case`.
pub open spec fn same_ignoring_case(a: Seq<char>, b: Seq<char>) -> bool {
    a.len() == b.len() && forall|i: int| 0 <= i < a.len() ==> ascii_lower(#[trigger] a[i]) == ascii_lower(b[i])
}

fn lower(c: char) -> (r: char)
    ensures
        r == ascii_lower(c),
{
    if 'A' <= c && c <= 'Z' {
        let code = c as u32 + 32;
        assert(code <= 0x7A);
        let b = code as u8;
        assert(b == code);
        let r = b as char;
        assert(r == ((c as u32) + 32) as char);
        r
    } else {
        c
    }
}

fn same_case_blind(a: &Vec<char>, b: &Vec<char>) -> (r: bool)
    ensures
        r == same_ignoring_case(a@, b@),
{
    if a.len() != b.len() {
        return false;
    }
    let mut i: usize = 0;
    while i < a.len()
        invariant
            i <= a.len(),
            a.len() == b.len(),
            forall|k: int| 0 <= k < i ==> ascii_lower(#[trigger] a@[k]) == ascii_lower(b@[k]),
        decreases a.len() - i,
    {
        if lower(a[i]) != lower(b[i]) {
            return false;
        }
        i += 1;
    }
    true
}

/// Whether a declared list holds a value, ignoring ASCII case.
pub open spec fn declares_spec(declared: Seq<Seq<char>>, value: Seq<char>) -> bool {
    exists|i: int| 0 <= i < declared.len() && same_ignoring_case(#[trigger] declared[i], value)
}

fn declares(declared: &Vec<String>, value: &Vec<char>) -> (r: bool)
    ensures
        r == declares_spec(crate::report::string_views(declared@), value@),
{
    let ghost dv = crate::report::string_views(declared@);
    let mut i: usize = 0;
    while i < declared.len()
        invariant
            i <= declared.len(),
            dv == crate::report::string_views(declared@),
            forall|k: int| 0 <= k < i ==> !same_ignoring_case(#[trigger] dv[k], value@),
        decreases declared.len() - i,
    {
        if same_case_blind(&chars_of(declared[i].as_str()), value) {
            assert(same_ignoring_case(dv[i as int], value@));
            return true;
        }
        i += 1;
    }
    false
}

/// How many ASCII hex digits run from index `i`.
pub open spec fn hex_run(t: Seq<char>, i: nat) -> nat
    decreases t.len() - i,
{
    if i < t.len() && is_hex(t[i as int]) {
        1 + hex_run(t, i + 1)
    } else {
        0
    }
}

pub open spec fn holds(t: Seq<char>, p: Seq<char>) -> bool {
    find_from(t, p, 0) is Some
}

/// The word a role ends with: what follows its last space.
pub open spec fn last_word(r: Seq<char>) -> Seq<char> {
    match rfind_spec(r, seq![' ']) {
        Some(k) => r.skip((k + 1) as int),
        None => r,
    }
}

/// Whether an assignment sets a colour role to something.
pub open spec fn sets_color(assignment: Seq<char>) -> bool {
    match split_once_spec(assignment, seq![':']) {
        Some((role, value)) => {
            let w = last_word(trim_spec(role));
            (w == "fill"@ || w == "stroke"@ || w == "color"@) && trim_spec(value).len() > 0
        },
        None => false,
    }
}

/// Whether a line sets a colour anywhere: a colour function, a hex value of
/// three to eight digits, or a colour role with a value.
pub open spec fn color_spec(t: Seq<char>) -> bool {
    ||| holds(t, "rgb("@) || holds(t, "rgba("@) || holds(t, "hsl("@)
    ||| exists|i: int| 0 <= i < t.len() && t[i] == '#' && 3 <= #[trigger] hex_run(t, (i + 1) as nat) <= 8
    ||| exists|j: int| 0 <= j < split_spec(t, ',').len() && sets_color(#[trigger] split_spec(t, ',')[j])
}

fn holds_text(t: &Vec<char>, p: &str) -> (r: bool)
    ensures
        r == holds(t@, p@),
{
    find(t, &chars_of(p)).is_some()
}

fn sets_a_color(assignment: &Vec<char>) -> (r: bool)
    ensures
        r == sets_color(assignment@),
{
    let colon = vec![':'];
    assert(colon@ =~= seq![':']);
    match split_once(assignment, &colon) {
        Some((role, value)) => {
            let r = trim(&role);
            let space = vec![' '];
            assert(space@ =~= seq![' ']);
            let w = match rfind(&r, &space) {
                Some(k) => {
                    let w = slice(&r, k + 1, r.len());
                    assert(w@ =~= r@.skip(k + 1));
                    w
                },
                None => r,
            };
            (crate::text::is(&w, "fill") || crate::text::is(&w, "stroke") || crate::text::is(&w, "color")) && trim(
                &value,
            ).len() > 0
        },
        None => false,
    }
}

fn contains_color(t: &Vec<char>) -> (r: bool)
    ensures
        r == color_spec(t@),
{
    if holds_text(t, "rgb(") || holds_text(t, "rgba(") || holds_text(t, "hsl(") {
        return true;
    }
    let mut i: usize = 0;
    while i < t.len()
        invariant
            i <= t.len(),
            forall|k: int| 0 <= k < i ==> !(t@[k] == '#' && 3 <= #[trigger] hex_run(t@, (k + 1) as nat) <= 8),
        decreases t.len() - i,
    {
        if t[i] == '#' {
            let mut n: usize = 0;
            let mut j = i + 1;
            while j < t.len() && (('0' <= t[j] && t[j] <= '9') || ('a' <= t[j] && t[j] <= 'f') || ('A' <= t[j] && t[j] <= 'F'))
                invariant
                    i + 1 <= j <= t.len(),
                    n == j - (i + 1),
                    hex_run(t@, (i + 1) as nat) == n + hex_run(t@, j as nat),
                decreases t.len() - j,
            {
                n += 1;
                j += 1;
            }
            if 3 <= n && n <= 8 {
                return true;
            }
        }
        i += 1;
    }
    let parts = split(t, ',');
    let mut k: usize = 0;
    while k < parts.len()
        invariant
            k <= parts.len(),
            crate::text::views(parts@) == split_spec(t@, ','),
            forall|m: int| 0 <= m < k ==> !sets_color(#[trigger] split_spec(t@, ',')[m]),
        decreases parts.len() - k,
    {
        assert(split_spec(t@, ',')[k as int] == parts@[k as int]@);
        if sets_a_color(&parts[k]) {
            return true;
        }
        k += 1;
    }
    false
}

/// A declared pair whose contrast falls below the normal-text threshold,
/// with the ratio as a report prints it.
pub struct Contrast {
    pub fill: String,
    pub text: String,
    pub ratio: String,
}

pub open spec fn contrast_views(c: Seq<Contrast>) -> Seq<(Seq<char>, Seq<char>, Seq<char>)> {
    Seq::new(c.len(), |i: int| (c[i].fill@, c[i].text@, c[i].ratio@))
}

/// The ratio of the first low-contrast pair matching a fill and a text
/// colour, ignoring ASCII case.
pub open spec fn low_contrast(pairs: Seq<(Seq<char>, Seq<char>, Seq<char>)>, fill: Seq<char>, text: Seq<char>) -> Option<Seq<char>>
    decreases pairs.len(),
{
    if pairs.len() == 0 {
        None
    } else if same_ignoring_case(pairs[0].0, fill) && same_ignoring_case(pairs[0].1, text) {
        Some(pairs[0].2)
    } else {
        low_contrast(pairs.drop_first(), fill, text)
    }
}

pub open spec fn accessibility(path: Seq<char>, line: nat, message: Seq<char>) -> FindingView {
    FindingView {
        kind: ACCESSIBILITY@,
        path,
        line: Some(line),
        column: None,
        field: None,
        message,
        details: Seq::empty(),
    }
}

/// The value the last assignment of a role gives it, trimmed.
pub open spec fn role_value(parts: Seq<Seq<char>>, role: Seq<char>) -> Option<Seq<char>>
    decreases parts.len(),
{
    if parts.len() == 0 {
        None
    } else {
        match split_once_spec(parts.last(), seq![':']) {
            Some((r, v)) => if trim_spec(r) == role {
                Some(trim_spec(v))
            } else {
                role_value(parts.drop_last(), role)
            },
            None => role_value(parts.drop_last(), role),
        }
    }
}

/// What follows a class name: the text after its first whitespace.
pub open spec fn after_name(rest: Seq<char>) -> Seq<char> {
    let k = first_ws(rest, 0);
    if k < rest.len() {
        rest.skip((k + 1) as int)
    } else {
        Seq::empty()
    }
}

pub open spec fn not_hex(path: Seq<char>, line: nat, role: Seq<char>, value: Option<Seq<char>>) -> Seq<FindingView> {
    match value {
        Some(v) => if !hex6(v) {
            seq![
                accessibility(
                    path,
                    line,
                    "`"@ + role + ":"@ + v + "` is not a six-digit hex color, so it cannot be compared with the declared palette"@,
                ),
            ]
        } else {
            Seq::empty()
        },
        None => Seq::empty(),
    }
}

pub open spec fn stroke_check(path: Seq<char>, line: nat, m: Mermaid, s: Seq<char>) -> Seq<FindingView> {
    if hex6(s) && !declares_spec(crate::report::string_views(m.edge_colors@), s) {
        seq![accessibility(path, line, "stroke `"@ + s + "` is not a declared edge color"@)]
    } else {
        Seq::empty()
    }
}

pub const NO_STROKE: &'static str = "a filled class has no stroke, so its boundary disappears against the background";

pub const NO_TEXT: &'static str = "a filled class declares no text color, so its label inherits an unknown one";

pub const ONLY_TEXT: &'static str = "a class that sets only text color has neither a fill nor a stroke to make it legible";

pub open spec fn contrast_finding(
    path: Seq<char>,
    line: nat,
    m: Mermaid,
    pairs: Seq<(Seq<char>, Seq<char>, Seq<char>)>,
    fill: Seq<char>,
    text: Seq<char>,
) -> Seq<FindingView> {
    if declares_spec(crate::report::string_views(m.fill_colors@), fill) && declares_spec(
        crate::report::string_views(m.text_colors@),
        text,
    ) && hex6(fill) && hex6(text) {
        match low_contrast(pairs, fill, text) {
            Some(ratio) => seq![
                FindingView {
                    kind: ACCESSIBILITY@,
                    path,
                    line: Some(line),
                    column: None,
                    field: None,
                    message: "text `"@ + text + "` on fill `"@ + fill + "` is below the normal-text contrast threshold"@,
                    details: seq![("ratio"@, DetailView::Text(ratio)), ("threshold"@, DetailView::Text("4.5"@))],
                },
            ],
            None => Seq::empty(),
        }
    } else {
        Seq::empty()
    }
}

pub open spec fn fill_part(path: Seq<char>, line: nat, m: Mermaid, f: Seq<char>) -> Seq<FindingView> {
    if hex6(f) && !declares_spec(crate::report::string_views(m.fill_colors@), f) {
        seq![accessibility(path, line, "fill `"@ + f + "` is not a declared fill color"@)]
    } else {
        Seq::empty()
    }
}

pub open spec fn stroke_part(path: Seq<char>, line: nat, m: Mermaid, f: Seq<char>, st: Option<Seq<char>>) -> Seq<FindingView> {
    match st {
        None => seq![accessibility(path, line, NO_STROKE@)],
        Some(s) => stroke_check(path, line, m, s) + if same_ignoring_case(s, f) {
            seq![accessibility(path, line, "fill and stroke are both `"@ + f + "`, so the shape has no visible boundary"@)]
        } else {
            Seq::empty()
        },
    }
}

pub open spec fn text_part(
    path: Seq<char>,
    line: nat,
    m: Mermaid,
    pairs: Seq<(Seq<char>, Seq<char>, Seq<char>)>,
    f: Seq<char>,
    tc: Option<Seq<char>>,
) -> Seq<FindingView> {
    match tc {
        None => seq![accessibility(path, line, NO_TEXT@)],
        Some(t) => (if hex6(t) && !declares_spec(crate::report::string_views(m.text_colors@), t) {
            seq![accessibility(path, line, "text color `"@ + t + "` is not a declared text color"@)]
        } else {
            Seq::empty()
        }) + contrast_finding(path, line, m, pairs, f, t),
    }
}

/// What the colours a class sets are found to break against the palette.
pub open spec fn palette_part(
    path: Seq<char>,
    line: nat,
    m: Mermaid,
    pairs: Seq<(Seq<char>, Seq<char>, Seq<char>)>,
    fill: Option<Seq<char>>,
    stroke: Option<Seq<char>>,
    color: Option<Seq<char>>,
) -> Seq<FindingView> {
    match (fill, stroke, color) {
        (Some(f), st, tc) => fill_part(path, line, m, f) + stroke_part(path, line, m, f, st) + text_part(path, line, m, pairs, f, tc),
        (None, Some(s), None) => stroke_check(path, line, m, s),
        (None, None, Some(_)) => seq![accessibility(path, line, ONLY_TEXT@)],
        (None, Some(s), Some(_)) => stroke_check(path, line, m, s),
        (None, None, None) => Seq::empty(),
    }
}

/// What a `classDef` line is found to break: values that are not hex
/// colours, colours outside the declared palette, a filled class without
/// a stroke or a text colour, a boundary that matches its fill, and a text
/// colour too close to its fill.
pub open spec fn class_spec(path: Seq<char>, line: nat, rest: Seq<char>, m: Mermaid, pairs: Seq<(Seq<char>, Seq<char>, Seq<char>)>) -> Seq<FindingView> {
    let parts = split_spec(after_name(rest), ',');
    let fill = role_value(parts, "fill"@);
    let stroke = role_value(parts, "stroke"@);
    let color = role_value(parts, "color"@);
    not_hex(path, line, "fill"@, fill) + not_hex(path, line, "stroke"@, stroke) + not_hex(path, line, "color"@, color)
        + palette_part(path, line, m, pairs, fill, stroke, color)
}

fn accessibility_at(path: &str, line: usize, message: &Vec<char>) -> (r: Finding)
    ensures
        r@ == accessibility(path@, line as nat, message@),
{
    Finding::new(ACCESSIBILITY, path, string_of(message).as_str()).at_line(line)
}

fn push_finding(out: &mut Vec<Finding>, f: Finding)
    ensures
        crate::report::finding_views(final(out)@) == crate::report::finding_views(old(out)@).push(f@),
{
    let ghost before = crate::report::finding_views(out@);
    let ghost fv = f@;
    out.push(f);
    assert(crate::report::finding_views(out@) =~= before.push(fv));
}

fn role_of(parts: &Vec<Vec<char>>, role: &str) -> (r: Option<Vec<char>>)
    ensures
        match r {
            Some(v) => role_value(crate::text::views(parts@), role@) == Some(v@),
            None => role_value(crate::text::views(parts@), role@) is None,
        },
{
    let ghost pv = crate::text::views(parts@);
    let colon = vec![':'];
    assert(colon@ =~= seq![':']);
    let mut k = parts.len();
    assert(pv.take(k as int) =~= pv);
    while k > 0
        invariant
            k <= parts.len(),
            pv == crate::text::views(parts@),
            colon@ == seq![':'],
            role_value(pv, role@) == role_value(pv.take(k as int), role@),
        decreases k,
    {
        assert(pv.take(k as int).drop_last() =~= pv.take(k - 1));
        assert(pv.take(k as int).last() == parts@[k - 1]@);
        if let Some((r, v)) = split_once(&parts[k - 1], &colon) {
            if crate::text::is(&trim(&r), role) {
                return Some(trim(&v));
            }
        }
        k -= 1;
    }
    None
}

fn not_hex_check(out: &mut Vec<Finding>, path: &str, line: usize, role: &str, value: &Option<Vec<char>>)
    ensures
        crate::report::finding_views(final(out)@) == crate::report::finding_views(old(out)@) + not_hex(
            path@,
            line as nat,
            role@,
            match value {
                Some(v) => Some(v@),
                None => None,
            },
        ),
{
    let ghost before = crate::report::finding_views(out@);
    match value {
        Some(v) => {
            if !is_six_digit_hex(v) {
                let mut m = chars_of("`");
                extend_str(&mut m, role);
                extend_str(&mut m, ":");
                extend(&mut m, v);
                extend_str(&mut m, "` is not a six-digit hex color, so it cannot be compared with the declared palette");
                push_finding(out, accessibility_at(path, line, &m));
                assert(before.push(accessibility(path@, line as nat, m@)) =~= before + seq![accessibility(path@, line as nat, m@)]);
            } else {
                assert(before + Seq::<FindingView>::empty() =~= before);
            }
        },
        None => {
            assert(before + Seq::<FindingView>::empty() =~= before);
        },
    }
}

fn stroke_against(out: &mut Vec<Finding>, path: &str, line: usize, m: &Mermaid, s: &Vec<char>)
    ensures
        crate::report::finding_views(final(out)@) == crate::report::finding_views(old(out)@) + stroke_check(path@, line as nat, *m, s@),
{
    let ghost before = crate::report::finding_views(out@);
    if is_six_digit_hex(s) && !declares(&m.edge_colors, s) {
        let mut msg = chars_of("stroke `");
        extend(&mut msg, s);
        extend_str(&mut msg, "` is not a declared edge color");
        push_finding(out, accessibility_at(path, line, &msg));
        assert(before.push(accessibility(path@, line as nat, msg@)) =~= before + seq![accessibility(path@, line as nat, msg@)]);
    } else {
        assert(before + Seq::<FindingView>::empty() =~= before);
    }
}

fn low_contrast_of(pairs: &[Contrast], fill: &Vec<char>, text: &Vec<char>) -> (r: Option<String>)
    ensures
        match r {
            Some(ratio) => low_contrast(contrast_views(pairs@), fill@, text@) == Some(ratio@),
            None => low_contrast(contrast_views(pairs@), fill@, text@) is None,
        },
{
    let ghost cv = contrast_views(pairs@);
    let mut i: usize = 0;
    assert(cv.skip(0) =~= cv);
    while i < pairs.len()
        invariant
            i <= pairs.len(),
            cv == contrast_views(pairs@),
            low_contrast(cv, fill@, text@) == low_contrast(cv.skip(i as int), fill@, text@),
        decreases pairs.len() - i,
    {
        assert(cv.skip(i as int)[0] == cv[i as int]);
        assert(cv.skip(i as int).drop_first() =~= cv.skip(i + 1));
        if same_case_blind(&chars_of(pairs[i].fill.as_str()), fill) && same_case_blind(&chars_of(pairs[i].text.as_str()), text) {
            return Some(pairs[i].ratio.as_str().to_string());
        }
        i += 1;
    }
    assert(cv.skip(i as int) =~= Seq::<(Seq<char>, Seq<char>, Seq<char>)>::empty());
    None
}

fn fill_findings(out: &mut Vec<Finding>, path: &str, line: usize, m: &Mermaid, f: &Vec<char>)
    ensures
        crate::report::finding_views(final(out)@) == crate::report::finding_views(old(out)@) + fill_part(path@, line as nat, *m, f@),
{
    let ghost before = crate::report::finding_views(out@);
    if is_six_digit_hex(f) && !declares(&m.fill_colors, f) {
        let mut msg = chars_of("fill `");
        extend(&mut msg, f);
        extend_str(&mut msg, "` is not a declared fill color");
        push_finding(out, accessibility_at(path, line, &msg));
        assert(before.push(accessibility(path@, line as nat, msg@)) =~= before + seq![accessibility(path@, line as nat, msg@)]);
    } else {
        assert(before + Seq::<FindingView>::empty() =~= before);
    }
}

fn stroke_findings(out: &mut Vec<Finding>, path: &str, line: usize, m: &Mermaid, f: &Vec<char>, st: &Option<Vec<char>>)
    ensures
        crate::report::finding_views(final(out)@) == crate::report::finding_views(old(out)@) + stroke_part(
            path@,
            line as nat,
            *m,
            f@,
            match st {
                Some(x) => Some(x@),
                None => None,
            },
        ),
{
    let ghost before = crate::report::finding_views(out@);
    match st {
        None => {
            let msg = chars_of(NO_STROKE);
            push_finding(out, accessibility_at(path, line, &msg));
            assert(before.push(accessibility(path@, line as nat, msg@)) =~= before + seq![accessibility(path@, line as nat, msg@)]);
        },
        Some(s) => {
            stroke_against(out, path, line, m, s);
            let ghost mid = crate::report::finding_views(out@);
            if same_case_blind(s, f) {
                let mut msg = chars_of("fill and stroke are both `");
                extend(&mut msg, f);
                extend_str(&mut msg, "`, so the shape has no visible boundary");
                push_finding(out, accessibility_at(path, line, &msg));
                assert(before + (stroke_check(path@, line as nat, *m, s@) + seq![accessibility(path@, line as nat, msg@)])
                    =~= mid.push(accessibility(path@, line as nat, msg@)));
            } else {
                assert(before + (stroke_check(path@, line as nat, *m, s@) + Seq::<FindingView>::empty()) =~= mid);
            }
        },
    }
}

fn contrast_findings(out: &mut Vec<Finding>, path: &str, line: usize, m: &Mermaid, pairs: &[Contrast], f: &Vec<char>, t: &Vec<char>)
    ensures
        crate::report::finding_views(final(out)@) == crate::report::finding_views(old(out)@) + contrast_finding(
            path@,
            line as nat,
            *m,
            contrast_views(pairs@),
            f@,
            t@,
        ),
{
    let ghost before = crate::report::finding_views(out@);
    if declares(&m.fill_colors, f) && declares(&m.text_colors, t) && is_six_digit_hex(f) && is_six_digit_hex(t) {
        if let Some(ratio) = low_contrast_of(pairs, f, t) {
            let mut msg = chars_of("text `");
            extend(&mut msg, t);
            extend_str(&mut msg, "` on fill `");
            extend(&mut msg, f);
            extend_str(&mut msg, "` is below the normal-text contrast threshold");
            let ghost rv = ratio@;
            let threshold = "4.5".to_string();
            let ghost tv = threshold@;
            let finding = Finding::new(ACCESSIBILITY, path, string_of(&msg).as_str()).at_line(line).with("ratio", Detail::Text(ratio)).with(
                "threshold",
                Detail::Text(threshold),
            );
            assert(finding@.details =~= seq![("ratio"@, DetailView::Text(rv)), ("threshold"@, DetailView::Text(tv))]);
            let ghost fv = finding@;
            push_finding(out, finding);
            assert(before.push(fv) =~= before + seq![fv]);
        } else {
            assert(before + Seq::<FindingView>::empty() =~= before);
        }
    } else {
        assert(before + Seq::<FindingView>::empty() =~= before);
    }
}

fn text_findings(out: &mut Vec<Finding>, path: &str, line: usize, m: &Mermaid, pairs: &[Contrast], f: &Vec<char>, tc: &Option<Vec<char>>)
    ensures
        crate::report::finding_views(final(out)@) == crate::report::finding_views(old(out)@) + text_part(
            path@,
            line as nat,
            *m,
            contrast_views(pairs@),
            f@,
            match tc {
                Some(x) => Some(x@),
                None => None,
            },
        ),
{
    let ghost before = crate::report::finding_views(out@);
    match tc {
        None => {
            let msg = chars_of(NO_TEXT);
            push_finding(out, accessibility_at(path, line, &msg));
            assert(before.push(accessibility(path@, line as nat, msg@)) =~= before + seq![accessibility(path@, line as nat, msg@)]);
        },
        Some(t) => {
            let ghost first = if hex6(t@) && !declares_spec(crate::report::string_views(m.text_colors@), t@) {
                seq![accessibility(path@, line as nat, "text color `"@ + t@ + "` is not a declared text color"@)]
            } else {
                Seq::<FindingView>::empty()
            };
            if is_six_digit_hex(t) && !declares(&m.text_colors, t) {
                let mut msg = chars_of("text color `");
                extend(&mut msg, t);
                extend_str(&mut msg, "` is not a declared text color");
                push_finding(out, accessibility_at(path, line, &msg));
                assert(before.push(accessibility(path@, line as nat, msg@)) =~= before + first);
            } else {
                assert(before + first =~= before);
            }
            let ghost mid = crate::report::finding_views(out@);
            contrast_findings(out, path, line, m, pairs, f, t);
            assert(mid + contrast_finding(path@, line as nat, *m, contrast_views(pairs@), f@, t@) =~= before + (first + contrast_finding(
                path@,
                line as nat,
                *m,
                contrast_views(pairs@),
                f@,
                t@,
            )));
        },
    }
}

fn palette_findings(
    out: &mut Vec<Finding>,
    path: &str,
    line: usize,
    m: &Mermaid,
    pairs: &[Contrast],
    fill: &Option<Vec<char>>,
    stroke: &Option<Vec<char>>,
    color: &Option<Vec<char>>,
)
    ensures
        crate::report::finding_views(final(out)@) == crate::report::finding_views(old(out)@) + palette_part(
            path@,
            line as nat,
            *m,
            contrast_views(pairs@),
            match fill {
                Some(x) => Some(x@),
                None => None,
            },
            match stroke {
                Some(x) => Some(x@),
                None => None,
            },
            match color {
                Some(x) => Some(x@),
                None => None,
            },
        ),
{
    let ghost before = crate::report::finding_views(out@);
    match (fill, stroke, color) {
        (Some(f), st, tc) => {
            fill_findings(out, path, line, m, f);
            stroke_findings(out, path, line, m, f, st);
            text_findings(out, path, line, m, pairs, f, tc);
            let ghost sv = match st {
                Some(x) => Some(x@),
                None => None::<Seq<char>>,
            };
            let ghost tv = match tc {
                Some(x) => Some(x@),
                None => None::<Seq<char>>,
            };
            assert(crate::report::finding_views(out@) =~= before + (fill_part(path@, line as nat, *m, f@) + stroke_part(
                path@,
                line as nat,
                *m,
                f@,
                sv,
            ) + text_part(path@, line as nat, *m, contrast_views(pairs@), f@, tv)));
        },
        (None, Some(s), None) => {
            stroke_against(out, path, line, m, s);
        },
        (None, None, Some(_)) => {
            let msg = chars_of(ONLY_TEXT);
            push_finding(out, accessibility_at(path, line, &msg));
            assert(before.push(accessibility(path@, line as nat, msg@)) =~= before + seq![accessibility(path@, line as nat, msg@)]);
        },
        (None, Some(s), Some(_)) => {
            stroke_against(out, path, line, m, s);
        },
        (None, None, None) => {
            assert(before + Seq::<FindingView>::empty() =~= before);
        },
    }
}

/// The findings a `classDef` line gives, at its line, for a document.
fn class_definition(path: &str, line: usize, rest: &Vec<char>, m: &Mermaid, pairs: &[Contrast]) -> (r: Vec<Finding>)
    ensures
        crate::report::finding_views(r@) == class_spec(path@, line as nat, rest@, *m, contrast_views(pairs@)),
{
    let k = word_end(rest, 0);
    let assignments = if k < rest.len() {
        let a = slice(rest, k + 1, rest.len());
        assert(a@ =~= rest@.skip(k + 1));
        a
    } else {
        Vec::new()
    };
    assert(assignments@ =~= after_name(rest@));
    let parts = split(&assignments, ',');
    let fill = role_of(&parts, "fill");
    let stroke = role_of(&parts, "stroke");
    let color = role_of(&parts, "color");
    let mut out: Vec<Finding> = Vec::new();
    let ghost e = crate::report::finding_views(out@);
    assert(e =~= Seq::<FindingView>::empty());
    not_hex_check(&mut out, path, line, "fill", &fill);
    not_hex_check(&mut out, path, line, "stroke", &stroke);
    not_hex_check(&mut out, path, line, "color", &color);
    palette_findings(&mut out, path, line, m, pairs, &fill, &stroke, &color);
    let ghost fv = match fill {
        Some(x) => Some(x@),
        None => None::<Seq<char>>,
    };
    let ghost sv = match stroke {
        Some(x) => Some(x@),
        None => None::<Seq<char>>,
    };
    let ghost cv = match color {
        Some(x) => Some(x@),
        None => None::<Seq<char>>,
    };
    assert(crate::report::finding_views(out@) =~= e + not_hex(path@, line as nat, "fill"@, fv) + not_hex(
        path@,
        line as nat,
        "stroke"@,
        sv,
    ) + not_hex(path@, line as nat, "color"@, cv) + palette_part(path@, line as nat, *m, contrast_views(pairs@), fv, sv, cv));
    assert(e + not_hex(path@, line as nat, "fill"@, fv) =~= not_hex(path@, line as nat, "fill"@, fv));
    out
}

fn append_findings(out: &mut Vec<Finding>, found: Vec<Finding>)
    ensures
        crate::report::finding_views(final(out)@) == crate::report::finding_views(old(out)@) + crate::report::finding_views(found@),
{
    let ghost a = out@;
    let ghost b = found@;
    let mut found = found;
    out.append(&mut found);
    assert(crate::report::finding_views(a + b) =~= crate::report::finding_views(a) + crate::report::finding_views(b));
}

pub const OUTSIDE: &'static str = "color is declared outside a classDef, where the declared palette cannot reach it";

/// What one diagram line is found to break about colour: a `classDef` is
/// judged against the palette; a colour anywhere else is refused; a plain
/// comment is prose, but a `%%{` directive is not.
pub open spec fn color_line(path: Seq<char>, n: nat, raw: Seq<char>, m: Mermaid, pairs: Seq<(Seq<char>, Seq<char>, Seq<char>)>) -> Seq<FindingView> {
    let t = trim_spec(raw);
    if opens(t, "%%"@) && !opens(t, "%%{"@) {
        Seq::empty()
    } else if opens(t, "classDef "@) {
        class_spec(path, n, t.skip(9), m, pairs)
    } else if color_spec(t) {
        seq![accessibility(path, n, OUTSIDE@)]
    } else {
        Seq::empty()
    }
}

pub open spec fn colors_spec(path: Seq<char>, lines: Seq<(nat, Seq<char>)>, m: Mermaid, pairs: Seq<(Seq<char>, Seq<char>, Seq<char>)>) -> Seq<FindingView>
    decreases lines.len(),
{
    if lines.len() == 0 {
        Seq::empty()
    } else {
        colors_spec(path, lines.drop_last(), m, pairs) + color_line(path, lines.last().0, lines.last().1, m, pairs)
    }
}

fn colors(path: &str, lines: &Vec<(usize, String)>, m: &Mermaid, pairs: &[Contrast]) -> (r: Vec<Finding>)
    ensures
        crate::report::finding_views(r@) == colors_spec(path@, numbered(lines@), *m, contrast_views(pairs@)),
{
    let ghost nv = numbered(lines@);
    let mut out: Vec<Finding> = Vec::new();
    let mut i: usize = 0;
    assert(crate::report::finding_views(out@) =~= colors_spec(path@, nv.take(0), *m, contrast_views(pairs@)));
    while i < lines.len()
        invariant
            i <= lines.len(),
            nv == numbered(lines@),
            crate::report::finding_views(out@) == colors_spec(path@, nv.take(i as int), *m, contrast_views(pairs@)),
        decreases lines.len() - i,
    {
        assert(nv.take(i + 1).drop_last() =~= nv.take(i as int));
        assert(nv.take(i + 1).last() == (lines@[i as int].0 as nat, lines@[i as int].1@));
        let ghost before = crate::report::finding_views(out@);
        let t = trim(&chars_of(lines[i].1.as_str()));
        let n = lines[i].0;
        if crate::text::starts_with_str(&t, "%%") && !crate::text::starts_with_str(&t, "%%{") {
            assert(before + Seq::<FindingView>::empty() =~= before);
        } else if crate::text::starts_with_str(&t, "classDef ") {
            proof {
                reveal_strlit("classDef ");
            }
            let rest = slice(&t, 9, t.len());
            assert(rest@ =~= t@.skip(9));
            let found = class_definition(path, n, &rest, m, pairs);
            append_findings(&mut out, found);
        } else if contains_color(&t) {
            let msg = chars_of(OUTSIDE);
            push_finding(&mut out, accessibility_at(path, n, &msg));
            assert(before.push(accessibility(path@, n as nat, msg@)) =~= before + seq![accessibility(path@, n as nat, msg@)]);
        } else {
            assert(before + Seq::<FindingView>::empty() =~= before);
        }
        i += 1;
    }
    assert(nv.take(lines.len() as int) =~= nv);
    out
}

/// What a label labels, which is also what a consumer filters on.
#[derive(Debug, Clone, Copy, PartialEq, Eq, Structural)]
pub enum Segment {
    Node,
    Edge,
}

pub open spec fn segment_name(s: Segment) -> Seq<char> {
    match s {
        Segment::Node => "node"@,
        Segment::Edge => "edge"@,
    }
}

pub open spec fn segment_limit(s: Segment, m: Mermaid) -> nat {
    match s {
        Segment::Node => m.node_label_graphemes as nat,
        Segment::Edge => m.edge_label_graphemes as nat,
    }
}

/// Whether a line declares styling, behaviour or structure rather than
/// visible text. `class` names a node only in a class diagram.
pub open spec fn not_a_label_source(kind: Kind, t: Seq<char>) -> bool {
    if t.len() == 0 || opens(t, "%%"@) || t == "---"@ {
        true
    } else {
        let first = first_word(t);
        if first == "classDef"@ || first == "style"@ || first == "linkStyle"@ || first == "click"@ || first == "direction"@
            || first == "call"@ || first == "href"@ {
            true
        } else if first == "class"@ {
            kind != Kind::Class
        } else {
            false
        }
    }
}

/// The text between the first two double quotes.
pub open spec fn quoted_spec(t: Seq<char>) -> Option<Seq<char>> {
    match find_from(t, seq!['"'], 0) {
        None => None,
        Some(s) => {
            let rest = t.skip((s + 1) as int);
            match find_from(rest, seq!['"'], 0) {
                None => None,
                Some(e) => Some(rest.take(e as int)),
            }
        },
    }
}

/// The identifier after a keyword, without a trailing brace or quotes.
pub open spec fn enclosed_spec(t: Seq<char>, keyword: Seq<char>) -> Option<Seq<char>> {
    if !keyword.is_prefix_of(t) {
        None
    } else {
        let rest = crate::text::trim_start_spec(t.skip(keyword.len() as int));
        if rest.len() == 0 {
            None
        } else {
            Some(trim_char_spec(crate::text::strip_trail(first_word(rest), '{'), '"'))
        }
    }
}

/// Every run of text between a delimiter pair, outermost pairs only, each
/// without surrounding double quotes.
pub open spec fn between_from(l: Seq<char>, open: char, close: char, i: nat, depth: nat, start: nat) -> Seq<Seq<char>>
    decreases l.len() - i,
{
    if i >= l.len() {
        Seq::empty()
    } else if l[i as int] == open {
        between_from(l, open, close, i + 1, depth + 1, if depth == 0 { i + 1 } else { start })
    } else if l[i as int] == close && depth > 0 {
        if depth == 1 {
            seq![trim_char_spec(l.subrange(start as int, i as int), '"')] + between_from(l, open, close, i + 1, 0, start)
        } else {
            between_from(l, open, close, i + 1, (depth - 1) as nat, start)
        }
    } else {
        between_from(l, open, close, i + 1, depth, start)
    }
}

/// Edge labels written between pipes, and what is left of the line
/// without them.
pub open spec fn pipes(rest: Seq<char>) -> (Seq<Seq<char>>, Seq<char>)
    decreases rest.len(),
{
    match find_from(rest, seq!['|'], 0) {
        None => (Seq::empty(), rest),
        Some(s) => {
            let after = rest.skip((s + 1) as int);
            match find_from(after, seq!['|'], 0) {
                None => (Seq::empty(), rest),
                Some(e) => if s + 1 + e + 1 <= rest.len() {
                    let (labels, remainder) = pipes(after.skip((e + 1) as int));
                    (seq![after.take(e as int)] + labels, rest.take(s as int) + remainder)
                } else {
                    (Seq::empty(), rest)
                },
            }
        },
    }
}

/// The label of a text edge, `A -- label --> B`.
pub open spec fn text_edge(remainder: Seq<char>) -> Seq<Seq<char>> {
    match split_once_spec(remainder, "-- "@) {
        Some((head, tail)) => match split_once_spec(tail, "-->"@) {
            Some((label, _)) => if !holds(head, "-->"@) {
                seq![trim_spec(label)]
            } else {
                Seq::empty()
            },
            None => Seq::empty(),
        },
        None => Seq::empty(),
    }
}

pub open spec fn as_edges(ls: Seq<Seq<char>>) -> Seq<(Segment, Seq<char>)> {
    Seq::new(ls.len(), |i: int| (Segment::Edge, ls[i]))
}

pub open spec fn as_nodes(ls: Seq<Seq<char>>) -> Seq<(Segment, Seq<char>)> {
    Seq::new(ls.len(), |i: int| (Segment::Node, ls[i]))
}

/// The labels of a flowchart or block line: pipe-delimited edge labels,
/// then a text edge label, then node labels in brackets, parentheses and
/// braces.
pub open spec fn flow_labels_spec(line: Seq<char>) -> Seq<(Segment, Seq<char>)> {
    let (edges, remainder) = pipes(line);
    as_edges(edges) + as_edges(text_edge(remainder)) + as_nodes(between_from(remainder, '[', ']', 0, 0, 0)) + as_nodes(
        between_from(remainder, '(', ')', 0, 0, 0),
    ) + as_nodes(between_from(remainder, '{', '}', 0, 0, 0))
}

fn quoted(t: &Vec<char>) -> (r: Option<Vec<char>>)
    ensures
        match r {
            Some(v) => quoted_spec(t@) == Some(v@),
            None => quoted_spec(t@) is None,
        },
{
    let q = vec!['"'];
    assert(q@ =~= seq!['"']);
    match find(t, &q) {
        None => None,
        Some(s) => {
            let rest = slice(t, s + 1, t.len());
            assert(rest@ =~= t@.skip(s + 1));
            match find(&rest, &q) {
                None => None,
                Some(e) => {
                    let v = slice(&rest, 0, e);
                    assert(v@ =~= rest@.take(e as int));
                    Some(v)
                },
            }
        },
    }
}

fn enclosed_after(t: &Vec<char>, keyword: &str) -> (r: Option<Vec<char>>)
    ensures
        match r {
            Some(v) => enclosed_spec(t@, keyword@) == Some(v@),
            None => enclosed_spec(t@, keyword@) is None,
        },
{
    let k = chars_of(keyword);
    if !crate::text::starts_with(t, &k) {
        return None;
    }
    let after = slice(t, k.len(), t.len());
    assert(after@ =~= t@.skip(keyword@.len() as int));
    let rest = crate::text::trim_start(&after);
    if rest.len() == 0 {
        return None;
    }
    let end = word_end(&rest, 0);
    let word = slice(&rest, 0, end);
    assert(word@ =~= first_word(rest@));
    let stripped = crate::text::trim_end_char(&word, '{');
    Some(crate::text::trim_char(&stripped, '"'))
}

fn between(l: &Vec<char>, open: char, close: char) -> (r: Vec<Vec<char>>)
    ensures
        crate::text::views(r@) == between_from(l@, open, close, 0, 0, 0),
{
    let mut found: Vec<Vec<char>> = Vec::new();
    let mut depth: usize = 0;
    let mut start: usize = 0;
    let mut i: usize = 0;
    while i < l.len()
        invariant
            i <= l.len(),
            depth <= i,
            start <= i,
            between_from(l@, open, close, 0, 0, 0) == crate::text::views(found@) + between_from(
                l@,
                open,
                close,
                i as nat,
                depth as nat,
                start as nat,
            ),
        decreases l.len() - i,
    {
        let c = l[i];
        if c == open {
            if depth == 0 {
                start = i + 1;
            }
            depth += 1;
        } else if c == close && depth > 0 {
            depth -= 1;
            if depth == 0 {
                let piece = slice(l, start, i);
                let text = crate::text::trim_char(&piece, '"');
                let ghost before = crate::text::views(found@);
                let ghost rest = between_from(l@, open, close, (i + 1) as nat, 0, start as nat);
                found.push(text);
                assert(crate::text::views(found@) =~= before.push(trim_char_spec(l@.subrange(start as int, i as int), '"')));
                assert(before + (seq![trim_char_spec(l@.subrange(start as int, i as int), '"')] + rest) =~= crate::text::views(found@) + rest);
            }
        }
        i += 1;
    }
    assert(crate::text::views(found@) + Seq::<Seq<char>>::empty() =~= crate::text::views(found@));
    found
}

fn pipe_labels(line: &Vec<char>) -> (r: (Vec<Vec<char>>, Vec<char>))
    ensures
        (crate::text::views(r.0@), r.1@) == pipes(line@),
{
    let bar = vec!['|'];
    assert(bar@ =~= seq!['|']);
    let mut labels: Vec<Vec<char>> = Vec::new();
    let mut remainder: Vec<char> = Vec::new();
    let mut rest = slice(line, 0, line.len());
    assert(rest@ =~= line@);
    loop
        invariant
            bar@ == seq!['|'],
            pipes(line@) == (crate::text::views(labels@) + pipes(rest@).0, remainder@ + pipes(rest@).1),
        ensures
            pipes(rest@) == (Seq::<Seq<char>>::empty(), rest@),
        decreases rest.len(),
    {
        let s = match find(&rest, &bar) {
            None => break,
            Some(s) => s,
        };
        let after = slice(&rest, s + 1, rest.len());
        assert(after@ =~= rest@.skip(s + 1));
        let e = match find(&after, &bar) {
            None => break,
            Some(e) => e,
        };
        let label = slice(&after, 0, e);
        assert(label@ =~= after@.take(e as int));
        let head = slice(&rest, 0, s);
        assert(head@ =~= rest@.take(s as int));
        let next = slice(&after, e + 1, after.len());
        assert(next@ =~= after@.skip(e + 1));
        let ghost inner = pipes(next@);
        let ghost before_labels = crate::text::views(labels@);
        let ghost before_remainder = remainder@;
        labels.push(label);
        extend(&mut remainder, &head);
        assert(crate::text::views(labels@) =~= before_labels.push(after@.take(e as int)));
        assert(before_labels + (seq![after@.take(e as int)] + inner.0) =~= crate::text::views(labels@) + inner.0);
        assert(before_remainder + (rest@.take(s as int) + inner.1) =~= remainder@ + inner.1);
        rest = next;
    }
    extend(&mut remainder, &rest);
    assert(crate::text::views(labels@) + Seq::<Seq<char>>::empty() =~= crate::text::views(labels@));
    (labels, remainder)
}

fn text_edge_label(remainder: &Vec<char>) -> (r: Option<Vec<char>>)
    ensures
        match r {
            Some(v) => text_edge(remainder@) == seq![v@],
            None => text_edge(remainder@) == Seq::<Seq<char>>::empty(),
        },
{
    match split_once(remainder, &chars_of("-- ")) {
        Some((head, tail)) => match split_once(&tail, &chars_of("-->")) {
            Some((label, _)) => if !holds_text(&head, "-->") {
                Some(trim(&label))
            } else {
                None
            },
            None => None,
        },
        None => None,
    }
}

fn push_labels(out: &mut Vec<(Segment, Vec<char>)>, segment: Segment, labels: Vec<Vec<char>>)
    ensures
        label_views(final(out)@) == label_views(old(out)@) + Seq::new(labels@.len(), |i: int| (segment, labels@[i]@)),
{
    let ghost before = label_views(out@);
    let mut i: usize = 0;
    let mut labels = labels;
    let ghost lv = crate::text::views(labels@);
    let mut taken: Vec<Vec<char>> = Vec::new();
    while i < labels.len()
        invariant
            i <= labels.len(),
            lv == crate::text::views(labels@),
            label_views(out@) == before + Seq::new(i as nat, |k: int| (segment, lv[k])),
        decreases labels.len() - i,
    {
        let piece = slice(&labels[i], 0, labels[i].len());
        assert(piece@ =~= lv[i as int]);
        let ghost prior = label_views(out@);
        out.push((segment, piece));
        assert(label_views(out@) =~= prior.push((segment, lv[i as int])));
        assert(label_views(out@) =~= before + Seq::new((i + 1) as nat, |k: int| (segment, lv[k])));
        i += 1;
    }
}

pub open spec fn label_views(ls: Seq<(Segment, Vec<char>)>) -> Seq<(Segment, Seq<char>)> {
    Seq::new(ls.len(), |i: int| (ls[i].0, ls[i].1@))
}

fn flow_labels(line: &Vec<char>) -> (r: Vec<(Segment, Vec<char>)>)
    ensures
        label_views(r@) == flow_labels_spec(line@),
{
    let (edges, remainder) = pipe_labels(line);
    let mut out: Vec<(Segment, Vec<char>)> = Vec::new();
    let ghost e = label_views(out@);
    assert(e =~= Seq::<(Segment, Seq<char>)>::empty());
    let ghost ev = crate::text::views(edges@);
    push_labels(&mut out, Segment::Edge, edges);
    let ghost a = label_views(out@);
    let text = text_edge_label(&remainder);
    let mut texts: Vec<Vec<char>> = Vec::new();
    if let Some(t) = text {
        texts.push(t);
    }
    assert(crate::text::views(texts@) =~= text_edge(remainder@));
    push_labels(&mut out, Segment::Edge, texts);
    let square = between(&remainder, '[', ']');
    push_labels(&mut out, Segment::Node, square);
    let round = between(&remainder, '(', ')');
    push_labels(&mut out, Segment::Node, round);
    let curly = between(&remainder, '{', '}');
    push_labels(&mut out, Segment::Node, curly);
    assert(label_views(out@) =~= flow_labels_spec(line@));
    out
}

/// Whether std's `char::is_alphanumeric` holds of a character: Unicode
/// `Alphabetic` or `Numeric`.
pub uninterp spec fn alphanumeric(c: char) -> bool;

/// Calls `char::is_alphanumeric`. Claimed: the result is `alphanumeric`
/// of the character, and for an ASCII character it is exactly the ASCII
/// letters and digits, as std's documentation states.
#[verifier::external_body]
fn is_alphanumeric(c: char) -> (r: bool)
    ensures
        r == alphanumeric(c),
        (c as u32) < 128 ==> (r <==> (('a' <= c <= 'z') || ('A' <= c <= 'Z') || ('0' <= c <= '9'))),
{
    c.is_alphanumeric()
}

/// The whitespace-separated words of a text, in order.
pub open spec fn words_spec(s: Seq<char>) -> Seq<Seq<char>>
    decreases s.len(),
{
    if s.len() == 0 {
        Seq::empty()
    } else {
        let w = words_spec(s.drop_last());
        if is_ws(s.last()) {
            w
        } else if s.len() == 1 || is_ws(s[s.len() - 2]) {
            w.push(seq![s.last()])
        } else {
            w.update(w.len() - 1, w.last().push(s.last()))
        }
    }
}

fn words(s: &Vec<char>) -> (r: Vec<Vec<char>>)
    ensures
        crate::text::views(r@) == words_spec(s@),
{
    let mut r: Vec<Vec<char>> = Vec::new();
    let mut i: usize = 0;
    while i < s.len()
        invariant
            i <= s.len(),
            crate::text::views(r@) == words_spec(s@.take(i as int)),
            i > 0 && !is_ws(s@[i - 1]) ==> r.len() > 0,
        decreases s.len() - i,
    {
        let ghost t = s@.take(i + 1);
        assert(t.drop_last() =~= s@.take(i as int));
        assert(t.last() == s@[i as int]);
        let ghost before = crate::text::views(r@);
        if is_whitespace(s[i]) {
        } else if i == 0 || is_whitespace(s[i - 1]) {
            assert(i > 0 ==> t[t.len() - 2] == s@[i - 1]);
            let w = vec![s[i]];
            assert(w@ =~= seq![s@[i as int]]);
            r.push(w);
            assert(crate::text::views(r@) =~= before.push(seq![s@[i as int]]));
        } else {
            assert(t[t.len() - 2] == s@[i - 1]);
            let last = r.len() - 1;
            let mut w = slice(&r[last], 0, r[last].len());
            assert(w@ =~= before[last as int]);
            w.push(s[i]);
            r.set(last, w);
            assert(crate::text::views(r@) =~= before.update(last as int, before.last().push(s@[i as int])));
        }
        i += 1;
    }
    assert(s@.take(s.len() as int) =~= s@);
    r
}

pub open spec fn entity_token(t: Seq<char>) -> bool {
    forall|i: int| 0 <= i < t.len() ==> (alphanumeric(#[trigger] t[i]) || t[i] == '_' || t[i] == '-')
}

/// The entity tokens of the head of a line, before its first colon.
pub open spec fn entity_tokens(ws: Seq<Seq<char>>) -> Seq<Seq<char>>
    decreases ws.len(),
{
    if ws.len() == 0 {
        Seq::empty()
    } else if entity_token(ws.last()) {
        entity_tokens(ws.drop_last()).push(ws.last())
    } else {
        entity_tokens(ws.drop_last())
    }
}

/// The entity names an entity-relationship line shows a reader.
pub open spec fn entity_labels_spec(line: Seq<char>) -> Seq<(Segment, Seq<char>)> {
    as_nodes(entity_tokens(words_spec(split_spec(line, ':')[0])))
}

fn is_entity_token(t: &Vec<char>) -> (r: bool)
    ensures
        r == entity_token(t@),
{
    let mut i: usize = 0;
    while i < t.len()
        invariant
            i <= t.len(),
            forall|k: int| 0 <= k < i ==> (alphanumeric(#[trigger] t@[k]) || t@[k] == '_' || t@[k] == '-'),
        decreases t.len() - i,
    {
        if !(is_alphanumeric(t[i]) || t[i] == '_' || t[i] == '-') {
            return false;
        }
        i += 1;
    }
    true
}

fn entity_labels(line: &Vec<char>) -> (r: Vec<(Segment, Vec<char>)>)
    ensures
        label_views(r@) == entity_labels_spec(line@),
{
    let pieces = split(line, ':');
    proof {
        crate::text::lemma_split_nonempty(line@, ':');
    }
    let ws = words(&pieces[0]);
    let ghost wv = crate::text::views(ws@);
    let mut kept: Vec<Vec<char>> = Vec::new();
    let mut i: usize = 0;
    while i < ws.len()
        invariant
            i <= ws.len(),
            wv == crate::text::views(ws@),
            crate::text::views(kept@) == entity_tokens(wv.take(i as int)),
        decreases ws.len() - i,
    {
        assert(wv.take(i + 1).drop_last() =~= wv.take(i as int));
        assert(wv.take(i + 1).last() == ws@[i as int]@);
        if is_entity_token(&ws[i]) {
            let ghost before = crate::text::views(kept@);
            let w = slice(&ws[i], 0, ws[i].len());
            assert(w@ =~= ws@[i as int]@);
            kept.push(w);
            assert(crate::text::views(kept@) =~= before.push(ws@[i as int]@));
        }
        i += 1;
    }
    assert(wv.take(ws.len() as int) =~= wv);
    let mut out: Vec<(Segment, Vec<char>)> = Vec::new();
    assert(label_views(out@) =~= Seq::<(Segment, Seq<char>)>::empty());
    push_labels(&mut out, Segment::Node, kept);
    assert(label_views(out@) =~= entity_labels_spec(line@));
    out
}

/// Every visible label a line declares, with what it labels.
pub open spec fn labels_spec(kind: Kind, line: Seq<char>) -> Seq<(Segment, Seq<char>)> {
    match kind {
        Kind::Flow | Kind::Block => flow_labels_spec(line),
        Kind::Class => match enclosed_spec(line, "class"@) {
            Some(name) => seq![(Segment::Node, name)],
            None => Seq::empty(),
        },
        Kind::State => match quoted_spec(line) {
            Some(label) => seq![(Segment::Node, label)],
            None => Seq::empty(),
        },
        Kind::Entity => entity_labels_spec(line),
        Kind::Requirement => match enclosed_spec(line, "requirement"@) {
            Some(name) => seq![(Segment::Node, name)],
            None => Seq::empty(),
        },
    }
}

fn labels(kind: Kind, line: &Vec<char>) -> (r: Vec<(Segment, Vec<char>)>)
    ensures
        label_views(r@) == labels_spec(kind, line@),
{
    let single = |found: Option<Vec<char>>| -> (r: Vec<(Segment, Vec<char>)>)
        ensures
            label_views(r@) == match found {
                Some(v) => seq![(Segment::Node, v@)],
                None => Seq::<(Segment, Seq<char>)>::empty(),
            },
        {
            let mut out: Vec<(Segment, Vec<char>)> = Vec::new();
            if let Some(v) = found {
                out.push((Segment::Node, v));
            }
            assert(label_views(out@) =~= match found {
                Some(v) => seq![(Segment::Node, v@)],
                None => Seq::<(Segment, Seq<char>)>::empty(),
            });
            out
        };
    match kind {
        Kind::Flow | Kind::Block => flow_labels(line),
        Kind::Class => single(enclosed_after(line, "class")),
        Kind::State => single(quoted(line)),
        Kind::Entity => entity_labels(line),
        Kind::Requirement => single(enclosed_after(line, "requirement")),
    }
}

/// `str::replace`: every occurrence of a non-empty pattern, left to right
/// and without overlap, replaced.
pub open spec fn replace_spec(s: Seq<char>, p: Seq<char>, w: Seq<char>) -> Seq<char>
    decreases s.len(),
{
    if p.len() == 0 {
        s
    } else {
        match find_from(s, p, 0) {
            None => s,
            Some(k) => if k + p.len() <= s.len() {
                s.take(k as int) + w + replace_spec(s.skip((k + p.len()) as int), p, w)
            } else {
                s
            },
        }
    }
}

pub(crate) fn replace(s: &Vec<char>, p: &str, w: &Vec<char>) -> (r: Vec<char>)
    requires
        p@.len() > 0,
    ensures
        r@ == replace_spec(s@, p@, w@),
{
    let pat = chars_of(p);
    let mut out: Vec<char> = Vec::new();
    let mut rest = slice(s, 0, s.len());
    assert(rest@ =~= s@);
    loop
        invariant
            pat@ == p@,
            p@.len() > 0,
            replace_spec(s@, p@, w@) == out@ + replace_spec(rest@, p@, w@),
        ensures
            replace_spec(rest@, p@, w@) == rest@,
        decreases rest.len(),
    {
        let k = match find(&rest, &pat) {
            None => break,
            Some(k) => k,
        };
        let head = slice(&rest, 0, k);
        let tail = slice(&rest, k + pat.len(), rest.len());
        assert(head@ =~= rest@.take(k as int));
        assert(tail@ =~= rest@.skip(k + pat.len()));
        let ghost before = out@;
        extend(&mut out, &head);
        extend(&mut out, w);
        assert(before + (rest@.take(k as int) + w@ + replace_spec(tail@, p@, w@)) =~= out@ + replace_spec(tail@, p@, w@));
        rest = tail;
    }
    extend(&mut out, &rest);
    out
}

/// A text without its HTML tags, which a reader never counts.
pub open spec fn markup_from(t: Seq<char>, i: nat, depth: nat) -> Seq<char>
    decreases t.len() - i,
{
    if i >= t.len() {
        Seq::empty()
    } else if t[i as int] == '<' {
        markup_from(t, i + 1, depth + 1)
    } else if t[i as int] == '>' && depth > 0 {
        markup_from(t, i + 1, (depth - 1) as nat)
    } else if depth == 0 {
        seq![t[i as int]] + markup_from(t, i + 1, depth)
    } else {
        markup_from(t, i + 1, depth)
    }
}

fn strip_markup(t: &Vec<char>) -> (r: Vec<char>)
    ensures
        r@ == markup_from(t@, 0, 0),
{
    let mut out: Vec<char> = Vec::new();
    let mut depth: usize = 0;
    let mut i: usize = 0;
    while i < t.len()
        invariant
            i <= t.len(),
            depth <= i,
            markup_from(t@, 0, 0) == out@ + markup_from(t@, i as nat, depth as nat),
        decreases t.len() - i,
    {
        let c = t[i];
        if c == '<' {
            depth += 1;
        } else if c == '>' && depth > 0 {
            depth -= 1;
        } else if depth == 0 {
            let ghost before = out@;
            out.push(c);
            assert(before + (seq![c] + markup_from(t@, (i + 1) as nat, 0)) =~= out@ + markup_from(t@, (i + 1) as nat, 0));
        }
        i += 1;
    }
    assert(out@ + Seq::<char>::empty() =~= out@);
    out
}

/// The value of a digit in a radix of at most sixteen.
pub open spec fn digit_value(c: char, radix: nat) -> Option<nat> {
    let v: int = if '0' <= c <= '9' {
        c as int - '0' as int
    } else if 'a' <= c <= 'z' {
        c as int - 'a' as int + 10
    } else if 'A' <= c <= 'Z' {
        c as int - 'A' as int + 10
    } else {
        -1
    };
    if 0 <= v < radix {
        Some(v as nat)
    } else {
        None
    }
}

/// The number a run of digits spells in a radix.
pub open spec fn digits_value(s: Seq<char>, radix: nat) -> Option<nat>
    decreases s.len(),
{
    if s.len() == 0 {
        Some(0)
    } else {
        match (digits_value(s.drop_last(), radix), digit_value(s.last(), radix)) {
            (Some(v), Some(d)) => Some(v * radix + d),
            _ => None,
        }
    }
}

/// `u32::from_str_radix`: an optional `+`, then at least one digit, with a
/// value that fits in a `u32`.
pub open spec fn parse_u32(s: Seq<char>, radix: nat) -> Option<nat> {
    let d = if s.len() > 0 && s[0] == '+' {
        s.skip(1)
    } else {
        s
    };
    if d.len() == 0 {
        None
    } else {
        match digits_value(d, radix) {
            Some(v) => if v <= u32::MAX {
                Some(v)
            } else {
                None
            },
            None => None,
        }
    }
}

proof fn lemma_digits_grow(s: Seq<char>, radix: nat, k: nat)
    requires
        radix >= 1,
        k <= s.len(),
        digits_value(s, radix) is Some,
    ensures
        digits_value(s.take(k as int), radix) is Some,
        digits_value(s.take(k as int), radix)->0 <= digits_value(s, radix)->0,
    decreases s.len(),
{
    if k < s.len() {
        assert(s.drop_last().take(k as int) =~= s.take(k as int));
        lemma_digits_grow(s.drop_last(), radix, k);
        let v = digits_value(s.drop_last(), radix)->0;
        let d = digit_value(s.last(), radix)->0;
        assert(v <= v * radix + d) by (nonlinear_arith)
            requires
                radix >= 1,
        ;
    } else {
        assert(s.take(k as int) =~= s);
    }
}

fn parse_number(s: &Vec<char>, radix: u32) -> (r: Option<u32>)
    requires
        2 <= radix <= 16,
    ensures
        match r {
            Some(v) => parse_u32(s@, radix as nat) == Some(v as nat),
            None => parse_u32(s@, radix as nat) is None,
        },
{
    let d = if s.len() > 0 && s[0] == '+' {
        let d = slice(s, 1, s.len());
        assert(d@ =~= s@.skip(1));
        d
    } else {
        let d = slice(s, 0, s.len());
        assert(d@ =~= s@);
        d
    };
    if d.len() == 0 {
        return None;
    }
    let mut v: u64 = 0;
    let mut i: usize = 0;
    while i < d.len()
        invariant
            i <= d.len(),
            2 <= radix <= 16,
            v <= u32::MAX,
            d.len() > 0,
            d@ == (if s@.len() > 0 && s@[0] == '+' {
                s@.skip(1)
            } else {
                s@
            }),
            digits_value(d@.take(i as int), radix as nat) == Some(v as nat),
        decreases d.len() - i,
    {
        assert(d@.take(i + 1).drop_last() =~= d@.take(i as int));
        assert(d@.take(i + 1).last() == d@[i as int]);
        let c = d[i];
        let value: u64 = if '0' <= c && c <= '9' {
            (c as u32 - '0' as u32) as u64
        } else if 'a' <= c && c <= 'z' {
            (c as u32 - 'a' as u32 + 10) as u64
        } else if 'A' <= c && c <= 'Z' {
            (c as u32 - 'A' as u32 + 10) as u64
        } else {
            99
        };
        assert(value < radix ==> digit_value(c, radix as nat) == Some(value as nat));
        assert(value >= radix ==> digit_value(c, radix as nat) is None);
        if value >= radix as u64 {
            proof {
                if digits_value(d@, radix as nat) is Some {
                    lemma_digits_grow(d@, radix as nat, (i + 1) as nat);
                }
            }
            return None;
        }
        assert(v * (radix as u64) + value <= 0xFFFF_FFFFu64 * 16 + 15) by (nonlinear_arith)
            requires
                v <= 0xFFFF_FFFFu64,
                radix <= 16,
                value < 16,
        ;
        let next = v * (radix as u64) + value;
        assert(digits_value(d@.take(i + 1), radix as nat) == Some(next as nat));
        if next > 0xFFFF_FFFF {
            proof {
                if digits_value(d@, radix as nat) is Some {
                    lemma_digits_grow(d@, radix as nat, (i + 1) as nat);
                }
            }
            return None;
        }
        v = next;
        i += 1;
    }
    assert(d@.take(d.len() as int) =~= d@);
    Some(v as u32)
}

/// Whether a number names a Unicode scalar value.
pub open spec fn scalar_value(v: nat) -> bool {
    v <= 0x10FFFF && !(0xD800 <= v <= 0xDFFF)
}

/// Calls `char::from_u32`. Claimed, as std documents it: a character
/// exactly when the number is a Unicode scalar value, and then the
/// character with that number.
#[verifier::external_body]
fn char_from(v: u32) -> (r: Option<char>)
    ensures
        r is Some <==> scalar_value(v as nat),
        r matches Some(c) ==> c == (v as nat) as char,
{
    char::from_u32(v)
}

/// What a numeric character reference names: `#` and decimal digits, or
/// `#x` or `#X` and hex digits, naming a Unicode scalar value.
pub open spec fn numeric_spec(entity: Seq<char>) -> Option<char> {
    if entity.len() == 0 || entity[0] != '#' {
        None
    } else {
        let digits = entity.skip(1);
        let code = if digits.len() > 0 && (digits[0] == 'x' || digits[0] == 'X') {
            parse_u32(digits.skip(1), 16)
        } else {
            parse_u32(digits, 10)
        };
        match code {
            Some(v) => if scalar_value(v) {
                Some(v as char)
            } else {
                None
            },
            None => None,
        }
    }
}

/// What an entity between `&` and `;` names.
pub open spec fn entity_spec(entity: Seq<char>) -> Option<char> {
    if entity == "amp"@ {
        Some('&')
    } else if entity == "lt"@ {
        Some('<')
    } else if entity == "gt"@ {
        Some('>')
    } else if entity == "quot"@ {
        Some('"')
    } else if entity == "apos"@ {
        Some('\'')
    } else if entity == "nbsp"@ {
        Some('\u{a0}')
    } else {
        numeric_spec(entity)
    }
}

fn numeric(entity: &Vec<char>) -> (r: Option<char>)
    ensures
        r == numeric_spec(entity@),
{
    if entity.len() == 0 || entity[0] != '#' {
        return None;
    }
    let digits = slice(entity, 1, entity.len());
    assert(digits@ =~= entity@.skip(1));
    let code = if digits.len() > 0 && (digits[0] == 'x' || digits[0] == 'X') {
        let hex = slice(&digits, 1, digits.len());
        assert(hex@ =~= digits@.skip(1));
        parse_number(&hex, 16)
    } else {
        parse_number(&digits, 10)
    };
    match code {
        Some(v) => match char_from(v) {
            Some(c) => Some(c),
            None => None,
        },
        None => None,
    }
}

fn entity_char(entity: &Vec<char>) -> (r: Option<char>)
    ensures
        r == entity_spec(entity@),
{
    if crate::text::is(entity, "amp") {
        Some('&')
    } else if crate::text::is(entity, "lt") {
        Some('<')
    } else if crate::text::is(entity, "gt") {
        Some('>')
    } else if crate::text::is(entity, "quot") {
        Some('"')
    } else if crate::text::is(entity, "apos") {
        Some('\'')
    } else if crate::text::is(entity, "nbsp") {
        Some('\u{a0}')
    } else {
        numeric(entity)
    }
}

/// A label as it is seen: each `&name;` or numeric reference Mermaid passes
/// through decoded, and an `&` that begins none kept as written.
pub open spec fn decode_spec(rest: Seq<char>) -> Seq<char>
    decreases rest.len(),
{
    match find_from(rest, seq!['&'], 0) {
        None => rest,
        Some(s) => if s < rest.len() {
            let after = rest.skip(s as int);
            match find_from(after, seq![';'], 0) {
                Some(e) => if 1 <= e < after.len() {
                    match entity_spec(after.subrange(1, e as int)) {
                        Some(c) => rest.take(s as int) + seq![c] + decode_spec(after.skip((e + 1) as int)),
                        None => rest.take(s as int) + seq!['&'] + decode_spec(after.skip(1)),
                    }
                } else {
                    rest.take(s as int) + seq!['&'] + decode_spec(after.skip(1))
                },
                None => rest.take(s as int) + seq!['&'] + decode_spec(after.skip(1)),
            }
        } else {
            rest
        },
    }
}

fn decode(text: &Vec<char>) -> (r: Vec<char>)
    ensures
        r@ == decode_spec(text@),
{
    let amp = vec!['&'];
    assert(amp@ =~= seq!['&']);
    let semi = vec![';'];
    assert(semi@ =~= seq![';']);
    let mut out: Vec<char> = Vec::new();
    let mut rest = slice(text, 0, text.len());
    assert(rest@ =~= text@);
    loop
        invariant
            amp@ == seq!['&'],
            semi@ == seq![';'],
            decode_spec(text@) == out@ + decode_spec(rest@),
        ensures
            decode_spec(rest@) == rest@,
        decreases rest.len(),
    {
        let s = match find(&rest, &amp) {
            None => break,
            Some(s) => s,
        };
        let after = slice(&rest, s, rest.len());
        assert(after@ =~= rest@.skip(s as int));
        let head = slice(&rest, 0, s);
        assert(head@ =~= rest@.take(s as int));
        assert(rest@.subrange(s as int, s + 1) == amp@);
        assert(rest@.subrange(s as int, s + 1)[0] == rest@[s as int]);
        assert(after@[0] == '&');
        let ghost before = out@;
        extend(&mut out, &head);
        let mut skip_to: usize = 1;
        let mut decoded: Option<char> = None;
        if let Some(e) = find(&after, &semi) {
            if 1 <= e {
                let entity = slice(&after, 1, e);
                if let Some(c) = entity_char(&entity) {
                    decoded = Some(c);
                    skip_to = e + 1;
                }
            }
        }
        match decoded {
            Some(c) => out.push(c),
            None => out.push('&'),
        }
        let next = slice(&after, skip_to, after.len());
        assert(next@ =~= after@.skip(skip_to as int));
        proof {
            let c = match decoded {
                Some(c) => c,
                None => '&',
            };
            assert(before + (rest@.take(s as int) + seq![c] + decode_spec(next@)) =~= out@ + decode_spec(next@));
        }
        rest = next;
    }
    extend(&mut out, &rest);
    out
}

/// The line breaks a label may carry, each splitting it into a line a
/// reader sees separately.
pub open spec fn normalised(label: Seq<char>) -> Seq<char> {
    replace_spec(
        replace_spec(replace_spec(replace_spec(label, "<br/>"@, seq!['\u{1}']), "<br />"@, seq!['\u{1}']), "<br>"@, seq!['\u{1}']),
        "\\n"@,
        seq!['\u{1}'],
    )
}

/// A label's visible segments, each stripped of markup and decoded.
pub open spec fn segments_spec(label: Seq<char>) -> Seq<Seq<char>> {
    let parts = split_spec(normalised(label), '\u{1}');
    Seq::new(parts.len(), |i: int| decode_spec(markup_from(parts[i], 0, 0)))
}

fn segments(label: &Vec<char>) -> (r: Vec<Vec<char>>)
    ensures
        crate::text::views(r@) == segments_spec(label@),
{
    let sep = vec!['\u{1}'];
    assert(sep@ =~= seq!['\u{1}']);
    proof {
        reveal_strlit("<br/>");
        reveal_strlit("<br />");
        reveal_strlit("<br>");
        reveal_strlit("\\n");
    }
    let a = replace(label, "<br/>", &sep);
    let b = replace(&a, "<br />", &sep);
    let c = replace(&b, "<br>", &sep);
    let d = replace(&c, "\\n", &sep);
    let parts = split(&d, '\u{1}');
    let mut out: Vec<Vec<char>> = Vec::new();
    let mut i: usize = 0;
    while i < parts.len()
        invariant
            i <= parts.len(),
            crate::text::views(parts@) == split_spec(normalised(label@), '\u{1}'),
            crate::text::views(out@) == Seq::new(i as nat, |k: int| decode_spec(markup_from(parts@[k]@, 0, 0))),
        decreases parts.len() - i,
    {
        let ghost before = crate::text::views(out@);
        let v = decode(&strip_markup(&parts[i]));
        let ghost vv = v@;
        out.push(v);
        assert(crate::text::views(out@) =~= before.push(vv));
        assert(crate::text::views(out@) =~= Seq::new((i + 1) as nat, |k: int| decode_spec(markup_from(parts@[k]@, 0, 0))));
        i += 1;
    }
    assert(crate::text::views(out@) =~= segments_spec(label@));
    out
}

/// The extended grapheme clusters `unicode-segmentation` finds in a text,
/// in order.
pub uninterp spec fn graphemes_of(text: Seq<char>) -> Seq<Seq<char>>;

/// Calls `UnicodeSegmentation::graphemes` with extended clusters and
/// collects the clusters. Claimed: the result is `graphemes_of` of the
/// text; nothing is claimed of where the boundaries fall.
#[verifier::external_body]
fn graphemes(text: &str) -> (r: Vec<String>)
    ensures
        crate::report::string_views(r@) == graphemes_of(text@),
{
    unicode_segmentation::UnicodeSegmentation::graphemes(text, true).map(|g| g.to_string()).collect()
}

pub const SEMICOLON: &'static str = "a state transition ends in a semicolon, which some renderers draw as part of the label";

pub open spec fn legibility(path: Seq<char>, line: nat, message: Seq<char>, details: Seq<(Seq<char>, DetailView)>) -> FindingView {
    FindingView { kind: LEGIBILITY@, path, line: Some(line), column: None, field: None, message, details }
}

/// The finding for a visible label segment longer than its limit.
pub open spec fn too_long(path: Seq<char>, line: nat, segment: Segment, measured: nat, limit: nat) -> FindingView {
    legibility(
        path,
        line,
        "a "@ + segment_name(segment) + " label is longer than the declared limit"@,
        seq![
            ("segment"@, DetailView::Text(segment_name(segment))),
            ("measured"@, DetailView::Count(measured)),
            ("limit"@, DetailView::Count(limit)),
        ],
    )
}

/// One finding for every visible segment with more graphemes than the
/// limit.
pub open spec fn visible_findings(path: Seq<char>, line: nat, segment: Segment, limit: nat, visible: Seq<Seq<char>>) -> Seq<FindingView>
    decreases visible.len(),
{
    if visible.len() == 0 {
        Seq::empty()
    } else {
        let measured = graphemes_of(visible.last()).len();
        visible_findings(path, line, segment, limit, visible.drop_last()) + if measured > limit {
            seq![too_long(path, line, segment, measured, limit)]
        } else {
            Seq::empty()
        }
    }
}

pub open spec fn label_findings(path: Seq<char>, line: nat, labels: Seq<(Segment, Seq<char>)>, m: Mermaid) -> Seq<FindingView>
    decreases labels.len(),
{
    if labels.len() == 0 {
        Seq::empty()
    } else {
        let (segment, label) = labels.last();
        label_findings(path, line, labels.drop_last(), m) + visible_findings(
            path,
            line,
            segment,
            segment_limit(segment, m),
            segments_spec(label),
        )
    }
}

/// What one diagram line is found to break about legibility: a state
/// transition ending in a semicolon, and labels longer than the limit of
/// what they label.
pub open spec fn legibility_line(path: Seq<char>, n: nat, raw: Seq<char>, kind: Kind, m: Mermaid) -> Seq<FindingView> {
    let t = trim_spec(raw);
    if not_a_label_source(kind, t) {
        Seq::empty()
    } else {
        (if kind == Kind::State && holds(t, "-->"@) && t.last() == ';' {
            seq![legibility(path, n, SEMICOLON@, Seq::empty())]
        } else {
            Seq::empty()
        }) + label_findings(path, n, labels_spec(kind, t), m)
    }
}

pub open spec fn legibility_spec(path: Seq<char>, lines: Seq<(nat, Seq<char>)>, kind: Kind, m: Mermaid) -> Seq<FindingView>
    decreases lines.len(),
{
    if lines.len() == 0 {
        Seq::empty()
    } else {
        legibility_spec(path, lines.drop_last(), kind, m) + legibility_line(path, lines.last().0, lines.last().1, kind, m)
    }
}

fn is_not_a_label_source(kind: Kind, t: &Vec<char>) -> (r: bool)
    ensures
        r == not_a_label_source(kind, t@),
{
    if t.len() == 0 || crate::text::starts_with_str(t, "%%") || crate::text::is(t, "---") {
        return true;
    }
    let end = word_end(t, 0);
    let first = slice(t, 0, end);
    assert(first@ =~= first_word(t@));
    if crate::text::is(&first, "classDef") || crate::text::is(&first, "style") || crate::text::is(&first, "linkStyle")
        || crate::text::is(&first, "click") || crate::text::is(&first, "direction") || crate::text::is(&first, "call")
        || crate::text::is(&first, "href") {
        true
    } else if crate::text::is(&first, "class") {
        kind != Kind::Class
    } else {
        false
    }
}

fn segment_label(segment: Segment) -> (r: &'static str)
    ensures
        r@ == segment_name(segment),
{
    match segment {
        Segment::Node => "node",
        Segment::Edge => "edge",
    }
}

fn visible_check(out: &mut Vec<Finding>, path: &str, line: usize, segment: Segment, limit: usize, visible: &Vec<Vec<char>>)
    ensures
        crate::report::finding_views(final(out)@) == crate::report::finding_views(old(out)@) + visible_findings(
            path@,
            line as nat,
            segment,
            limit as nat,
            crate::text::views(visible@),
        ),
{
    let ghost vv = crate::text::views(visible@);
    let ghost base = crate::report::finding_views(out@);
    let mut i: usize = 0;
    assert(base + visible_findings(path@, line as nat, segment, limit as nat, vv.take(0)) =~= base);
    while i < visible.len()
        invariant
            i <= visible.len(),
            vv == crate::text::views(visible@),
            crate::report::finding_views(out@) == base + visible_findings(path@, line as nat, segment, limit as nat, vv.take(i as int)),
        decreases visible.len() - i,
    {
        assert(vv.take(i + 1).drop_last() =~= vv.take(i as int));
        assert(vv.take(i + 1).last() == visible@[i as int]@);
        let ghost before = crate::report::finding_views(out@);
        let measured = graphemes(string_of(&visible[i]).as_str()).len();
        if measured > limit {
            let name = segment_label(segment);
            let mut msg = chars_of("a ");
            extend_str(&mut msg, name);
            extend_str(&mut msg, " label is longer than the declared limit");
            let f = Finding::new(LEGIBILITY, path, string_of(&msg).as_str()).at_line(line).with(
                "segment",
                Detail::Text(name.to_string()),
            ).with("measured", Detail::Count(measured)).with("limit", Detail::Count(limit));
            assert(f@.details =~= too_long(path@, line as nat, segment, measured as nat, limit as nat).details);
            assert(f@ == too_long(path@, line as nat, segment, measured as nat, limit as nat));
            push_finding(out, f);
            assert(before.push(f@) =~= before + seq![f@]);
        } else {
            assert(before + Seq::<FindingView>::empty() =~= before);
        }
        i += 1;
    }
    assert(vv.take(visible.len() as int) =~= vv);
}

fn label_check(out: &mut Vec<Finding>, path: &str, line: usize, found: &Vec<(Segment, Vec<char>)>, m: &Mermaid)
    ensures
        crate::report::finding_views(final(out)@) == crate::report::finding_views(old(out)@) + label_findings(
            path@,
            line as nat,
            label_views(found@),
            *m,
        ),
{
    let ghost lv = label_views(found@);
    let ghost base = crate::report::finding_views(out@);
    let mut i: usize = 0;
    assert(base + label_findings(path@, line as nat, lv.take(0), *m) =~= base);
    while i < found.len()
        invariant
            i <= found.len(),
            lv == label_views(found@),
            crate::report::finding_views(out@) == base + label_findings(path@, line as nat, lv.take(i as int), *m),
        decreases found.len() - i,
    {
        assert(lv.take(i + 1).drop_last() =~= lv.take(i as int));
        assert(lv.take(i + 1).last() == (found@[i as int].0, found@[i as int].1@));
        let segment = found[i].0;
        let limit = match segment {
            Segment::Node => m.node_label_graphemes,
            Segment::Edge => m.edge_label_graphemes,
        };
        let visible = segments(&found[i].1);
        let ghost before = crate::report::finding_views(out@);
        visible_check(out, path, line, segment, limit, &visible);
        assert(base + label_findings(path@, line as nat, lv.take(i + 1), *m) =~= before + visible_findings(
            path@,
            line as nat,
            segment,
            limit as nat,
            crate::text::views(visible@),
        ));
        i += 1;
    }
    assert(lv.take(found.len() as int) =~= lv);
}

fn legibility_lines(path: &str, lines: &Vec<(usize, String)>, kind: Kind, m: &Mermaid) -> (r: Vec<Finding>)
    ensures
        crate::report::finding_views(r@) == legibility_spec(path@, numbered(lines@), kind, *m),
{
    let ghost nv = numbered(lines@);
    let mut out: Vec<Finding> = Vec::new();
    let mut i: usize = 0;
    assert(crate::report::finding_views(out@) =~= legibility_spec(path@, nv.take(0), kind, *m));
    while i < lines.len()
        invariant
            i <= lines.len(),
            nv == numbered(lines@),
            crate::report::finding_views(out@) == legibility_spec(path@, nv.take(i as int), kind, *m),
        decreases lines.len() - i,
    {
        assert(nv.take(i + 1).drop_last() =~= nv.take(i as int));
        assert(nv.take(i + 1).last() == (lines@[i as int].0 as nat, lines@[i as int].1@));
        let ghost before = crate::report::finding_views(out@);
        let t = trim(&chars_of(lines[i].1.as_str()));
        let n = lines[i].0;
        if is_not_a_label_source(kind, &t) {
            assert(before + Seq::<FindingView>::empty() =~= before);
        } else {
            let ghost semi = if kind == Kind::State && holds(t@, "-->"@) && t@.last() == ';' {
                seq![legibility(path@, n as nat, SEMICOLON@, Seq::empty())]
            } else {
                Seq::<FindingView>::empty()
            };
            if kind == Kind::State && holds_text(&t, "-->") && t[t.len() - 1] == ';' {
                let f = Finding::new(LEGIBILITY, path, SEMICOLON).at_line(n);
                assert(f@ == legibility(path@, n as nat, SEMICOLON@, Seq::empty()));
                push_finding(&mut out, f);
                assert(before.push(legibility(path@, n as nat, SEMICOLON@, Seq::empty())) =~= before + semi);
            } else {
                assert(before + semi =~= before);
            }
            let ghost mid = crate::report::finding_views(out@);
            let found = labels(kind, &t);
            label_check(&mut out, path, n, &found, m);
            assert(mid + label_findings(path@, n as nat, labels_spec(kind, t@), *m) =~= before + (semi + label_findings(
                path@,
                n as nat,
                labels_spec(kind, t@),
                *m,
            )));
        }
        i += 1;
    }
    assert(nv.take(lines.len() as int) =~= nv);
    out
}

/// The order key of a finding: its line, with none first.
pub open spec fn line_key(f: FindingView) -> nat {
    match f.line {
        Some(n) => n + 1,
        None => 0,
    }
}

/// A finding inserted after every one whose line is no later than its own.
pub open spec fn insert_by_line(sorted: Seq<FindingView>, f: FindingView) -> Seq<FindingView>
    decreases sorted.len(),
{
    if sorted.len() == 0 {
        seq![f]
    } else if line_key(sorted.last()) <= line_key(f) {
        sorted.push(f)
    } else {
        insert_by_line(sorted.drop_last(), f).push(sorted.last())
    }
}

/// Findings ordered by line, those on one line kept in the order found.
pub open spec fn sort_by_line(s: Seq<FindingView>) -> Seq<FindingView>
    decreases s.len(),
{
    if s.len() == 0 {
        Seq::empty()
    } else {
        insert_by_line(sort_by_line(s.drop_last()), s.last())
    }
}

proof fn lemma_insert_at(s: Seq<FindingView>, f: FindingView, p: int)
    requires
        0 <= p <= s.len(),
        forall|j: int| p <= j < s.len() ==> line_key(#[trigger] s[j]) > line_key(f),
        p == 0 || line_key(s[p - 1]) <= line_key(f),
    ensures
        insert_by_line(s, f) == s.insert(p, f),
    decreases s.len(),
{
    if s.len() == 0 {
        assert(s.insert(p, f) =~= seq![f]);
    } else if line_key(s.last()) <= line_key(f) {
        assert(p == s.len());
        assert(s.insert(p, f) =~= s.push(f));
    } else {
        assert(p < s.len());
        lemma_insert_at(s.drop_last(), f, p);
        assert(s.drop_last().insert(p, f).push(s.last()) =~= s.insert(p, f));
    }
}

fn key_le(a: &Finding, b: &Finding) -> (r: bool)
    ensures
        r == (line_key(a@) <= line_key(b@)),
{
    match (a.line, b.line) {
        (None, _) => true,
        (Some(_), None) => false,
        (Some(x), Some(y)) => x <= y,
    }
}

/// Findings ordered by line, those on one line kept in the order found.
fn sort_findings(found: Vec<Finding>) -> (r: Vec<Finding>)
    ensures
        crate::report::finding_views(r@) == sort_by_line(crate::report::finding_views(found@)),
{
    let ghost fv = crate::report::finding_views(found@);
    let mut sorted: Vec<Finding> = Vec::new();
    let mut rest = found;
    let ghost mut k: int = 0;
    assert(fv.take(0) =~= Seq::<FindingView>::empty());
    assert(fv.skip(0) =~= fv);
    while rest.len() > 0
        invariant
            0 <= k <= fv.len(),
            crate::report::finding_views(rest@) == fv.skip(k),
            crate::report::finding_views(sorted@) == sort_by_line(fv.take(k)),
        decreases rest.len(),
    {
        let ghost before = crate::report::finding_views(rest@);
        let f = rest.remove(0);
        assert(crate::report::finding_views(rest@) =~= before.drop_first());
        assert(before[0] == f@);
        assert(fv[k] == f@);
        let mut p = sorted.len();
        while p > 0 && !key_le(&sorted[p - 1], &f)
            invariant
                p <= sorted.len(),
                forall|j: int| p <= j < sorted.len() ==> line_key(#[trigger] sorted@[j]@) > line_key(f@),
            decreases p,
        {
            p -= 1;
        }
        let ghost sv = crate::report::finding_views(sorted@);
        proof {
            lemma_insert_at(sv, f@, p as int);
        }
        let ghost fview = f@;
        sorted.insert(p, f);
        assert(crate::report::finding_views(sorted@) =~= sv.insert(p as int, fview));
        proof {
            assert(fv.take(k + 1).drop_last() =~= fv.take(k));
            assert(fv.take(k + 1).last() == fview);
            assert(fv.skip(k).drop_first() =~= fv.skip(k + 1));
            k = k + 1;
        }
    }
    assert(fv.skip(k).len() == 0);
    assert(fv.take(k) =~= fv);
    sorted
}

/// The findings for one diagram, ordered by line.
pub open spec fn inspect_spec(path: Seq<char>, kind: Kind, lines: Seq<(nat, Seq<char>)>, m: Mermaid, pairs: Seq<(Seq<char>, Seq<char>, Seq<char>)>) -> Seq<FindingView> {
    sort_by_line(colors_spec(path, lines, m, pairs) + legibility_spec(path, lines, kind, m))
}

/// Judges one diagram against the palette and the label limits.
pub fn inspect(path: &str, kind: Kind, lines: &Vec<(usize, String)>, m: &Mermaid, pairs: &[Contrast]) -> (r: Vec<Finding>)
    ensures
        crate::report::finding_views(r@) == inspect_spec(path@, kind, numbered(lines@), *m, contrast_views(pairs@)),
{
    let mut found = colors(path, lines, m, pairs);
    let more = legibility_lines(path, lines, kind, m);
    append_findings(&mut found, more);
    sort_findings(found)
}

/// How many diagrams the blocks of a document hold, and what they are
/// found to break: only blocks marked `mermaid` whose declaration this
/// build can read are diagrams.
pub open spec fn block_run(path: Seq<char>, blocks: Seq<(Seq<char>, Seq<(nat, Seq<char>)>)>, m: Mermaid, pairs: Seq<(Seq<char>, Seq<char>, Seq<char>)>) -> (nat, Seq<FindingView>)
    decreases blocks.len(),
{
    if blocks.len() == 0 {
        (0, Seq::empty())
    } else {
        let (count, found) = block_run(path, blocks.drop_last(), m, pairs);
        let (info, lines) = blocks.last();
        if trim_spec(info) == "mermaid"@ {
            match read_from(lines, 0, false, None) {
                Some(kind) => (count + 1, found + inspect_spec(path, kind, lines, m, pairs)),
                None => (count, found),
            }
        } else {
            (count, found)
        }
    }
}

/// The diagrams and findings of a run over documents, in order.
pub open spec fn mermaid_from(documents: Seq<(Seq<char>, Seq<char>)>, m: Mermaid, pairs: Seq<(Seq<char>, Seq<char>, Seq<char>)>) -> (nat, Seq<FindingView>)
    decreases documents.len(),
{
    if documents.len() == 0 {
        (0, Seq::empty())
    } else {
        let (count, found) = mermaid_from(documents.drop_last(), m, pairs);
        let (path, text) = documents.last();
        let (c, f) = block_run(path, crate::markdown::blocks_from(crate::text::lines_spec(text), 0), m, pairs);
        (count + c, found + f)
    }
}

/// Whether a report so far holds nothing but findings.
pub open spec fn only_findings(v: ReportView) -> bool {
    v == ReportView {
        category: "mermaid"@,
        subject: "diagram"@,
        inspected: 0,
        scanned: Seq::empty(),
        notes: Seq::empty(),
        measurements: Seq::empty(),
        findings: v.findings,
        refusal: None,
    }
}

/// The report of a run: every diagram counted, as far as a `usize`
/// reaches, and every finding in document order.
pub open spec fn mermaid_run(documents: Seq<(Seq<char>, Seq<char>)>, m: Mermaid, pairs: Seq<(Seq<char>, Seq<char>, Seq<char>)>) -> ReportView {
    let (count, found) = mermaid_from(documents, m, pairs);
    ReportView {
        category: "mermaid"@,
        subject: "diagram"@,
        inspected: crate::governance::word_budget::capped(count),
        scanned: Seq::empty(),
        notes: Seq::empty(),
        measurements: Seq::empty(),
        findings: found,
        refusal: None,
    }
}

/// Judges every Mermaid diagram in the repository's Markdown. `pairs` are
/// the declared fill and text colours whose contrast falls below the
/// normal-text threshold, each with its ratio as a report prints it.
pub fn validate<T: crate::runtime::Tree>(tree: &T, config: &crate::config::Config, mermaid: &Mermaid, pairs: &[Contrast]) -> (r: Report)
    ensures
        exists|listed: Seq<Seq<char>>, reads: Seq<(Seq<char>, Result<Seq<char>, crate::runtime::TreeFault>)>|
            #[trigger] crate::scan::corpus_of(*tree, *config, listed, reads) && match crate::scan::corpus_spec(reads) {
                Err(reason) => r@ == crate::markdown::naming::refused_view("mermaid"@, reason),
                Ok(documents) => r@ == mermaid_run(documents, *mermaid, contrast_views(pairs@)),
            },
{
    let corpus = match crate::scan::Corpus::read(tree, config) {
        Ok(c) => c,
        Err(reason) => return Report::refused("mermaid", reason.as_str()),
    };
    let documents = corpus.documents();
    let ghost dv = crate::scan::document_views(documents@);
    let ghost pv = contrast_views(pairs@);
    let mut report = Report::new("mermaid", "diagram");
    let mut count: usize = 0;
    let ghost mut total: nat = 0;
    let mut d: usize = 0;
    while d < documents.len()
        invariant
            d <= documents.len(),
            dv == crate::scan::document_views(documents@),
            pv == contrast_views(pairs@),
            mermaid_from(dv.take(d as int), *mermaid, pv) == (total, report@.findings),
            count as nat == crate::governance::word_budget::capped(total),
            only_findings(report@),
        decreases documents.len() - d,
    {
        assert(dv.take(d + 1).drop_last() =~= dv.take(d as int));
        assert(dv.take(d + 1).last() == (documents@[d as int].path@, documents@[d as int].text@));
        let path = documents[d].path.as_str();
        let blocks = crate::markdown::fenced_blocks(documents[d].text.as_str());
        let ghost bv = crate::markdown::fenced_views(blocks@);
        let ghost start_total = total;
        let ghost start_found = report@.findings;
        let mut b: usize = 0;
        while b < blocks.len()
            invariant
                b <= blocks.len(),
                bv == crate::markdown::fenced_views(blocks@),
                pv == contrast_views(pairs@),
                (total, report@.findings) == ((start_total + block_run(path@, bv.take(b as int), *mermaid, pv).0) as nat, start_found
                    + block_run(path@, bv.take(b as int), *mermaid, pv).1),
                count as nat == crate::governance::word_budget::capped(total),
                only_findings(report@),
            decreases blocks.len() - b,
        {
            assert(bv.take(b + 1).drop_last() =~= bv.take(b as int));
            assert(bv.take(b + 1).last() == (blocks@[b as int].info@, crate::markdown::numbered_views(blocks@[b as int].lines@)));
            assert(crate::markdown::numbered_views(blocks@[b as int].lines@) == numbered(blocks@[b as int].lines@));
            let info = trim(&chars_of(blocks[b].info.as_str()));
            if crate::text::is(&info, "mermaid") {
                if let Some(kind) = read(&blocks[b].lines) {
                    let found = inspect(path, kind, &blocks[b].lines, mermaid, pairs);
                    let ghost fv = crate::report::finding_views(found@);
                    let ghost base = report@;
                    let mut found = found;
                    let mut k: usize = 0;
                    let n = found.len();
                    while k < n
                        invariant
                            k <= n,
                            n == fv.len(),
                            crate::report::finding_views(found@) == fv.skip(k as int),
                            report@ == (ReportView { findings: base.findings + fv.take(k as int), ..base }),
                        decreases n - k,
                    {
                        let ghost before = crate::report::finding_views(found@);
                        assert(before.len() == found@.len());
                        assert(fv.skip(k as int).len() == n - k);
                        let f = found.remove(0);
                        assert(crate::report::finding_views(found@) =~= before.drop_first());
                        assert(fv.skip(k as int).drop_first() =~= fv.skip(k + 1));
                        assert(before[0] == f@);
                        assert(fv.skip(k as int)[0] == fv[k as int]);
                        let ghost fview = f@;
                        let ghost prior = report@;
                        report.found(f);
                        assert(report@.findings == prior.findings.push(fview));
                        assert((base.findings + fv.take(k as int)).push(fview) =~= base.findings + fv.take(k + 1));
                        k += 1;
                    }
                    assert(fv.take(n as int) =~= fv);
                    count = count.saturating_add(1);
                    proof {
                        total = total + 1;
                    }
                }
            }
            b += 1;
        }
        assert(bv.take(blocks.len() as int) =~= bv);
        d += 1;
    }
    assert(dv.take(documents.len() as int) =~= dv);
    report.inspected(count);
    report
}

} // verus!
