//! Canonical metadata validation.
//!
//! Four schemas -- governance, workflow, skill, agent -- selected by the
//! artifact's path. The repository declares which of its trees carry which
//! schema; the schemas themselves are the shared contract.
//!
//! The front matter is read here rather than decoded: a YAML decoder discards
//! one of two duplicate keys, forgets which line a key was on, and cannot tell
//! a folded scalar from a plain one -- and all three are things this contract
//! has a rule about.
use crate::text::{
    chars_of, extend, extend_str, is_ws, join_spec, lines_spec, string_of, trim_end_spec, trim_spec,
    views,
};
use crate::config::{Config, Metadata, MetadataSchema, MetadataSurface};
use crate::markdown::naming::{kebab_spec, stem_of};
use crate::report::{Finding, FindingView, Report, ReportView};
use crate::text::{decimal_spec, split_spec};
use vstd::prelude::*;

verus! {

/// How a scalar was written.
#[derive(Debug, Clone, Copy, PartialEq, Eq, Structural)]
pub enum Form {
    Plain,
    Folded,
    Literal,
}

/// A declared value, kept in the form it was written in.
#[derive(Debug)]
pub enum Value {
    Scalar { text: String, form: Form },
    List(Vec<(usize, String)>),
    Empty,
    Null,
}

/// One declared key, and the line a reader will find it on.
#[derive(Debug)]
pub struct Entry {
    pub line: usize,
    pub key: String,
    pub value: Value,
}

/// What the head of a document holds.
#[derive(Debug)]
pub enum Head {
    Missing,
    /// A block that opened and never closed.
    Unterminated,
    /// The declarations found, and the lines inside the block that declared
    /// nothing at all.
    Entries(Vec<Entry>, Vec<usize>),
}

pub ghost enum ValueView {
    Scalar(Seq<char>, Form),
    List(Seq<(nat, Seq<char>)>),
    Empty,
    Null,
}

pub ghost struct EntryView {
    pub line: nat,
    pub key: Seq<char>,
    pub value: ValueView,
}

pub ghost enum HeadView {
    Missing,
    Unterminated,
    Entries(Seq<EntryView>, Seq<nat>),
}

pub open spec fn items_view(items: Seq<(usize, String)>) -> Seq<(nat, Seq<char>)> {
    Seq::new(items.len(), |i: int| (items[i].0 as nat, items[i].1@))
}

impl View for Value {
    type V = ValueView;

    open spec fn view(&self) -> ValueView {
        match self {
            Value::Scalar { text, form } => ValueView::Scalar(text@, *form),
            Value::List(items) => ValueView::List(items_view(items@)),
            Value::Empty => ValueView::Empty,
            Value::Null => ValueView::Null,
        }
    }
}

impl View for Entry {
    type V = EntryView;

    open spec fn view(&self) -> EntryView {
        EntryView { line: self.line as nat, key: self.key@, value: self.value@ }
    }
}

pub open spec fn entry_views(es: Seq<Entry>) -> Seq<EntryView> {
    Seq::new(es.len(), |i: int| es[i]@)
}

pub open spec fn nat_views(s: Seq<usize>) -> Seq<nat> {
    Seq::new(s.len(), |i: int| s[i] as nat)
}

impl View for Head {
    type V = HeadView;

    open spec fn view(&self) -> HeadView {
        match self {
            Head::Missing => HeadView::Missing,
            Head::Unterminated => HeadView::Unterminated,
            Head::Entries(es, m) => HeadView::Entries(entry_views(es@), nat_views(m@)),
        }
    }
}

/// Whether a line is the `---` that opens or closes a block.
pub open spec fn is_fence(line: Seq<char>) -> bool {
    trim_end_spec(line) == "---"@
}

/// The first fence at or after line `i`.
pub open spec fn fence_from(ls: Seq<Seq<char>>, i: nat) -> Option<nat>
    decreases ls.len() - i,
{
    if i >= ls.len() {
        None
    } else if is_fence(ls[i as int]) {
        Some(i)
    } else {
        fence_from(ls, i + 1)
    }
}

/// Whether a line holds nothing but whitespace.
pub open spec fn blank(line: Seq<char>) -> bool {
    trim_spec(line).len() == 0
}

/// The line the front-matter block opens on, or line 1.
pub open spec fn block_line_spec(text: Seq<char>) -> nat {
    match fence_from(lines_spec(text), 0) {
        Some(i) => i + 1,
        None => 1,
    }
}

/// `s` without the quotes around it, when it is wrapped in a matching pair
/// of double or single quotes.
pub open spec fn unquote_spec(s: Seq<char>) -> Seq<char> {
    if s.len() >= 2 && s[0] == '"' && s.last() == '"' {
        s.subrange(1, s.len() - 1)
    } else if s.len() >= 2 && s[0] == '\'' && s.last() == '\'' {
        s.subrange(1, s.len() - 1)
    } else {
        s
    }
}

/// Whether a line opens with whitespace.
pub open spec fn indented_line(line: Seq<char>) -> bool {
    line.len() > 0 && is_ws(line[0])
}

/// Where the indented block beneath a block scalar ends.
pub open spec fn indented_end(body: Seq<Seq<char>>, i: nat) -> nat
    decreases body.len() - i,
{
    if i >= body.len() {
        i
    } else if !indented_line(body[i as int]) && !blank(body[i as int]) {
        i
    } else {
        indented_end(body, i + 1)
    }
}

/// The indented block beneath a block scalar, joined the way a reader reads
/// it.
pub open spec fn indented_text(body: Seq<Seq<char>>, from: nat) -> Seq<char> {
    let end = indented_end(body, from);
    trim_spec(join_spec(Seq::new((end - from) as nat, |k: int| trim_spec(body[from + k])), " "@))
}

/// Whether a line is a `- ` member of a list.
pub open spec fn member_line(line: Seq<char>) -> bool {
    !blank(line) && "- "@.is_prefix_of(trim_spec(line))
}

/// Where the `- ` members beneath a key end.
pub open spec fn members_end(body: Seq<Seq<char>>, i: nat) -> nat
    decreases body.len() - i,
{
    if i >= body.len() || !member_line(body[i as int]) {
        i
    } else {
        members_end(body, i + 1)
    }
}

/// The `- ` members beneath a key, with the line each was written on.
pub open spec fn members_items(body: Seq<Seq<char>>, from: nat, offset: nat) -> Seq<(nat, Seq<char>)> {
    let end = members_end(body, from);
    Seq::new(
        (end - from) as nat,
        |k: int| ((offset + from + k) as nat, unquote_spec(trim_spec(trim_spec(body[from + k]).skip(2)))),
    )
}

/// The block scalar a value opens, if it opens one.
pub open spec fn block_form_spec(rest: Seq<char>) -> Option<Form> {
    if rest.len() > 0 && rest[0] == '>' {
        Some(Form::Folded)
    } else if rest.len() > 0 && rest[0] == '|' {
        Some(Form::Literal)
    } else {
        None
    }
}

/// What a declaration's value is, and where reading resumes: a block
/// scalar's indented text, a list of members or nothing after an empty
/// value, `null` or `~`, `[]`, an empty quoted string, or a plain scalar.
pub open spec fn value_at(body: Seq<Seq<char>>, next: nat, offset: nat, rest: Seq<char>) -> (ValueView, nat) {
    match block_form_spec(rest) {
        Some(form) => (ValueView::Scalar(indented_text(body, next), form), indented_end(body, next)),
        None => if rest.len() == 0 {
            if members_end(body, next) == next {
                (ValueView::Empty, next)
            } else {
                (ValueView::List(members_items(body, next, offset)), members_end(body, next))
            }
        } else if rest == "null"@ || rest == "~"@ {
            (ValueView::Null, next)
        } else if rest == "[]"@ {
            (ValueView::List(Seq::empty()), next)
        } else if rest == "''"@ || rest == "\"\""@ {
            (ValueView::Empty, next)
        } else {
            (ValueView::Scalar(unquote_spec(rest), Form::Plain), next)
        },
    }
}

/// Whether a line declares a key: it opens with neither whitespace nor `-`,
/// and holds a `:`.
pub open spec fn declares(raw: Seq<char>) -> bool {
    !indented_line(raw) && !(raw.len() > 0 && raw[0] == '-') && crate::text::find_from(raw, seq![':'], 0) is Some
}

/// The declarations and orphan lines of a block body from line `index` on.
pub open spec fn parse_body(body: Seq<Seq<char>>, index: nat, offset: nat) -> (Seq<EntryView>, Seq<nat>)
    decreases body.len() - index,
{
    if index >= body.len() {
        (Seq::empty(), Seq::empty())
    } else {
        let raw = body[index as int];
        if blank(raw) {
            parse_body(body, index + 1, offset)
        } else if !declares(raw) {
            let later = parse_body(body, index + 1, offset);
            (later.0, seq![offset + index] + later.1)
        } else {
            let colon = crate::text::find_from(raw, seq![':'], 0)->0;
            let key = trim_spec(raw.take(colon as int));
            let rest = trim_spec(raw.skip((colon + 1) as int));
            let (value, next) = value_at(body, index + 1, offset, rest);
            let later = if index < next && next <= body.len() {
                parse_body(body, next, offset)
            } else {
                (Seq::empty(), Seq::empty())
            };
            (seq![EntryView { line: offset + index, key, value }] + later.0, later.1)
        }
    }
}

/// What the head of a document holds: nothing unless a `---` opens it after
/// nothing but blank lines; an unterminated block when nothing closes it; and
/// otherwise the declarations between the two fences.
pub open spec fn read_spec(text: Seq<char>) -> HeadView {
    let ls = lines_spec(text);
    match fence_from(ls, 0) {
        None => HeadView::Missing,
        Some(open) => if exists|j: int| 0 <= j < open && !blank(#[trigger] ls[j]) {
            HeadView::Missing
        } else {
            match fence_from(ls, open + 1) {
                None => HeadView::Unterminated,
                Some(close) => {
                    let (es, m) = parse_body(ls.subrange((open + 1) as int, close as int), 0, open + 2);
                    HeadView::Entries(es, m)
                },
            }
        },
    }
}

fn fence_line(line: &Vec<char>) -> (r: bool)
    ensures
        r == is_fence(line@),
{
    crate::text::is(&crate::text::trim_end(line), "---")
}

fn blank_line(line: &Vec<char>) -> (r: bool)
    ensures
        r == blank(line@),
{
    crate::text::trim(line).len() == 0
}

fn fence_index(ls: &Vec<Vec<char>>, from: usize) -> (r: Option<usize>)
    requires
        from <= ls.len(),
    ensures
        match r {
            Some(i) => from <= i < ls.len() && fence_from(views(ls@), from as nat) == Some(i as nat),
            None => fence_from(views(ls@), from as nat) is None,
        },
{
    let ghost lv = views(ls@);
    let mut i: usize = from;
    while i < ls.len()
        invariant
            from <= i <= ls.len(),
            lv == views(ls@),
            fence_from(lv, from as nat) == fence_from(lv, i as nat),
        decreases ls.len() - i,
    {
        assert(lv[i as int] == ls@[i as int]@);
        if fence_line(&ls[i]) {
            return Some(i);
        }
        i += 1;
    }
    None
}

fn unquote(s: &Vec<char>) -> (r: Vec<char>)
    ensures
        r@ == unquote_spec(s@),
{
    let n = s.len();
    if n >= 2 && s[0] == '"' && s[n - 1] == '"' {
        crate::text::slice(s, 1, n - 1)
    } else if n >= 2 && s[0] == '\'' && s[n - 1] == '\'' {
        crate::text::slice(s, 1, n - 1)
    } else {
        s.clone()
    }
}

fn starts_indented(line: &Vec<char>) -> (r: bool)
    ensures
        r == indented_line(line@),
{
    line.len() > 0 && crate::text::is_whitespace(line[0])
}

/// The indented block beneath a block scalar, and where it ends.
fn indented(body: &Vec<Vec<char>>, from: usize) -> (r: (String, usize))
    requires
        from <= body.len(),
    ensures
        r.0@ == indented_text(views(body@), from as nat),
        r.1 as nat == indented_end(views(body@), from as nat),
        from <= r.1 <= body.len(),
{
    let ghost bv = views(body@);
    let mut collected: Vec<Vec<char>> = Vec::new();
    let mut i: usize = from;
    while i < body.len()
        invariant
            from <= i <= body.len(),
            bv == views(body@),
            indented_end(bv, from as nat) == indented_end(bv, i as nat),
            views(collected@) == Seq::new((i - from) as nat, |k: int| trim_spec(bv[from + k])),
        ensures
            from <= i <= body.len(),
            indented_end(bv, from as nat) == i as nat,
            views(collected@) == Seq::new((i - from) as nat, |k: int| trim_spec(bv[from + k])),
        decreases body.len() - i,
    {
        let line = &body[i];
        assert(bv[i as int] == line@);
        if !starts_indented(line) && !blank_line(line) {
            break;
        }
        let t = crate::text::trim(line);
        let ghost before = views(collected@);
        collected.push(t);
        assert(views(collected@) =~= before.push(t@));
        i += 1;
        assert(views(collected@) =~= Seq::new((i - from) as nat, |k: int| trim_spec(bv[from + k])));
    }
    let joined = crate::text::join(&collected, &chars_of(" "));
    (string_of(&crate::text::trim(&joined)), i)
}

/// The `- ` members beneath a key, with the line each was written on, and
/// where they end.
fn members(body: &Vec<Vec<char>>, from: usize, offset: usize) -> (r: (Vec<(usize, String)>, usize))
    requires
        from <= body.len(),
        offset + body.len() <= usize::MAX,
    ensures
        items_view(r.0@) == members_items(views(body@), from as nat, offset as nat),
        r.1 as nat == members_end(views(body@), from as nat),
        from <= r.1 <= body.len(),
{
    let ghost bv = views(body@);
    let mut items: Vec<(usize, String)> = Vec::new();
    let mut i: usize = from;
    while i < body.len()
        invariant
            from <= i <= body.len(),
            offset + body.len() <= usize::MAX,
            bv == views(body@),
            members_end(bv, from as nat) == members_end(bv, i as nat),
            items_view(items@) == Seq::new(
                (i - from) as nat,
                |k: int| ((offset + from + k) as nat, unquote_spec(trim_spec(trim_spec(bv[from + k]).skip(2)))),
            ),
        ensures
            from <= i <= body.len(),
            members_end(bv, from as nat) == i as nat,
            items_view(items@) == Seq::new(
                (i - from) as nat,
                |k: int| ((offset + from + k) as nat, unquote_spec(trim_spec(trim_spec(bv[from + k]).skip(2)))),
            ),
        decreases body.len() - i,
    {
        let line = &body[i];
        assert(bv[i as int] == line@);
        let trimmed = crate::text::trim(line);
        if trimmed.len() == 0 || !crate::text::starts_with_str(&trimmed, "- ") {
            break;
        }
        proof {
            reveal_strlit("- ");
        }
        let member = crate::text::slice(&trimmed, 2, trimmed.len());
        assert(member@ =~= trimmed@.skip(2));
        let value = unquote(&crate::text::trim(&member));
        let s = string_of(&value);
        let ghost before = items_view(items@);
        items.push((offset + i, s));
        assert(items_view(items@) =~= before.push(((offset + i) as nat, s@)));
        i += 1;
        assert(items_view(items@) =~= Seq::new(
            (i - from) as nat,
            |k: int| ((offset + from + k) as nat, unquote_spec(trim_spec(trim_spec(bv[from + k]).skip(2)))),
        ));
    }
    (items, i)
}

fn colon_index(raw: &Vec<char>) -> (r: Option<usize>)
    ensures
        match r {
            Some(k) => k < raw.len() && crate::text::find_from(raw@, seq![':'], 0) == Some(k as nat),
            None => crate::text::find_from(raw@, seq![':'], 0) is None,
        },
{
    let mut p: Vec<char> = Vec::new();
    p.push(':');
    assert(p@ =~= seq![':']);
    crate::text::find(raw, &p)
}

/// The declarations and orphan lines of a block body.
fn parse_block(body: &Vec<Vec<char>>, offset: usize) -> (r: (Vec<Entry>, Vec<usize>))
    requires
        offset + body.len() <= usize::MAX,
    ensures
        (entry_views(r.0@), nat_views(r.1@)) == parse_body(views(body@), 0, offset as nat),
{
    let ghost bv = views(body@);
    let mut entries: Vec<Entry> = Vec::new();
    let mut malformed: Vec<usize> = Vec::new();
    let mut index: usize = 0;
    while index < body.len()
        invariant
            index <= body.len(),
            offset + body.len() <= usize::MAX,
            bv == views(body@),
            parse_body(bv, 0, offset as nat) == (
                entry_views(entries@) + parse_body(bv, index as nat, offset as nat).0,
                nat_views(malformed@) + parse_body(bv, index as nat, offset as nat).1,
            ),
        decreases body.len() - index,
    {
        let raw = &body[index];
        assert(bv[index as int] == raw@);
        let ghost later_e = parse_body(bv, (index + 1) as nat, offset as nat);
        if blank_line(raw) {
            index += 1;
            continue;
        }
        let colon = colon_index(raw);
        if starts_indented(raw) || (raw.len() > 0 && raw[0] == '-') || colon.is_none() {
            let ghost before = nat_views(malformed@);
            malformed.push(offset + index);
            assert(nat_views(malformed@) =~= before.push((offset + index) as nat));
            assert(before + (seq![(offset + index) as nat] + later_e.1) =~= before.push((offset + index) as nat) + later_e.1);
            index += 1;
            continue;
        }
        let c = match colon {
            Some(c) => c,
            None => 0,
        };
        let key_part = crate::text::slice(raw, 0, c);
        let rest_part = crate::text::slice(raw, c + 1, raw.len());
        assert(key_part@ =~= raw@.take(c as int));
        assert(rest_part@ =~= raw@.skip(c + 1));
        let key = crate::text::trim(&key_part);
        let rest = crate::text::trim(&rest_part);
        let line = offset + index;
        let next_line = index + 1;
        let (value, next) = if rest.len() > 0 && (rest[0] == '>' || rest[0] == '|') {
            let form = if rest[0] == '>' {
                Form::Folded
            } else {
                Form::Literal
            };
            let (text, next) = indented(body, next_line);
            (Value::Scalar { text, form }, next)
        } else if rest.len() == 0 {
            let (items, next) = members(body, next_line, offset);
            if next == next_line {
                (Value::Empty, next_line)
            } else {
                (Value::List(items), next)
            }
        } else if crate::text::is(&rest, "null") || crate::text::is(&rest, "~") {
            (Value::Null, next_line)
        } else if crate::text::is(&rest, "[]") {
            (Value::List(Vec::new()), next_line)
        } else if crate::text::is(&rest, "''") || crate::text::is(&rest, "\"\"") {
            (Value::Empty, next_line)
        } else {
            (Value::Scalar { text: string_of(&unquote(&rest)), form: Form::Plain }, next_line)
        };
        proof {
            let expect = value_at(bv, next_line as nat, offset as nat, rest@);
            assert(items_view(Seq::<(usize, String)>::empty()) =~= Seq::empty());
            assert(value@ == expect.0);
            assert(next as nat == expect.1);
        }
        let entry = Entry { line, key: string_of(&key), value };
        let ghost ev = entry@;
        let ghost before = entry_views(entries@);
        let ghost later = parse_body(bv, next as nat, offset as nat);
        entries.push(entry);
        assert(entry_views(entries@) =~= before.push(ev));
        assert(before + (seq![ev] + later.0) =~= before.push(ev) + later.0);
        index = next;
    }
    assert(entry_views(entries@) + Seq::<EntryView>::empty() =~= entry_views(entries@));
    assert(nat_views(malformed@) + Seq::<nat>::empty() =~= nat_views(malformed@));
    (entries, malformed)
}

fn sub_lines(ls: &Vec<Vec<char>>, lo: usize, hi: usize) -> (r: Vec<Vec<char>>)
    requires
        lo <= hi <= ls.len(),
    ensures
        views(r@) == views(ls@).subrange(lo as int, hi as int),
{
    let mut r: Vec<Vec<char>> = Vec::new();
    let mut i: usize = lo;
    while i < hi
        invariant
            lo <= i <= hi <= ls.len(),
            views(r@) == views(ls@).subrange(lo as int, i as int),
        decreases hi - i,
    {
        let c = ls[i].clone();
        let ghost before = views(r@);
        r.push(c);
        assert(views(r@) =~= before.push(c@));
        i += 1;
        assert(views(r@) =~= views(ls@).subrange(lo as int, i as int));
    }
    r
}

/// Reads the front matter of a document.
pub fn read(text: &str) -> (r: Head)
    ensures
        r@ == read_spec(text@),
{
    let ls = crate::text::lines(&chars_of(text));
    let ghost lv = views(ls@);
    let open = match fence_index(&ls, 0) {
        None => return Head::Missing,
        Some(o) => o,
    };
    let mut j: usize = 0;
    while j < open
        invariant
            j <= open < ls.len(),
            lv == views(ls@),
            lv == lines_spec(text@),
            fence_from(lv, 0) == Some(open as nat),
            forall|k: int| 0 <= k < j ==> blank(#[trigger] lv[k]),
        decreases open - j,
    {
        if !blank_line(&ls[j]) {
            assert(!blank(lv[j as int]));
            return Head::Missing;
        }
        j += 1;
    }
    let close = match fence_index(&ls, open + 1) {
        None => return Head::Unterminated,
        Some(c) => c,
    };
    let body = sub_lines(&ls, open + 1, close);
    let (entries, malformed) = parse_block(&body, open + 2);
    Head::Entries(entries, malformed)
}

/// The line the front-matter block opens on, which is where a key that is
/// not there is reported.
pub fn block_line(text: &str) -> (r: usize)
    ensures
        r as nat == block_line_spec(text@),
{
    let ls = crate::text::lines(&chars_of(text));
    match fence_index(&ls, 0) {
        Some(i) => i + 1,
        None => 1,
    }
}

/// A family's keys in canonical order, required before optional.
pub open spec fn required_keys(kind: MetadataSchema) -> Seq<Seq<char>> {
    match kind {
        MetadataSchema::Governance => seq!["description"@, "when_to_use"@],
        MetadataSchema::Workflow => seq!["name"@, "description"@, "when_to_use"@],
        MetadataSchema::Skill => seq!["name"@, "description"@, "when_to_use"@],
        MetadataSchema::Agent => seq!["name"@, "description"@, "when_to_use"@, "tier"@, "capabilities"@],
    }
}

pub open spec fn optional_keys(kind: MetadataSchema) -> Seq<Seq<char>> {
    match kind {
        MetadataSchema::Governance => Seq::empty(),
        MetadataSchema::Workflow => Seq::empty(),
        MetadataSchema::Skill => seq!["compatibility"@],
        MetadataSchema::Agent => seq!["skills"@, "constraints"@],
    }
}

/// Where a key stands in its family's canonical order.
pub open spec fn position(kind: MetadataSchema, key: Seq<char>) -> Option<nat> {
    index_in(required_keys(kind) + optional_keys(kind), key)
}

/// The first index at which a list holds a text.
pub open spec fn index_in(list: Seq<Seq<char>>, key: Seq<char>) -> Option<nat>
    decreases list.len(),
{
    if list.len() == 0 {
        None
    } else if list[0] == key {
        Some(0)
    } else {
        match index_in(list.drop_first(), key) {
            Some(k) => Some(k + 1),
            None => None,
        }
    }
}

/// The portable capability vocabulary, in its canonical order.
pub open spec fn capabilities() -> Seq<Seq<char>> {
    seq!["repository-read"@, "repository-write"@, "shell"@, "network"@, "subagent"@]
}

/// The keys whose value is a list.
pub open spec fn list_keys() -> Seq<Seq<char>> {
    seq!["capabilities"@, "skills"@, "constraints"@]
}

/// A finding placed at a line and about a key.
pub open spec fn keyed(kind: Seq<char>, path: Seq<char>, message: Seq<char>, line: nat, key: Seq<char>) -> FindingView {
    FindingView {
        kind,
        path,
        line: Some(line),
        column: Some(1),
        field: Some(key),
        message,
        details: Seq::empty(),
    }
}

/// A finding placed at a line.
pub open spec fn placed(kind: Seq<char>, path: Seq<char>, message: Seq<char>, line: nat) -> FindingView {
    FindingView { kind, path, line: Some(line), column: Some(1), field: None, message, details: Seq::empty() }
}

pub open spec fn has_key(es: Seq<EntryView>, key: Seq<char>) -> bool {
    exists|i: int| 0 <= i < es.len() && (#[trigger] es[i]).key == key
}

/// The line of the first entry with a key.
pub open spec fn first_line(es: Seq<EntryView>, key: Seq<char>) -> nat
    decreases es.len(),
{
    if es.len() == 0 {
        0
    } else if es[0].key == key {
        es[0].line
    } else {
        first_line(es.drop_first(), key)
    }
}

/// The first declaration of each key, in order.
pub open spec fn kept(es: Seq<EntryView>) -> Seq<EntryView>
    decreases es.len(),
{
    if es.len() == 0 {
        Seq::empty()
    } else {
        let k = kept(es.drop_last());
        if has_key(k, es.last().key) {
            k
        } else {
            k.push(es.last())
        }
    }
}

pub open spec fn duplicate_message(first: nat) -> Seq<char> {
    "is declared again, and a decoder would silently keep one of the two (first at line "@ + decimal_spec(first)
        + ")"@
}

pub open spec fn unknown_message() -> Seq<char> {
    "is not a key this artifact's schema declares; the path already supplies every identity the schema omits"@
}

/// A repeated key, and a key the schema does not declare, for each entry.
pub open spec fn key_findings(path: Seq<char>, es: Seq<EntryView>, kind: MetadataSchema) -> Seq<FindingView>
    decreases es.len(),
{
    if es.len() == 0 {
        Seq::empty()
    } else {
        let prev = key_findings(path, es.drop_last(), kind);
        let k = kept(es.drop_last());
        let e = es.last();
        if has_key(k, e.key) {
            prev.push(keyed("metadata-duplicate-key"@, path, duplicate_message(first_line(k, e.key)), e.line, e.key))
        } else if position(kind, e.key) is None {
            prev.push(keyed("metadata-unknown-key"@, path, unknown_message(), e.line, e.key))
        } else {
            prev
        }
    }
}

/// The first key that appears after a key the schema puts later.
pub open spec fn order_from(path: Seq<char>, seen: Seq<EntryView>, kind: MetadataSchema, i: nat, highest: nat) -> Seq<FindingView>
    decreases seen.len() - i,
{
    if i >= seen.len() {
        Seq::empty()
    } else {
        match position(kind, seen[i as int].key) {
            None => order_from(path, seen, kind, i + 1, highest),
            Some(p) => if p < highest {
                seq![keyed(
                    "metadata-key-order"@,
                    path,
                    "appears after a key the schema orders later; canonical key order is hard-failing"@,
                    seen[i as int].line,
                    seen[i as int].key,
                )]
            } else {
                order_from(path, seen, kind, i + 1, p)
            },
        }
    }
}

/// Each required key no entry declares, at the block's line.
pub open spec fn missing_from(path: Seq<char>, block: nat, seen: Seq<EntryView>, required: Seq<Seq<char>>) -> Seq<FindingView>
    decreases required.len(),
{
    if required.len() == 0 {
        Seq::empty()
    } else {
        let prev = missing_from(path, block, seen, required.drop_last());
        if has_key(seen, required.last()) {
            prev
        } else {
            prev.push(keyed(
                "metadata-required-key-missing"@,
                path,
                "is required by this artifact's schema and is not declared"@,
                block,
                required.last(),
            ))
        }
    }
}

/// The whitespace-separated words of a text.
pub open spec fn words(s: Seq<char>) -> Seq<Seq<char>>
    decreases s.len(),
{
    if s.len() == 0 {
        Seq::empty()
    } else {
        let w = words(s.drop_last());
        let c = s.last();
        if is_ws(c) {
            w
        } else if s.len() >= 2 && !is_ws(s[s.len() - 2]) && w.len() > 0 {
            w.update(w.len() - 1, w.last().push(c))
        } else {
            w.push(seq![c])
        }
    }
}

/// Whitespace collapsed and trimmed.
pub open spec fn normalize_spec(s: Seq<char>) -> Seq<char> {
    join_spec(words(s), " "@)
}

/// Whether a character ends a sentence.
pub open spec fn terminator(c: char) -> bool {
    c == '.' || c == '!' || c == '?'
}

/// The pieces between sentence terminators.
pub open spec fn pieces(s: Seq<char>) -> Seq<Seq<char>>
    decreases s.len(),
{
    if s.len() == 0 {
        seq![Seq::<char>::empty()]
    } else {
        let prev = pieces(s.drop_last());
        if terminator(s.last()) {
            prev.push(Seq::<char>::empty())
        } else {
            prev.update(prev.len() - 1, prev.last().push(s.last()))
        }
    }
}

/// How many pieces hold more than whitespace.
pub open spec fn nonblank_count(ps: Seq<Seq<char>>) -> nat
    decreases ps.len(),
{
    if ps.len() == 0 {
        0
    } else {
        nonblank_count(ps.drop_last()) + if blank(ps.last()) {
            0nat
        } else {
            1nat
        }
    }
}

/// How many sentences a text carries, and at least one when it holds
/// anything.
pub open spec fn sentences_spec(s: Seq<char>) -> nat {
    let n = nonblank_count(pieces(s));
    if n == 0 && !blank(s) {
        1
    } else {
        n
    }
}

/// Whether two texts agree, ignoring ASCII case.
pub open spec fn same_ignoring_case(a: Seq<char>, b: Seq<char>) -> bool {
    a.len() == b.len() && forall|i: int| 0 <= i < a.len() ==> crate::text::ascii_lower(#[trigger] a[i]) == crate::text::ascii_lower(b[i])
}

/// The identity a path already states: a skill's directory, a workflow
/// index's directory, and otherwise the file's stem.
pub open spec fn identity_spec(path: Seq<char>, kind: MetadataSchema) -> Option<Seq<char>> {
    let segs = split_spec(path, '/');
    let file = segs.last();
    let parent = if segs.len() >= 2 {
        Some(segs[segs.len() - 2])
    } else {
        None
    };
    match kind {
        MetadataSchema::Skill => parent,
        MetadataSchema::Workflow => if same_ignoring_case(file, crate::scan::README@) {
            parent
        } else {
            Some(stem_of(file))
        },
        _ => Some(stem_of(file)),
    }
}

pub open spec fn length_findings(path: Seq<char>, e: EntryView, normalized: Seq<char>, kind: Seq<char>, low: nat, high: nat) -> Seq<FindingView> {
    let counted = normalized.len();
    if low <= counted && counted <= high {
        Seq::empty()
    } else {
        seq![keyed(
            kind,
            path,
            "is "@ + decimal_spec(counted) + " characters; this field holds "@ + decimal_spec(low) + " through "@
                + decimal_spec(high),
            e.line,
            e.key,
        )]
    }
}

/// The findings for one declared list's members.
pub open spec fn array_from(path: Seq<char>, e: EntryView, items: Seq<(nat, Seq<char>)>, i: nat, seen: Seq<Seq<char>>, highest: nat) -> Seq<FindingView>
    decreases items.len() - i,
{
    if i >= items.len() {
        Seq::empty()
    } else {
        let (line, m) = items[i as int];
        if seen.contains(m) {
            seq![keyed(
                "metadata-array-duplicate"@,
                path,
                "lists `"@ + m + "` twice, and the second says nothing the first did not"@,
                line,
                e.key,
            )] + array_from(path, e, items, i + 1, seen, highest)
        } else if e.key != "capabilities"@ {
            array_from(path, e, items, i + 1, seen.push(m), highest)
        } else {
            match index_in(capabilities(), m) {
                None => seq![keyed(
                    "metadata-capability-unknown"@,
                    path,
                    "lists `"@ + m
                        + "`, which is not in the portable capability vocabulary; harness tool names are not portable"@,
                    line,
                    e.key,
                )] + array_from(path, e, items, i + 1, seen.push(m), highest),
                Some(p) => if p < highest {
                    seq![keyed(
                        "metadata-array-order"@,
                        path,
                        "lists `"@ + m + "` after a capability the vocabulary orders later"@,
                        line,
                        e.key,
                    )] + array_from(path, e, items, i + 1, seen.push(m), highest)
                } else {
                    array_from(path, e, items, i + 1, seen.push(m), p)
                },
            }
        }
    }
}

/// The rules every declared list shares, plus the capability vocabulary and
/// its order.
pub open spec fn array_findings(path: Seq<char>, e: EntryView) -> Seq<FindingView> {
    match e.value {
        ValueView::List(items) => if items.len() == 0 {
            seq![keyed(
                "metadata-array-empty"@,
                path,
                "is declared with no members, which is an absent answer written as a present key"@,
                e.line,
                e.key,
            )]
        } else {
            array_from(path, e, items, 0, Seq::empty(), 0)
        },
        _ => seq![keyed("metadata-array-required"@, path, "is declared as a scalar; this key holds a list"@, e.line, e.key)],
    }
}

/// The value rules for one entry, and the description as it stands after
/// it.
pub open spec fn entry_values(path: Seq<char>, e: EntryView, kind: MetadataSchema, description: Option<Seq<char>>) -> (Seq<FindingView>, Option<Seq<char>>) {
    match e.value {
        ValueView::Null => (
            seq![keyed(
                "metadata-null-value"@,
                path,
                "is declared as null, which is a key with no answer rather than an answer"@,
                e.line,
                e.key,
            )],
            description,
        ),
        ValueView::Empty => (
            seq![keyed(
                "metadata-empty-value"@,
                path,
                "is declared with no value; an omitted key and an empty one have to stay different things"@,
                e.line,
                e.key,
            )],
            description,
        ),
        ValueView::List(_) => if list_keys().contains(e.key) {
            (array_findings(path, e), description)
        } else {
            (seq![keyed("metadata-scalar-required"@, path, "is declared as a list; this key holds one value"@, e.line, e.key)], description)
        },
        ValueView::Scalar(text, form) => if list_keys().contains(e.key) {
            (array_findings(path, e), description)
        } else {
            let n = normalize_spec(text);
            if e.key == "description"@ {
                (
                    (if form == Form::Literal {
                        seq![keyed(
                            "metadata-description-form"@,
                            path,
                            "is written as a literal block; a description is a plain or folded scalar"@,
                            e.line,
                            e.key,
                        )]
                    } else {
                        Seq::empty()
                    }) + length_findings(path, e, n, "metadata-description-length"@, 20, 300),
                    Some(n),
                )
            } else if e.key == "when_to_use"@ {
                (
                    (if form != Form::Folded {
                        seq![keyed(
                            "metadata-folded-scalar-required"@,
                            path,
                            "has to be written as a folded scalar, so a multi-sentence trigger reads the same in every adapter"@,
                            e.line,
                            e.key,
                        )]
                    } else {
                        Seq::empty()
                    }) + length_findings(path, e, n, "metadata-when-to-use-length"@, 20, 240) + (if sentences_spec(n)
                        > 3 {
                        seq![keyed(
                            "metadata-when-to-use-sentences"@,
                            path,
                            "carries "@ + decimal_spec(sentences_spec(n)) + " sentences; a routing trigger states at most 3"@,
                            e.line,
                            e.key,
                        )]
                    } else {
                        Seq::empty()
                    }) + (if description == Some(n) {
                        seq![keyed(
                            "metadata-routing-not-distinct"@,
                            path,
                            "repeats the description, so it adds no trigger a harness could route on"@,
                            e.line,
                            e.key,
                        )]
                    } else {
                        Seq::empty()
                    }),
                    description,
                )
            } else if e.key == "name"@ {
                (
                    if !kebab_spec(n) {
                        seq![keyed(
                            "metadata-name-format"@,
                            path,
                            "is not lowercase alphanumeric words joined by single hyphens"@,
                            e.line,
                            e.key,
                        )]
                    } else if identity_spec(path, kind) != Some(n) {
                        seq![keyed(
                            "metadata-name-path-mismatch"@,
                            path,
                            "is not the identity its path already states"@,
                            e.line,
                            e.key,
                        )]
                    } else {
                        Seq::empty()
                    },
                    description,
                )
            } else if e.key == "tier"@ {
                (
                    if !crate::config::tiers().contains(n) {
                        seq![keyed(
                            "metadata-tier-unknown"@,
                            path,
                            "is not one of the four portable tiers, which name a normal workload rather than a model"@,
                            e.line,
                            e.key,
                        )]
                    } else {
                        Seq::empty()
                    },
                    description,
                )
            } else {
                (Seq::empty(), description)
            }
        },
    }
}

/// The value rules for the entries from `i` on.
pub open spec fn value_from(path: Seq<char>, seen: Seq<EntryView>, kind: MetadataSchema, i: nat, description: Option<Seq<char>>) -> Seq<FindingView>
    decreases seen.len() - i,
{
    if i >= seen.len() {
        Seq::empty()
    } else {
        let (fs, d) = entry_values(path, seen[i as int], kind, description);
        fs + value_from(path, seen, kind, i + 1, d)
    }
}

pub open spec fn malformed_findings(path: Seq<char>, lines: Seq<nat>) -> Seq<FindingView> {
    Seq::new(
        lines.len(),
        |i: int| placed("metadata-frontmatter-malformed"@, path, "declares no key; every line inside the block is a declaration"@, lines[i]),
    )
}

/// Every rule this contract states, applied to declarations read from a
/// block that opened at `block`.
pub open spec fn rules(path: Seq<char>, kind: MetadataSchema, es: Seq<EntryView>, malformed: Seq<nat>, block: nat) -> Seq<FindingView> {
    let seen = kept(es);
    malformed_findings(path, malformed) + key_findings(path, es, kind) + order_from(path, seen, kind, 0, 0) + missing_from(
        path,
        block,
        seen,
        required_keys(kind),
    ) + value_from(path, seen, kind, 0, None)
}

/// Every rule this contract states, applied to one artifact.
pub open spec fn inspect_spec(path: Seq<char>, text: Seq<char>, kind: MetadataSchema) -> Seq<FindingView> {
    match read_spec(text) {
        HeadView::Unterminated => seq![placed(
            "metadata-frontmatter-unterminated"@,
            path,
            "the front-matter block opens and never closes, so no key in it can be trusted"@,
            1,
        )],
        HeadView::Missing => rules(path, kind, Seq::empty(), Seq::empty(), 1),
        HeadView::Entries(es, m) => rules(path, kind, es, m, block_line_spec(text)),
    }
}

pub open spec fn ref_entry_views(v: Seq<&Entry>) -> Seq<EntryView> {
    Seq::new(v.len(), |i: int| v[i]@)
}

fn keyed_finding(kind: &'static str, path: &str, message: &str, line: usize, key: &str) -> (r: Finding)
    ensures
        r@ == keyed(kind@, path@, message@, line as nat, key@),
{
    Finding::new(kind, path, message).at(line, 1).about(key)
}

fn schema_list(kind: MetadataSchema) -> (r: Vec<&'static str>)
    ensures
        crate::cli::str_views(r@) == required_keys(kind) + optional_keys(kind),
{
    let r = match kind {
        MetadataSchema::Governance => vec!["description", "when_to_use"],
        MetadataSchema::Workflow => vec!["name", "description", "when_to_use"],
        MetadataSchema::Skill => vec!["name", "description", "when_to_use", "compatibility"],
        MetadataSchema::Agent => vec!["name", "description", "when_to_use", "tier", "capabilities", "skills", "constraints"],
    };
    assert(crate::cli::str_views(r@) =~= required_keys(kind) + optional_keys(kind));
    r
}

fn index_of(list: &Vec<&'static str>, key: &Vec<char>) -> (r: Option<usize>)
    ensures
        match r {
            Some(k) => index_in(crate::cli::str_views(list@), key@) == Some(k as nat),
            None => index_in(crate::cli::str_views(list@), key@) is None,
        },
{
    let ghost lv = crate::cli::str_views(list@);
    let mut i: usize = 0;
    assert(lv.skip(0) =~= lv);
    while i < list.len()
        invariant
            i <= list.len(),
            lv == crate::cli::str_views(list@),
            index_in(lv, key@) == match index_in(lv.skip(i as int), key@) {
                Some(k) => Some((k + i) as nat),
                None => None::<nat>,
            },
        decreases list.len() - i,
    {
        assert(lv.skip(i as int)[0] == list@[i as int]@);
        assert(lv.skip(i as int).drop_first() =~= lv.skip(i + 1));
        if crate::text::is(key, list[i]) {
            return Some(i);
        }
        i += 1;
    }
    assert(lv.skip(list.len() as int) =~= Seq::<Seq<char>>::empty());
    None
}

fn position_of(kind: MetadataSchema, key: &Vec<char>) -> (r: Option<usize>)
    ensures
        match r {
            Some(k) => position(kind, key@) == Some(k as nat),
            None => position(kind, key@) is None,
        },
{
    index_of(&schema_list(kind), key)
}

/// The first kept entry with a key.
fn find_key(kept_entries: &Vec<&Entry>, key: &Vec<char>) -> (r: Option<usize>)
    ensures
        match r {
            Some(j) => j < kept_entries.len() && has_key(ref_entry_views(kept_entries@), key@) && first_line(
                ref_entry_views(kept_entries@),
                key@,
            ) == kept_entries@[j as int].line,
            None => !has_key(ref_entry_views(kept_entries@), key@),
        },
{
    let ghost kv = ref_entry_views(kept_entries@);
    let mut j: usize = 0;
    assert(kv.skip(0) =~= kv);
    while j < kept_entries.len()
        invariant
            j <= kept_entries.len(),
            kv == ref_entry_views(kept_entries@),
            first_line(kv, key@) == first_line(kv.skip(j as int), key@),
            forall|a: int| 0 <= a < j ==> (#[trigger] kv[a]).key != key@,
        decreases kept_entries.len() - j,
    {
        assert(kv.skip(j as int)[0] == kv[j as int]);
        assert(kv.skip(j as int).drop_first() =~= kv.skip(j + 1));
        let k = chars_of(kept_entries[j].key.as_str());
        if crate::text::same(&k, key) {
            assert(kv[j as int].key == key@);
            return Some(j);
        }
        j += 1;
    }
    None
}

fn push_all(out: &mut Vec<Finding>, more: Vec<Finding>)
    ensures
        crate::report::finding_views(final(out)@) == crate::report::finding_views(old(out)@) + crate::report::finding_views(more@),
{
    let ghost start = crate::report::finding_views(out@);
    let ghost all = crate::report::finding_views(more@);
    let mut more = more;
    let mut k: usize = 0;
    let n = more.len();
    while k < n
        invariant
            k <= n,
            n == all.len(),
            crate::report::finding_views(more@) == all.skip(k as int),
            crate::report::finding_views(out@) == start + all.take(k as int),
        decreases n - k,
    {
        let ghost prev_more = more@;
        assert(more@.len() == crate::report::finding_views(more@).len());
        assert(crate::report::finding_views(more@)[0] == all[k as int]);
        let f = more.remove(0);
        assert forall|j: int| 0 <= j < more@.len() implies crate::report::finding_views(more@)[j] == all.skip(k + 1)[j] by {
            assert(more@[j] == prev_more[j + 1]);
            assert(crate::report::finding_views(prev_more)[j + 1] == all.skip(k as int)[j + 1]);
        }
        assert(crate::report::finding_views(more@) =~= all.skip(k + 1));
        let ghost before = crate::report::finding_views(out@);
        let ghost fv = f@;
        out.push(f);
        assert(crate::report::finding_views(out@) =~= before.push(fv));
        assert(all.take(k + 1) =~= all.take(k as int).push(all[k as int]));
        k += 1;
    }
    assert(all.take(n as int) =~= all);
}

/// Duplicate and unknown keys, and the first declaration of each key.
fn key_rules<'a>(path: &str, entries: &'a Vec<Entry>, kind: MetadataSchema) -> (r: (Vec<Finding>, Vec<&'a Entry>))
    ensures
        crate::report::finding_views(r.0@) == key_findings(path@, entry_views(entries@), kind),
        ref_entry_views(r.1@) == kept(entry_views(entries@)),
{
    let ghost ev = entry_views(entries@);
    let mut out: Vec<Finding> = Vec::new();
    let mut seen: Vec<&'a Entry> = Vec::new();
    let mut i: usize = 0;
    while i < entries.len()
        invariant
            i <= entries.len(),
            ev == entry_views(entries@),
            crate::report::finding_views(out@) == key_findings(path@, ev.take(i as int), kind),
            ref_entry_views(seen@) == kept(ev.take(i as int)),
        decreases entries.len() - i,
    {
        let e = &entries[i];
        assert(ev.take(i + 1).drop_last() =~= ev.take(i as int));
        assert(ev.take(i + 1).last() == e@);
        let key = chars_of(e.key.as_str());
        let ghost before = crate::report::finding_views(out@);
        match find_key(&seen, &key) {
            Some(j) => {
                let mut m = chars_of("is declared again, and a decoder would silently keep one of the two (first at line ");
                extend(&mut m, &crate::text::decimal(seen[j].line));
                extend_str(&mut m, ")");
                let f = keyed_finding("metadata-duplicate-key", path, string_of(&m).as_str(), e.line, e.key.as_str());
                let ghost fv = f@;
                out.push(f);
                assert(crate::report::finding_views(out@) =~= before.push(fv));
            },
            None => {
                if position_of(kind, &key).is_none() {
                    let f = keyed_finding(
                        "metadata-unknown-key",
                        path,
                        "is not a key this artifact's schema declares; the path already supplies every identity the schema omits",
                        e.line,
                        e.key.as_str(),
                    );
                    let ghost fv = f@;
                    out.push(f);
                    assert(crate::report::finding_views(out@) =~= before.push(fv));
                }
                let ghost kb = ref_entry_views(seen@);
                seen.push(e);
                assert(ref_entry_views(seen@) =~= kb.push(e@));
            },
        }
        i += 1;
    }
    assert(ev.take(entries.len() as int) =~= ev);
    (out, seen)
}

/// The first key that appears after a key the schema puts later.
fn order_rule(path: &str, seen: &Vec<&Entry>, kind: MetadataSchema) -> (r: Vec<Finding>)
    ensures
        crate::report::finding_views(r@) == order_from(path@, ref_entry_views(seen@), kind, 0, 0),
{
    let ghost sv = ref_entry_views(seen@);
    let mut highest: usize = 0;
    let mut i: usize = 0;
    while i < seen.len()
        invariant
            i <= seen.len(),
            sv == ref_entry_views(seen@),
            order_from(path@, sv, kind, 0, 0) == order_from(path@, sv, kind, i as nat, highest as nat),
        decreases seen.len() - i,
    {
        let e = seen[i];
        assert(sv[i as int] == e@);
        let key = chars_of(e.key.as_str());
        match position_of(kind, &key) {
            None => {},
            Some(p) => {
                if p < highest {
                    let mut out: Vec<Finding> = Vec::new();
                    let f = keyed_finding(
                        "metadata-key-order",
                        path,
                        "appears after a key the schema orders later; canonical key order is hard-failing",
                        e.line,
                        e.key.as_str(),
                    );
                    let ghost fv = f@;
                    out.push(f);
                    assert(crate::report::finding_views(out@) =~= seq![fv]);
                    return out;
                }
                highest = p;
            },
        }
        i += 1;
    }
    Vec::new()
}

fn has_entry(seen: &Vec<&Entry>, key: &str) -> (r: bool)
    ensures
        r == has_key(ref_entry_views(seen@), key@),
{
    find_key(seen, &chars_of(key)).is_some()
}

/// Each required key no entry declares.
fn missing_rule(path: &str, block: usize, seen: &Vec<&Entry>, kind: MetadataSchema) -> (r: Vec<Finding>)
    ensures
        crate::report::finding_views(r@) == missing_from(path@, block as nat, ref_entry_views(seen@), required_keys(kind)),
{
    let all = schema_list(kind);
    let n = match kind {
        MetadataSchema::Governance => 2,
        MetadataSchema::Workflow => 3,
        MetadataSchema::Skill => 3,
        MetadataSchema::Agent => 5,
    };
    let ghost req = required_keys(kind);
    assert(all@.len() == crate::cli::str_views(all@).len());
    assert(crate::cli::str_views(all@).take(n as int) =~= req);
    let mut out: Vec<Finding> = Vec::new();
    let mut i: usize = 0;
    while i < n
        invariant
            i <= n,
            n == req.len(),
            n <= all.len(),
            crate::cli::str_views(all@).take(n as int) == req,
            crate::report::finding_views(out@) == missing_from(path@, block as nat, ref_entry_views(seen@), req.take(i as int)),
        decreases n - i,
    {
        let key = all[i];
        assert(req.take(i + 1).drop_last() =~= req.take(i as int));
        assert(req.take(i + 1).last() == key@) by {
            assert(req[i as int] == crate::cli::str_views(all@)[i as int]);
        }
        if !has_entry(seen, key) {
            let f = keyed_finding(
                "metadata-required-key-missing",
                path,
                "is required by this artifact's schema and is not declared",
                block,
                key,
            );
            let ghost before = crate::report::finding_views(out@);
            let ghost fv = f@;
            out.push(f);
            assert(crate::report::finding_views(out@) =~= before.push(fv));
        }
        i += 1;
    }
    assert(req.take(n as int) =~= req);
    out
}

/// Whitespace collapsed and trimmed.
pub fn normalize(text: &str) -> (r: String)
    ensures
        r@ == normalize_spec(text@),
{
    let t = chars_of(text);
    let mut ws: Vec<Vec<char>> = Vec::new();
    let mut i: usize = 0;
    while i < t.len()
        invariant
            i <= t.len(),
            views(ws@) == words(t@.take(i as int)),
        decreases t.len() - i,
    {
        let c = t[i];
        let ghost s = t@.take(i + 1);
        assert(s.drop_last() =~= t@.take(i as int));
        assert(s.last() == c);
        if crate::text::is_whitespace(c) {
        } else if i >= 1 && !crate::text::is_whitespace(t[i - 1]) && ws.len() > 0 {
            assert(s[s.len() - 2] == t@[i - 1]);
            let ghost before = views(ws@);
            let mut last = ws.pop().unwrap();
            last.push(c);
            ws.push(last);
            assert(views(ws@) =~= before.update(before.len() - 1, before.last().push(c)));
        } else {
            proof {
                if i >= 1 {
                    assert(s[s.len() - 2] == t@[i - 1]);
                }
            }
            let mut w: Vec<char> = Vec::new();
            w.push(c);
            let ghost before = views(ws@);
            ws.push(w);
            assert(views(ws@) =~= before.push(seq![c]));
        }
        i += 1;
    }
    assert(t@.take(t.len() as int) =~= t@);
    string_of(&crate::text::join(&ws, &chars_of(" ")))
}

/// How many sentences a text carries.
pub fn sentences(text: &Vec<char>) -> (r: usize)
    ensures
        r as nat == sentences_spec(text@),
{
    let mut ps: Vec<Vec<char>> = Vec::new();
    ps.push(Vec::new());
    assert(views(ps@) =~= pieces(text@.take(0)));
    let mut i: usize = 0;
    while i < text.len()
        invariant
            i <= text.len(),
            views(ps@) == pieces(text@.take(i as int)),
            ps.len() >= 1,
            ps.len() <= i + 1,
        decreases text.len() - i,
    {
        let c = text[i];
        let ghost s = text@.take(i + 1);
        assert(s.drop_last() =~= text@.take(i as int));
        assert(s.last() == c);
        let ghost before = views(ps@);
        if c == '.' || c == '!' || c == '?' {
            ps.push(Vec::new());
            assert(views(ps@) =~= before.push(Seq::<char>::empty()));
        } else {
            let mut last = ps.pop().unwrap();
            last.push(c);
            ps.push(last);
            assert(views(ps@) =~= before.update(before.len() - 1, before.last().push(c)));
        }
        i += 1;
    }
    assert(text@.take(text.len() as int) =~= text@);
    let ghost pv = views(ps@);
    let mut n: usize = 0;
    let mut k: usize = 0;
    while k < ps.len()
        invariant
            k <= ps.len(),
            pv == views(ps@),
            n <= k,
            n as nat == nonblank_count(pv.take(k as int)),
        decreases ps.len() - k,
    {
        assert(pv.take(k + 1).drop_last() =~= pv.take(k as int));
        assert(pv.take(k + 1).last() == ps@[k as int]@);
        if !blank_line(&ps[k]) {
            n += 1;
        }
        k += 1;
    }
    assert(pv.take(ps.len() as int) =~= pv);
    if n == 0 && !blank_line(text) {
        1
    } else {
        n
    }
}

/// Whether two characters agree ignoring ASCII case.
fn same_letter(a: char, b: char) -> (r: bool)
    ensures
        r == (crate::text::ascii_lower(a) == crate::text::ascii_lower(b)),
{
    let x = crate::text::code_point(a);
    let y = crate::text::code_point(b);
    let lx = if 'A' <= a && a <= 'Z' {
        x + 32
    } else {
        x
    };
    let ly = if 'A' <= b && b <= 'Z' {
        y + 32
    } else {
        y
    };
    proof {
        assert(crate::text::ascii_lower(a) as int == lx as int);
        assert(crate::text::ascii_lower(b) as int == ly as int);
    }
    lx == ly
}

fn same_ignoring_case_exec(a: &Vec<char>, b: &str) -> (r: bool)
    ensures
        r == same_ignoring_case(a@, b@),
{
    let bc = chars_of(b);
    if a.len() != bc.len() {
        return false;
    }
    let mut i: usize = 0;
    while i < a.len()
        invariant
            i <= a.len(),
            a.len() == bc.len(),
            bc@ == b@,
            forall|k: int| 0 <= k < i ==> crate::text::ascii_lower(#[trigger] a@[k]) == crate::text::ascii_lower(bc@[k]),
        decreases a.len() - i,
    {
        if !same_letter(a[i], bc[i]) {
            return false;
        }
        i += 1;
    }
    true
}

/// The identity a path already states.
pub fn identity(path: &str, kind: MetadataSchema) -> (r: Option<String>)
    ensures
        match r {
            Some(s) => identity_spec(path@, kind) == Some(s@),
            None => identity_spec(path@, kind) is None,
        },
{
    let segs = crate::text::split(&chars_of(path), '/');
    proof {
        crate::text::lemma_split_nonempty(path@, '/');
    }
    let file = &segs[segs.len() - 1];
    let parent = if segs.len() >= 2 {
        Some(string_of(&segs[segs.len() - 2]))
    } else {
        None
    };
    let stem = string_of(&crate::markdown::naming::stem_text(file));
    match kind {
        MetadataSchema::Skill => parent,
        MetadataSchema::Workflow => {
            if same_ignoring_case_exec(file, crate::scan::README) {
                parent
            } else {
                Some(stem)
            }
        },
        _ => Some(stem),
    }
}

fn length_rule(path: &str, e: &Entry, normalized: &Vec<char>, kind: &'static str, low: usize, high: usize) -> (r: Vec<Finding>)
    ensures
        crate::report::finding_views(r@) == length_findings(path@, e@, normalized@, kind@, low as nat, high as nat),
{
    let counted = normalized.len();
    let mut out: Vec<Finding> = Vec::new();
    if low <= counted && counted <= high {
        return out;
    }
    let mut m = chars_of("is ");
    extend(&mut m, &crate::text::decimal(counted));
    extend_str(&mut m, " characters; this field holds ");
    extend(&mut m, &crate::text::decimal(low));
    extend_str(&mut m, " through ");
    extend(&mut m, &crate::text::decimal(high));
    let f = keyed_finding(kind, path, string_of(&m).as_str(), e.line, e.key.as_str());
    let ghost fv = f@;
    out.push(f);
    assert(crate::report::finding_views(out@) =~= seq![fv]);
    out
}

fn one(f: Finding) -> (r: Vec<Finding>)
    ensures
        crate::report::finding_views(r@) == seq![f@],
{
    let ghost fv = f@;
    let mut out: Vec<Finding> = Vec::new();
    out.push(f);
    assert(crate::report::finding_views(out@) =~= seq![fv]);
    out
}

fn text_list_has(v: &Vec<Vec<char>>, x: &Vec<char>) -> (r: bool)
    ensures
        r == views(v@).contains(x@),
{
    let mut i: usize = 0;
    while i < v.len()
        invariant
            i <= v.len(),
            forall|j: int| 0 <= j < i ==> views(v@)[j] != x@,
        decreases v.len() - i,
    {
        if crate::text::same(&v[i], x) {
            assert(views(v@)[i as int] == x@);
            return true;
        }
        i += 1;
    }
    false
}

fn capability_list() -> (r: Vec<&'static str>)
    ensures
        crate::cli::str_views(r@) == capabilities(),
{
    let r = vec!["repository-read", "repository-write", "shell", "network", "subagent"];
    assert(crate::cli::str_views(r@) =~= capabilities());
    r
}

/// The rules every declared list shares, plus the capability vocabulary.
fn array_rule(path: &str, e: &Entry) -> (r: Vec<Finding>)
    ensures
        crate::report::finding_views(r@) == array_findings(path@, e@),
{
    let items = match &e.value {
        Value::List(items) => items,
        _ => {
            return one(keyed_finding("metadata-array-required", path, "is declared as a scalar; this key holds a list", e.line, e.key.as_str()));
        },
    };
    if items.len() == 0 {
        return one(keyed_finding(
            "metadata-array-empty",
            path,
            "is declared with no members, which is an absent answer written as a present key",
            e.line,
            e.key.as_str(),
        ));
    }
    let ghost ev = e@;
    let ghost iv = items_view(items@);
    let capabilities_key = crate::text::is(&chars_of(e.key.as_str()), "capabilities");
    let vocabulary = capability_list();
    let mut out: Vec<Finding> = Vec::new();
    let mut seen: Vec<Vec<char>> = Vec::new();
    let mut highest: usize = 0;
    let mut i: usize = 0;
    assert(views(seen@) =~= Seq::<Seq<char>>::empty());
    assert(crate::report::finding_views(out@) + array_from(path@, ev, iv, 0, Seq::empty(), 0) =~= array_from(path@, ev, iv, 0, Seq::empty(), 0));
    while i < items.len()
        invariant
            i <= items.len(),
            ev == e@,
            iv == items_view(items@),
            capabilities_key == (ev.key == "capabilities"@),
            crate::cli::str_views(vocabulary@) == capabilities(),
            array_from(path@, ev, iv, 0, Seq::empty(), 0) == crate::report::finding_views(out@) + array_from(
                path@,
                ev,
                iv,
                i as nat,
                views(seen@),
                highest as nat,
            ),
        decreases items.len() - i,
    {
        let line = items[i].0;
        let m = chars_of(items[i].1.as_str());
        assert(iv[i as int] == (line as nat, m@));
        let ghost before = crate::report::finding_views(out@);
        let ghost sb = views(seen@);
        if text_list_has(&seen, &m) {
            let mut msg = chars_of("lists `");
            extend(&mut msg, &m);
            extend_str(&mut msg, "` twice, and the second says nothing the first did not");
            let f = keyed_finding("metadata-array-duplicate", path, string_of(&msg).as_str(), line, e.key.as_str());
            let ghost fv = f@;
            out.push(f);
            assert(crate::report::finding_views(out@) =~= before.push(fv));
            assert(before + (seq![fv] + array_from(path@, ev, iv, (i + 1) as nat, sb, highest as nat))
                =~= before.push(fv) + array_from(path@, ev, iv, (i + 1) as nat, sb, highest as nat));
            i += 1;
            continue;
        }
        seen.push(m.clone());
        assert(views(seen@) =~= sb.push(m@));
        if !capabilities_key {
            i += 1;
            continue;
        }
        match index_of(&vocabulary, &m) {
            None => {
                let mut msg = chars_of("lists `");
                extend(&mut msg, &m);
                extend_str(&mut msg, "`, which is not in the portable capability vocabulary; harness tool names are not portable");
                let f = keyed_finding("metadata-capability-unknown", path, string_of(&msg).as_str(), line, e.key.as_str());
                let ghost fv = f@;
                out.push(f);
                assert(crate::report::finding_views(out@) =~= before.push(fv));
                assert(before + (seq![fv] + array_from(path@, ev, iv, (i + 1) as nat, sb.push(m@), highest as nat))
                    =~= before.push(fv) + array_from(path@, ev, iv, (i + 1) as nat, sb.push(m@), highest as nat));
            },
            Some(p) => {
                if p < highest {
                    let mut msg = chars_of("lists `");
                    extend(&mut msg, &m);
                    extend_str(&mut msg, "` after a capability the vocabulary orders later");
                    let f = keyed_finding("metadata-array-order", path, string_of(&msg).as_str(), line, e.key.as_str());
                    let ghost fv = f@;
                    out.push(f);
                    assert(crate::report::finding_views(out@) =~= before.push(fv));
                    assert(before + (seq![fv] + array_from(path@, ev, iv, (i + 1) as nat, sb.push(m@), highest as nat))
                        =~= before.push(fv) + array_from(path@, ev, iv, (i + 1) as nat, sb.push(m@), highest as nat));
                } else {
                    highest = p;
                }
            },
        }
        i += 1;
    }
    assert(crate::report::finding_views(out@) + Seq::<FindingView>::empty() =~= crate::report::finding_views(out@));
    out
}

pub open spec fn opt_chars(o: Option<Vec<char>>) -> Option<Seq<char>> {
    match o {
        Some(v) => Some(v@),
        None => None,
    }
}

/// The value rules for one entry, and the description after it.
fn entry_rule(path: &str, e: &Entry, kind: MetadataSchema, description: Option<Vec<char>>) -> (r: (Vec<Finding>, Option<Vec<char>>))
    ensures
        (crate::report::finding_views(r.0@), opt_chars(r.1)) == entry_values(path@, e@, kind, opt_chars(description)),
{
    let key = chars_of(e.key.as_str());
    let ghost ev = e@;
    proof {
        reveal_strlit("capabilities");
        reveal_strlit("skills");
        reveal_strlit("constraints");
    }
    let listed = crate::text::is(&key, "capabilities") || crate::text::is(&key, "skills") || crate::text::is(&key, "constraints");
    assert(listed == list_keys().contains(ev.key)) by {
        if list_keys().contains(ev.key) {
            let j = choose|j: int| 0 <= j < list_keys().len() && list_keys()[j] == ev.key;
            assert(j == 0 || j == 1 || j == 2);
        }
        if listed {
            if key@ == "capabilities"@ {
                assert(list_keys()[0] == ev.key);
            } else if key@ == "skills"@ {
                assert(list_keys()[1] == ev.key);
            } else {
                assert(list_keys()[2] == ev.key);
            }
        }
    }
    match &e.value {
        Value::Null => {
            return (
                one(keyed_finding(
                    "metadata-null-value",
                    path,
                    "is declared as null, which is a key with no answer rather than an answer",
                    e.line,
                    e.key.as_str(),
                )),
                description,
            );
        },
        Value::Empty => {
            return (
                one(keyed_finding(
                    "metadata-empty-value",
                    path,
                    "is declared with no value; an omitted key and an empty one have to stay different things",
                    e.line,
                    e.key.as_str(),
                )),
                description,
            );
        },
        _ => {},
    }
    if listed {
        return (array_rule(path, e), description);
    }
    let (text, form) = match &e.value {
        Value::Scalar { text, form } => (text, *form),
        _ => {
            return (
                one(keyed_finding("metadata-scalar-required", path, "is declared as a list; this key holds one value", e.line, e.key.as_str())),
                description,
            );
        },
    };
    let normalized = normalize(text.as_str());
    let n = chars_of(normalized.as_str());
    if crate::text::is(&key, "description") {
        let mut out: Vec<Finding> = Vec::new();
        if form == Form::Literal {
            out = one(keyed_finding(
                "metadata-description-form",
                path,
                "is written as a literal block; a description is a plain or folded scalar",
                e.line,
                e.key.as_str(),
            ));
        }
        let ghost first = crate::report::finding_views(out@);
        push_all(&mut out, length_rule(path, e, &n, "metadata-description-length", 20, 300));
        return (out, Some(n));
    }
    if crate::text::is(&key, "when_to_use") {
        let mut out: Vec<Finding> = Vec::new();
        if form != Form::Folded {
            out = one(keyed_finding(
                "metadata-folded-scalar-required",
                path,
                "has to be written as a folded scalar, so a multi-sentence trigger reads the same in every adapter",
                e.line,
                e.key.as_str(),
            ));
        }
        push_all(&mut out, length_rule(path, e, &n, "metadata-when-to-use-length", 20, 240));
        let count = sentences(&n);
        if count > 3 {
            let mut msg = chars_of("carries ");
            extend(&mut msg, &crate::text::decimal(count));
            extend_str(&mut msg, " sentences; a routing trigger states at most 3");
            push_all(&mut out, one(keyed_finding("metadata-when-to-use-sentences", path, string_of(&msg).as_str(), e.line, e.key.as_str())));
        } else {
            push_all(&mut out, Vec::new());
        }
        let repeats = match &description {
            Some(d) => crate::text::same(d, &n),
            None => false,
        };
        if repeats {
            push_all(&mut out, one(keyed_finding(
                "metadata-routing-not-distinct",
                path,
                "repeats the description, so it adds no trigger a harness could route on",
                e.line,
                e.key.as_str(),
            )));
        } else {
            push_all(&mut out, Vec::new());
        }
        return (out, description);
    }
    if crate::text::is(&key, "name") {
        if !crate::markdown::naming::is_kebab_case(normalized.as_str()) {
            return (one(keyed_finding(
                "metadata-name-format",
                path,
                "is not lowercase alphanumeric words joined by single hyphens",
                e.line,
                e.key.as_str(),
            )), description);
        }
        let matches = match identity(path, kind) {
            Some(id) => crate::text::same(&chars_of(id.as_str()), &n),
            None => false,
        };
        if !matches {
            return (one(keyed_finding(
                "metadata-name-path-mismatch",
                path,
                "is not the identity its path already states",
                e.line,
                e.key.as_str(),
            )), description);
        }
        return (Vec::new(), description);
    }
    if crate::text::is(&key, "tier") {
        if !crate::config::is_tier(normalized.as_str()) {
            return (one(keyed_finding(
                "metadata-tier-unknown",
                path,
                "is not one of the four portable tiers, which name a normal workload rather than a model",
                e.line,
                e.key.as_str(),
            )), description);
        }
        return (Vec::new(), description);
    }
    (Vec::new(), description)
}

/// The value rules for every kept entry.
fn value_rules(path: &str, seen: &Vec<&Entry>, kind: MetadataSchema) -> (r: Vec<Finding>)
    ensures
        crate::report::finding_views(r@) == value_from(path@, ref_entry_views(seen@), kind, 0, None),
{
    let ghost sv = ref_entry_views(seen@);
    let mut out: Vec<Finding> = Vec::new();
    let mut description: Option<Vec<char>> = None;
    let mut i: usize = 0;
    assert(crate::report::finding_views(out@) + value_from(path@, sv, kind, 0, None) =~= value_from(path@, sv, kind, 0, None));
    while i < seen.len()
        invariant
            i <= seen.len(),
            sv == ref_entry_views(seen@),
            value_from(path@, sv, kind, 0, None) == crate::report::finding_views(out@) + value_from(
                path@,
                sv,
                kind,
                i as nat,
                opt_chars(description),
            ),
        decreases seen.len() - i,
    {
        assert(sv[i as int] == seen@[i as int]@);
        let ghost before = crate::report::finding_views(out@);
        let (fs, d) = entry_rule(path, seen[i], kind, description);
        let ghost fv = crate::report::finding_views(fs@);
        push_all(&mut out, fs);
        assert(before + (fv + value_from(path@, sv, kind, (i + 1) as nat, opt_chars(d))) =~= (before + fv) + value_from(
            path@,
            sv,
            kind,
            (i + 1) as nat,
            opt_chars(d),
        ));
        description = d;
        i += 1;
    }
    assert(crate::report::finding_views(out@) + Seq::<FindingView>::empty() =~= crate::report::finding_views(out@));
    out
}

/// Every rule this contract states, applied to one artifact.
pub fn inspect(path: &str, text: &str, kind: MetadataSchema) -> (r: Vec<Finding>)
    ensures
        crate::report::finding_views(r@) == inspect_spec(path@, text@, kind),
{
    let head = read(text);
    let (entries, malformed, block) = match head {
        Head::Unterminated => {
            return one(Finding::new(
                "metadata-frontmatter-unterminated",
                path,
                "the front-matter block opens and never closes, so no key in it can be trusted",
            ).at(1, 1));
        },
        Head::Missing => (Vec::new(), Vec::new(), 1),
        Head::Entries(entries, malformed) => (entries, malformed, block_line(text)),
    };
    proof {
        assert(entry_views(Seq::<Entry>::empty()) =~= Seq::<EntryView>::empty());
        assert(nat_views(Seq::<usize>::empty()) =~= Seq::<nat>::empty());
    }
    let ghost ev = entry_views(entries@);
    let ghost mv = nat_views(malformed@);
    let mut out: Vec<Finding> = Vec::new();
    let mut k: usize = 0;
    while k < malformed.len()
        invariant
            k <= malformed.len(),
            mv == nat_views(malformed@),
            crate::report::finding_views(out@) == malformed_findings(path@, mv).take(k as int),
        decreases malformed.len() - k,
    {
        let f = Finding::new("metadata-frontmatter-malformed", path, "declares no key; every line inside the block is a declaration").at(
            malformed[k],
            1,
        );
        let ghost before = crate::report::finding_views(out@);
        let ghost fv = f@;
        out.push(f);
        assert(crate::report::finding_views(out@) =~= before.push(fv));
        assert(malformed_findings(path@, mv).take(k + 1) =~= malformed_findings(path@, mv).take(k as int).push(fv));
        k += 1;
    }
    assert(malformed_findings(path@, mv).take(malformed.len() as int) =~= malformed_findings(path@, mv));
    let (keys, seen) = key_rules(path, &entries, kind);
    push_all(&mut out, keys);
    push_all(&mut out, order_rule(path, &seen, kind));
    push_all(&mut out, missing_rule(path, block, &seen, kind));
    push_all(&mut out, value_rules(path, &seen, kind));
    out
}

} // verus!

verus! {

/// The surfaces' globs, in order.
pub open spec fn surface_globs(m: Metadata) -> Seq<Seq<char>> {
    Seq::new(m.surfaces@.len(), |i: int| m.surfaces@[i].glob@)
}

/// A metadata report after the governed documents of a corpus.
pub open spec fn metadata_run(documents: Seq<(Seq<char>, Seq<char>)>, m: Metadata) -> ReportView
    decreases documents.len(),
{
    if documents.len() == 0 {
        ReportView {
            category: "metadata"@,
            subject: "file"@,
            inspected: 0,
            scanned: Seq::empty(),
            notes: Seq::empty(),
            measurements: Seq::empty(),
            findings: Seq::empty(),
            refusal: None,
        }
    } else {
        let v = metadata_run(documents.drop_last(), m);
        let (path, text) = documents.last();
        match crate::markdown::naming::last_match(surface_globs(m), path) {
            None => v,
            Some(i) => ReportView {
                inspected: v.inspected + 1,
                scanned: v.scanned.push(path),
                findings: v.findings + inspect_spec(path, text, m.surfaces@[i as int].schema),
                ..v
            },
        }
    }
}

fn surface_texts(m: &Metadata) -> (r: Vec<&str>)
    ensures
        crate::cli::str_views(r@) == surface_globs(*m),
{
    let mut r: Vec<&str> = Vec::new();
    let mut i: usize = 0;
    while i < m.surfaces.len()
        invariant
            i <= m.surfaces.len(),
            crate::cli::str_views(r@) == Seq::new(i as nat, |k: int| m.surfaces@[k].glob@),
        decreases m.surfaces.len() - i,
    {
        let ghost before = crate::cli::str_views(r@);
        r.push(m.surfaces[i].glob.as_str());
        assert(crate::cli::str_views(r@) =~= before.push(m.surfaces@[i as int].glob@));
        i += 1;
        assert(crate::cli::str_views(r@) =~= Seq::new(i as nat, |k: int| m.surfaces@[k].glob@));
    }
    r
}

/// Checks the front matter of every Markdown document a declared surface
/// governs against that surface's schema.
pub fn validate<T: crate::runtime::Tree>(tree: &T, config: &Config, metadata: &Metadata) -> (r: Report)
    ensures
        match crate::scan::glob_failure("metadata.surfaces"@, surface_globs(*metadata)) {
            Some(reason) => r@ == crate::markdown::naming::refused_view("metadata"@, reason),
            None => exists|listed: Seq<Seq<char>>, reads: Seq<(Seq<char>, Result<Seq<char>, crate::runtime::TreeFault>)>|
                #[trigger] crate::scan::corpus_of(*tree, *config, listed, reads) && match crate::scan::corpus_spec(reads) {
                    Err(reason) => r@ == crate::markdown::naming::refused_view("metadata"@, reason),
                    Ok(documents) => r@ == metadata_run(documents, *metadata),
                },
        },
{
    let globs = surface_texts(metadata);
    let surfaces = match crate::scan::Surfaces::compile("metadata.surfaces", &globs) {
        Ok(s) => s,
        Err(reason) => return Report::refused("metadata", reason.as_str()),
    };
    let corpus = match crate::scan::Corpus::read(tree, config) {
        Ok(c) => c,
        Err(reason) => return Report::refused("metadata", reason.as_str()),
    };
    let documents = corpus.documents();
    let ghost dv = crate::scan::document_views(documents@);
    let mut report = Report::new("metadata", "file");
    let mut i: usize = 0;
    while i < documents.len()
        invariant
            i <= documents.len(),
            dv == crate::scan::document_views(documents@),
            surfaces.patterns() == surface_globs(*metadata),
            report@ == metadata_run(dv.take(i as int), *metadata),
            report@.inspected <= i,
        decreases documents.len() - i,
    {
        let document = &documents[i];
        assert(dv.take(i + 1).drop_last() =~= dv.take(i as int));
        assert(dv.take(i + 1).last() == (document.path@, document.text@));
        let g = surfaces.governing(document.path.as_str());
        proof {
            crate::markdown::naming::lemma_last_match(surfaces.patterns(), document.path@, match g {
                Some(x) => Some(x as nat),
                None => None,
            });
        }
        if let Some(index) = g {
            report.scanned(document.path.as_str());
            let found = inspect(document.path.as_str(), document.text.as_str(), metadata.surfaces[index].schema);
            let ghost fv = crate::report::finding_views(found@);
            let ghost base = report@;
            let mut found = found;
            let mut k: usize = 0;
            let n = found.len();
            while k < n
                invariant
                    k <= n,
                    n == fv.len(),
                    crate::report::finding_views(found@) == fv.skip(k as int),
                    report@ == (ReportView { findings: base.findings + fv.take(k as int), ..base }),
                decreases n - k,
            {
                let ghost prev = found@;
                assert(found@.len() == crate::report::finding_views(found@).len());
                assert(crate::report::finding_views(found@)[0] == fv[k as int]);
                let f = found.remove(0);
                assert forall|j: int| 0 <= j < found@.len() implies crate::report::finding_views(found@)[j] == fv.skip(k + 1)[j] by {
                    assert(found@[j] == prev[j + 1]);
                    assert(crate::report::finding_views(prev)[j + 1] == fv.skip(k as int)[j + 1]);
                }
                assert(crate::report::finding_views(found@) =~= fv.skip(k + 1));
                report.found(f);
                assert(fv.take(k + 1) =~= fv.take(k as int).push(fv[k as int]));
                k += 1;
            }
            assert(fv.take(n as int) =~= fv);
        }
        i += 1;
    }
    assert(dv.take(documents.len() as int) =~= dv);
    report
}

} // verus!
