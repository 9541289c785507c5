//! Front-matter validation.
//!
//! A repository declares which files carry front matter and what it must
//! say: which keys are required, which hold a value from a closed set, which
//! hold a date, and which may not appear. RHINO holds none of those lists.
//! What it holds is the reading: where a front-matter block begins and
//! ends, and what counts as a top-level key.
use crate::config::v2::{unquote, unquote_spec};
use crate::config::{Config, Frontmatter, FrontmatterSurface};
use crate::markdown::mermaid::digits_value;
use crate::markdown::naming::{last_match, lemma_last_match, refused_view};
use crate::report::{string_views, Detail, DetailView, Finding, FindingView, Report, ReportView};
use crate::runtime::{Tree, TreeFault};
use crate::scan::{corpus_of, corpus_spec, document_views, glob_failure, Corpus, Surfaces};
use crate::text::{
    chars_of, extend, extend_str, is_whitespace, is_ws, lines, lines_spec, slice, split, split_once, split_once_spec,
    split_spec, string_of, trim, trim_end, trim_end_spec, trim_spec, trim_start, trim_start_spec, views,
};
use vstd::prelude::*;

verus! {

/// One top-level declaration: its line, key and unquoted value.
pub struct Entry {
    pub line: usize,
    pub key: String,
    pub value: String,
}

pub open spec fn entry_views(es: Seq<Entry>) -> Seq<(nat, Seq<char>, Seq<char>)> {
    Seq::new(es.len(), |i: int| (es[i].line as nat, es[i].key@, es[i].value@))
}

/// One top-level declaration, or `None` for anything that is not one: an
/// indented line belongs to the value above it, and a comment declares
/// nothing.
pub open spec fn declaration_spec(line: nat, t: Seq<char>) -> Option<(nat, Seq<char>, Seq<char>)> {
    if (t.len() > 0 && is_ws(t[0])) || (trim_start_spec(t).len() > 0 && trim_start_spec(t)[0] == '#') {
        None
    } else {
        match split_once_spec(t, seq![':']) {
            None => None,
            Some((k, v)) => {
                let key = trim_spec(k);
                if key.len() == 0 {
                    None
                } else {
                    Some((line, key, unquote_spec(trim_spec(v))))
                }
            },
        }
    }
}

/// The declarations of lines `lo..hi`, each numbered from one.
pub open spec fn declarations(ls: Seq<Seq<char>>, lo: nat, hi: nat) -> Seq<(nat, Seq<char>, Seq<char>)>
    decreases hi,
{
    if hi <= lo || hi > ls.len() {
        Seq::empty()
    } else {
        declarations(ls, lo, (hi - 1) as nat) + match declaration_spec(hi, ls[hi - 1]) {
            Some(e) => seq![e],
            None => Seq::empty(),
        }
    }
}

/// The first line at or after `i` that closes a block.
pub open spec fn closing(ls: Seq<Seq<char>>, i: nat) -> Option<nat>
    decreases ls.len() - i,
{
    if i >= ls.len() {
        None
    } else if trim_end_spec(ls[i as int]) == "---"@ {
        Some(i)
    } else {
        closing(ls, i + 1)
    }
}

/// A document's front matter: its declarations, none when the document
/// does not open with a fence, or `None` when the block never closes.
pub open spec fn head_spec(text: Seq<char>) -> Option<Seq<(nat, Seq<char>, Seq<char>)>> {
    let ls = lines_spec(text);
    if ls.len() == 0 || trim_end_spec(ls[0]) != "---"@ {
        Some(Seq::empty())
    } else {
        match closing(ls, 1) {
            None => None,
            Some(c) => Some(declarations(ls, 1, c)),
        }
    }
}

fn declaration(line: usize, t: &Vec<char>) -> (r: Option<Entry>)
    ensures
        match r {
            Some(e) => declaration_spec(line as nat, t@) == Some((e.line as nat, e.key@, e.value@)),
            None => declaration_spec(line as nat, t@) is None,
        },
{
    if t.len() > 0 && is_whitespace(t[0]) {
        return None;
    }
    let lead = trim_start(t);
    if lead.len() > 0 && lead[0] == '#' {
        return None;
    }
    let colon = vec![':'];
    assert(colon@ =~= seq![':']);
    match split_once(t, &colon) {
        None => None,
        Some((k, v)) => {
            let key = trim(&k);
            if key.len() == 0 {
                None
            } else {
                let value = unquote(&trim(&v));
                Some(Entry { line, key: string_of(&key), value: string_of(&value) })
            }
        },
    }
}

/// A document's front matter, read from its first line.
fn head(text: &str) -> (r: Option<Vec<Entry>>)
    ensures
        match r {
            Some(es) => head_spec(text@) == Some(entry_views(es@)),
            None => head_spec(text@) is None,
        },
{
    let ls = lines(&chars_of(text));
    let ghost lv = views(ls@);
    if ls.len() == 0 || !crate::text::is(&trim_end(&ls[0]), "---") {
        let e: Vec<Entry> = Vec::new();
        assert(entry_views(e@) =~= Seq::<(nat, Seq<char>, Seq<char>)>::empty());
        return Some(e);
    }
    assert(lv[0] == ls@[0]@);
    let mut entries: Vec<Entry> = Vec::new();
    let mut i: usize = 1;
    assert(entry_views(entries@) =~= declarations(lv, 1, 1));
    while i < ls.len()
        invariant
            1 <= i <= ls.len(),
            lv == views(ls@),
            lv == lines_spec(text@),
            lv.len() > 0 && trim_end_spec(lv[0]) == "---"@,
            closing(lv, 1) == closing(lv, i as nat),
            entry_views(entries@) == declarations(lv, 1, i as nat),
        decreases ls.len() - i,
    {
        assert(lv[i as int] == ls@[i as int]@);
        if crate::text::is(&trim_end(&ls[i]), "---") {
            return Some(entries);
        }
        let ghost before = entry_views(entries@);
        if let Some(e) = declaration(i + 1, &ls[i]) {
            let ghost ev = (e.line as nat, e.key@, e.value@);
            entries.push(e);
            assert(entry_views(entries@) =~= before + seq![ev]);
        } else {
            assert(before + Seq::<(nat, Seq<char>, Seq<char>)>::empty() =~= before);
        }
        i += 1;
    }
    None
}

/// The first entry declaring a key.
pub open spec fn held(entries: Seq<(nat, Seq<char>, Seq<char>)>, key: Seq<char>) -> Option<(nat, Seq<char>, Seq<char>)>
    decreases entries.len(),
{
    if entries.len() == 0 {
        None
    } else if entries[0].1 == key {
        Some(entries[0])
    } else {
        held(entries.drop_first(), key)
    }
}

fn held_entry<'a>(entries: &'a Vec<Entry>, key: &str) -> (r: Option<&'a Entry>)
    ensures
        match r {
            Some(e) => held(entry_views(entries@), key@) == Some((e.line as nat, e.key@, e.value@)),
            None => held(entry_views(entries@), key@) is None,
        },
{
    let ghost ev = entry_views(entries@);
    let mut i: usize = 0;
    assert(ev.skip(0) =~= ev);
    while i < entries.len()
        invariant
            i <= entries.len(),
            ev == entry_views(entries@),
            held(ev, key@) == held(ev.skip(i as int), key@),
        decreases entries.len() - i,
    {
        assert(ev.skip(i as int)[0] == ev[i as int]);
        assert(ev.skip(i as int).drop_first() =~= ev.skip(i + 1));
        if crate::text::same(&chars_of(entries[i].key.as_str()), &chars_of(key)) {
            return Some(&entries[i]);
        }
        i += 1;
    }
    assert(ev.skip(i as int) =~= Seq::<(nat, Seq<char>, Seq<char>)>::empty());
    None
}

/// How many days a month of a year has, in the Gregorian calendar.
pub open spec fn days_in(year: nat, month: nat) -> nat {
    if month == 1 || month == 3 || month == 5 || month == 7 || month == 8 || month == 10 || month == 12 {
        31
    } else if month == 4 || month == 6 || month == 9 || month == 11 {
        30
    } else if year % 4 == 0 && (year % 100 != 0 || year % 400 == 0) {
        29
    } else {
        28
    }
}

pub open spec fn all_digits(s: Seq<char>) -> bool {
    forall|i: int| 0 <= i < s.len() ==> '0' <= #[trigger] s[i] <= '9'
}

/// `YYYY-MM-DD`, all ASCII digits, and a date the calendar has.
pub open spec fn iso_date_spec(v: Seq<char>) -> bool {
    let parts = split_spec(v, '-');
    &&& parts.len() == 3
    &&& parts[0].len() == 4 && parts[1].len() == 2 && parts[2].len() == 2
    &&& all_digits(parts[0]) && all_digits(parts[1]) && all_digits(parts[2])
    &&& {
        let year = digits_value(parts[0], 10)->0;
        let month = digits_value(parts[1], 10)->0;
        let day = digits_value(parts[2], 10)->0;
        1 <= month <= 12 && 1 <= day <= days_in(year, month)
    }
}

fn digits_only(s: &Vec<char>) -> (r: bool)
    ensures
        r == all_digits(s@),
{
    let mut i: usize = 0;
    while i < s.len()
        invariant
            i <= s.len(),
            forall|k: int| 0 <= k < i ==> '0' <= #[trigger] s@[k] <= '9',
        decreases s.len() - i,
    {
        if !('0' <= s[i] && s[i] <= '9') {
            return false;
        }
        i += 1;
    }
    true
}

fn number(s: &Vec<char>) -> (r: u32)
    requires
        all_digits(s@),
        s.len() <= 4,
    ensures
        digits_value(s@, 10) == Some(r as nat),
        r < 10000,
{
    let mut v: u32 = 0;
    let mut i: usize = 0;
    while i < s.len()
        invariant
            i <= s.len(),
            s.len() <= 4,
            all_digits(s@),
            digits_value(s@.take(i as int), 10) == Some(v as nat),
            i == 0 ==> v == 0,
            i == 1 ==> v < 10,
            i == 2 ==> v < 100,
            i == 3 ==> v < 1000,
            i == 4 ==> v < 10000,
        decreases s.len() - i,
    {
        assert(s@.take(i + 1).drop_last() =~= s@.take(i as int));
        assert(s@.take(i + 1).last() == s@[i as int]);
        let d = s[i] as u32 - '0' as u32;
        assert('0' <= s@[i as int] <= '9');
        v = v * 10 + d;
        i += 1;
    }
    assert(s@.take(s.len() as int) =~= s@);
    v
}

fn days(year: u32, month: u32) -> (r: u32)
    ensures
        r as nat == days_in(year as nat, month as nat),
{
    if month == 1 || month == 3 || month == 5 || month == 7 || month == 8 || month == 10 || month == 12 {
        31
    } else if month == 4 || month == 6 || month == 9 || month == 11 {
        30
    } else if year % 4 == 0 && (year % 100 != 0 || year % 400 == 0) {
        29
    } else {
        28
    }
}

/// Whether a value is an ISO calendar date.
pub fn is_iso_date(v: &Vec<char>) -> (r: bool)
    ensures
        r == iso_date_spec(v@),
{
    let parts = split(v, '-');
    if parts.len() != 3 {
        return false;
    }
    if parts[0].len() != 4 || parts[1].len() != 2 || parts[2].len() != 2 {
        return false;
    }
    if !(digits_only(&parts[0]) && digits_only(&parts[1]) && digits_only(&parts[2])) {
        return false;
    }
    let year = number(&parts[0]);
    let month = number(&parts[1]);
    let day = number(&parts[2]);
    1 <= month && month <= 12 && day >= 1 && day <= days(year, month)
}

pub open spec fn at_line(kind: Seq<char>, path: Seq<char>, line: nat, message: Seq<char>, details: Seq<(Seq<char>, DetailView)>) -> FindingView {
    FindingView { kind, path, line: Some(line), column: None, field: None, message, details }
}

/// One finding, at line one, for every required key the block does not
/// declare.
pub open spec fn require_findings(path: Seq<char>, entries: Seq<(nat, Seq<char>, Seq<char>)>, keys: Seq<Seq<char>>) -> Seq<FindingView>
    decreases keys.len(),
{
    if keys.len() == 0 {
        Seq::empty()
    } else {
        require_findings(path, entries, keys.drop_last()) + if held(entries, keys.last()) is None {
            seq![at_line("missing-frontmatter-key"@, path, 1, "front matter declares no `"@ + keys.last() + "`"@, Seq::empty())]
        } else {
            Seq::empty()
        }
    }
}

/// One finding, at its line, for every forbidden key the block declares.
pub open spec fn forbid_findings(path: Seq<char>, entries: Seq<(nat, Seq<char>, Seq<char>)>, keys: Seq<Seq<char>>) -> Seq<FindingView>
    decreases keys.len(),
{
    if keys.len() == 0 {
        Seq::empty()
    } else {
        forbid_findings(path, entries, keys.drop_last()) + match held(entries, keys.last()) {
            Some(e) => seq![at_line("forbidden-frontmatter-key"@, path, e.0, "`"@ + keys.last() + "` is a key this surface forbids"@, Seq::empty())],
            None => Seq::empty(),
        }
    }
}

/// One finding for every declared key whose value is outside its set.
pub open spec fn value_findings(path: Seq<char>, entries: Seq<(nat, Seq<char>, Seq<char>)>, sets: Seq<(Seq<char>, Seq<Seq<char>>)>) -> Seq<FindingView>
    decreases sets.len(),
{
    if sets.len() == 0 {
        Seq::empty()
    } else {
        let (key, permitted) = sets.last();
        value_findings(path, entries, sets.drop_last()) + match held(entries, key) {
            Some(e) => if !permitted.contains(e.2) {
                seq![
                    at_line(
                        "invalid-frontmatter-value"@,
                        path,
                        e.0,
                        "`"@ + key + "` holds a value outside its declared set"@,
                        seq![("value"@, DetailView::Text(e.2))],
                    ),
                ]
            } else {
                Seq::empty()
            },
            None => Seq::empty(),
        }
    }
}

/// One finding for every declared date key that holds no calendar date.
pub open spec fn date_findings(path: Seq<char>, entries: Seq<(nat, Seq<char>, Seq<char>)>, keys: Seq<Seq<char>>) -> Seq<FindingView>
    decreases keys.len(),
{
    if keys.len() == 0 {
        Seq::empty()
    } else {
        date_findings(path, entries, keys.drop_last()) + match held(entries, keys.last()) {
            Some(e) => if !iso_date_spec(e.2) {
                seq![
                    at_line(
                        "invalid-frontmatter-value"@,
                        path,
                        e.0,
                        "`"@ + keys.last() + "` does not hold an ISO calendar date"@,
                        seq![("value"@, DetailView::Text(e.2))],
                    ),
                ]
            } else {
                Seq::empty()
            },
            None => Seq::empty(),
        }
    }
}

pub open spec fn value_sets(s: FrontmatterSurface) -> Seq<(Seq<char>, Seq<Seq<char>>)> {
    Seq::new(s.values@.len(), |i: int| (s.values@[i].0@, string_views(s.values@[i].1@)))
}

/// What a governed document's front matter is found to break.
pub open spec fn front_findings(path: Seq<char>, text: Seq<char>, s: FrontmatterSurface) -> Seq<FindingView> {
    match head_spec(text) {
        None => seq![at_line("unterminated-frontmatter"@, path, 1, "front matter opens and never closes"@, Seq::empty())],
        Some(es) => require_findings(path, es, string_views(s.require@)) + forbid_findings(path, es, string_views(s.forbid@))
            + value_findings(path, es, value_sets(s)) + date_findings(path, es, string_views(s.iso_date@)),
    }
}

fn push_found(out: &mut Vec<Finding>, f: Finding)
    ensures
        crate::report::finding_views(final(out)@) == crate::report::finding_views(old(out)@).push(f@),
{
    let ghost before = crate::report::finding_views(out@);
    let ghost fv = f@;
    out.push(f);
    assert(crate::report::finding_views(out@) =~= before.push(fv));
}

fn requires_check(out: &mut Vec<Finding>, path: &str, entries: &Vec<Entry>, keys: &Vec<String>)
    ensures
        crate::report::finding_views(final(out)@) == crate::report::finding_views(old(out)@) + require_findings(
            path@,
            entry_views(entries@),
            string_views(keys@),
        ),
{
    let ghost kv = string_views(keys@);
    let ghost base = crate::report::finding_views(out@);
    let mut i: usize = 0;
    assert(base + require_findings(path@, entry_views(entries@), kv.take(0)) =~= base);
    while i < keys.len()
        invariant
            i <= keys.len(),
            kv == string_views(keys@),
            crate::report::finding_views(out@) == base + require_findings(path@, entry_views(entries@), kv.take(i as int)),
        decreases keys.len() - i,
    {
        assert(kv.take(i + 1).drop_last() =~= kv.take(i as int));
        assert(kv.take(i + 1).last() == keys@[i as int]@);
        let ghost before = crate::report::finding_views(out@);
        if held_entry(entries, keys[i].as_str()).is_none() {
            let mut m = chars_of("front matter declares no `");
            extend_str(&mut m, keys[i].as_str());
            extend_str(&mut m, "`");
            let f = Finding::new("missing-frontmatter-key", path, string_of(&m).as_str()).at_line(1);
            assert(f@.details =~= Seq::<(Seq<char>, DetailView)>::empty());
            push_found(out, f);
            assert(before.push(f@) =~= before + seq![f@]);
        } else {
            assert(before + Seq::<FindingView>::empty() =~= before);
        }
        i += 1;
    }
    assert(kv.take(keys.len() as int) =~= kv);
}

fn forbids_check(out: &mut Vec<Finding>, path: &str, entries: &Vec<Entry>, keys: &Vec<String>)
    ensures
        crate::report::finding_views(final(out)@) == crate::report::finding_views(old(out)@) + forbid_findings(
            path@,
            entry_views(entries@),
            string_views(keys@),
        ),
{
    let ghost kv = string_views(keys@);
    let ghost base = crate::report::finding_views(out@);
    let mut i: usize = 0;
    assert(base + forbid_findings(path@, entry_views(entries@), kv.take(0)) =~= base);
    while i < keys.len()
        invariant
            i <= keys.len(),
            kv == string_views(keys@),
            crate::report::finding_views(out@) == base + forbid_findings(path@, entry_views(entries@), kv.take(i as int)),
        decreases keys.len() - i,
    {
        assert(kv.take(i + 1).drop_last() =~= kv.take(i as int));
        assert(kv.take(i + 1).last() == keys@[i as int]@);
        let ghost before = crate::report::finding_views(out@);
        if let Some(e) = held_entry(entries, keys[i].as_str()) {
            let mut m = chars_of("`");
            extend_str(&mut m, keys[i].as_str());
            extend_str(&mut m, "` is a key this surface forbids");
            let f = Finding::new("forbidden-frontmatter-key", path, string_of(&m).as_str()).at_line(e.line);
            push_found(out, f);
            assert(before.push(f@) =~= before + seq![f@]);
        } else {
            assert(before + Seq::<FindingView>::empty() =~= before);
        }
        i += 1;
    }
    assert(kv.take(keys.len() as int) =~= kv);
}

fn permits(permitted: &Vec<String>, value: &str) -> (r: bool)
    ensures
        r == string_views(permitted@).contains(value@),
{
    let ghost pv = string_views(permitted@);
    let mut i: usize = 0;
    while i < permitted.len()
        invariant
            i <= permitted.len(),
            pv == string_views(permitted@),
            forall|k: int| 0 <= k < i ==> pv[k] != value@,
        decreases permitted.len() - i,
    {
        if crate::text::same(&chars_of(permitted[i].as_str()), &chars_of(value)) {
            assert(pv[i as int] == value@);
            return true;
        }
        i += 1;
    }
    false
}

fn values_check(out: &mut Vec<Finding>, path: &str, entries: &Vec<Entry>, s: &FrontmatterSurface)
    ensures
        crate::report::finding_views(final(out)@) == crate::report::finding_views(old(out)@) + value_findings(
            path@,
            entry_views(entries@),
            value_sets(*s),
        ),
{
    let ghost sv = value_sets(*s);
    let ghost base = crate::report::finding_views(out@);
    let mut i: usize = 0;
    assert(base + value_findings(path@, entry_views(entries@), sv.take(0)) =~= base);
    while i < s.values.len()
        invariant
            i <= s.values.len(),
            sv == value_sets(*s),
            crate::report::finding_views(out@) == base + value_findings(path@, entry_views(entries@), sv.take(i as int)),
        decreases s.values.len() - i,
    {
        assert(sv.take(i + 1).drop_last() =~= sv.take(i as int));
        assert(sv.take(i + 1).last() == (s.values@[i as int].0@, string_views(s.values@[i as int].1@)));
        let ghost before = crate::report::finding_views(out@);
        let key = s.values[i].0.as_str();
        if let Some(e) = held_entry(entries, key) {
            if !permits(&s.values[i].1, e.value.as_str()) {
                let mut m = chars_of("`");
                extend_str(&mut m, key);
                extend_str(&mut m, "` holds a value outside its declared set");
                let value = e.value.as_str().to_string();
                let ghost vv = value@;
                let f = Finding::new("invalid-frontmatter-value", path, string_of(&m).as_str()).at_line(e.line).with(
                    "value",
                    Detail::Text(value),
                );
                assert(f@.details =~= seq![("value"@, DetailView::Text(vv))]);
                push_found(out, f);
                assert(before.push(f@) =~= before + seq![f@]);
            } else {
                assert(before + Seq::<FindingView>::empty() =~= before);
            }
        } else {
            assert(before + Seq::<FindingView>::empty() =~= before);
        }
        i += 1;
    }
    assert(sv.take(s.values.len() as int) =~= sv);
}

fn dates_check(out: &mut Vec<Finding>, path: &str, entries: &Vec<Entry>, keys: &Vec<String>)
    ensures
        crate::report::finding_views(final(out)@) == crate::report::finding_views(old(out)@) + date_findings(
            path@,
            entry_views(entries@),
            string_views(keys@),
        ),
{
    let ghost kv = string_views(keys@);
    let ghost base = crate::report::finding_views(out@);
    let mut i: usize = 0;
    assert(base + date_findings(path@, entry_views(entries@), kv.take(0)) =~= base);
    while i < keys.len()
        invariant
            i <= keys.len(),
            kv == string_views(keys@),
            crate::report::finding_views(out@) == base + date_findings(path@, entry_views(entries@), kv.take(i as int)),
        decreases keys.len() - i,
    {
        assert(kv.take(i + 1).drop_last() =~= kv.take(i as int));
        assert(kv.take(i + 1).last() == keys@[i as int]@);
        let ghost before = crate::report::finding_views(out@);
        if let Some(e) = held_entry(entries, keys[i].as_str()) {
            if !is_iso_date(&chars_of(e.value.as_str())) {
                let mut m = chars_of("`");
                extend_str(&mut m, keys[i].as_str());
                extend_str(&mut m, "` does not hold an ISO calendar date");
                let value = e.value.as_str().to_string();
                let ghost vv = value@;
                let f = Finding::new("invalid-frontmatter-value", path, string_of(&m).as_str()).at_line(e.line).with(
                    "value",
                    Detail::Text(value),
                );
                assert(f@.details =~= seq![("value"@, DetailView::Text(vv))]);
                push_found(out, f);
                assert(before.push(f@) =~= before + seq![f@]);
            } else {
                assert(before + Seq::<FindingView>::empty() =~= before);
            }
        } else {
            assert(before + Seq::<FindingView>::empty() =~= before);
        }
        i += 1;
    }
    assert(kv.take(keys.len() as int) =~= kv);
}

/// What a governed document's front matter is found to break.
pub fn inspect(path: &str, text: &str, surface: &FrontmatterSurface) -> (r: Vec<Finding>)
    ensures
        crate::report::finding_views(r@) == front_findings(path@, text@, *surface),
{
    let mut out: Vec<Finding> = Vec::new();
    let ghost e = crate::report::finding_views(out@);
    assert(e =~= Seq::<FindingView>::empty());
    match head(text) {
        None => {
            let f = Finding::new("unterminated-frontmatter", path, "front matter opens and never closes").at_line(1);
            push_found(&mut out, f);
            assert(crate::report::finding_views(out@) =~= front_findings(path@, text@, *surface));
        },
        Some(entries) => {
            requires_check(&mut out, path, &entries, &surface.require);
            forbids_check(&mut out, path, &entries, &surface.forbid);
            values_check(&mut out, path, &entries, surface);
            dates_check(&mut out, path, &entries, &surface.iso_date);
            assert(crate::report::finding_views(out@) =~= front_findings(path@, text@, *surface));
        },
    }
    out
}

/// The globs of the declared surfaces, in order.
pub open spec fn front_globs(f: Frontmatter) -> Seq<Seq<char>> {
    Seq::new(f.surfaces@.len(), |i: int| f.surfaces@[i].glob@)
}

/// A front-matter report after a run over documents.
pub open spec fn front_run(documents: Seq<(Seq<char>, Seq<char>)>, f: Frontmatter) -> ReportView
    decreases documents.len(),
{
    if documents.len() == 0 {
        ReportView {
            category: "frontmatter"@,
            subject: "file"@,
            inspected: 0,
            scanned: Seq::empty(),
            notes: Seq::empty(),
            measurements: Seq::empty(),
            findings: Seq::empty(),
            refusal: None,
        }
    } else {
        let v = front_run(documents.drop_last(), f);
        let (path, text) = documents.last();
        match last_match(front_globs(f), path) {
            None => v,
            Some(i) => ReportView {
                inspected: v.inspected + 1,
                scanned: v.scanned.push(path),
                findings: v.findings + front_findings(path, text, f.surfaces@[i as int]),
                ..v
            },
        }
    }
}

fn glob_texts(f: &Frontmatter) -> (r: Vec<&str>)
    ensures
        crate::cli::str_views(r@) == front_globs(*f),
{
    let mut r: Vec<&str> = Vec::new();
    let mut i: usize = 0;
    while i < f.surfaces.len()
        invariant
            i <= f.surfaces.len(),
            crate::cli::str_views(r@) == Seq::new(i as nat, |k: int| f.surfaces@[k].glob@),
        decreases f.surfaces.len() - i,
    {
        let ghost before = crate::cli::str_views(r@);
        r.push(f.surfaces[i].glob.as_str());
        assert(crate::cli::str_views(r@) =~= before.push(f.surfaces@[i as int].glob@));
        i += 1;
        assert(crate::cli::str_views(r@) =~= Seq::new(i as nat, |k: int| f.surfaces@[k].glob@));
    }
    r
}

/// Checks the front matter of every Markdown document a declared surface
/// governs against the last surface that matches it.
pub fn validate<T: Tree>(tree: &T, config: &Config, frontmatter: &Frontmatter) -> (r: Report)
    ensures
        match glob_failure("md-frontmatter.surfaces"@, front_globs(*frontmatter)) {
            Some(reason) => r@ == refused_view("frontmatter"@, reason),
            None => exists|listed: Seq<Seq<char>>, reads: Seq<(Seq<char>, Result<Seq<char>, TreeFault>)>|
                #[trigger] corpus_of(*tree, *config, listed, reads) && match corpus_spec(reads) {
                    Err(reason) => r@ == refused_view("frontmatter"@, reason),
                    Ok(documents) => r@ == front_run(documents, *frontmatter),
                },
        },
{
    let globs = glob_texts(frontmatter);
    let surfaces = match Surfaces::compile("md-frontmatter.surfaces", &globs) {
        Ok(s) => s,
        Err(reason) => return Report::refused("frontmatter", reason.as_str()),
    };
    let corpus = match Corpus::read(tree, config) {
        Ok(c) => c,
        Err(reason) => return Report::refused("frontmatter", reason.as_str()),
    };
    let documents = corpus.documents();
    let ghost dv = document_views(documents@);
    let mut report = Report::new("frontmatter", "file");
    let mut i: usize = 0;
    while i < documents.len()
        invariant
            i <= documents.len(),
            dv == document_views(documents@),
            surfaces.patterns() == front_globs(*frontmatter),
            report@ == front_run(dv.take(i as int), *frontmatter),
            report@.inspected <= i,
        decreases documents.len() - i,
    {
        let document = &documents[i];
        assert(dv.take(i + 1).drop_last() =~= dv.take(i as int));
        assert(dv.take(i + 1).last() == (document.path@, document.text@));
        let g = surfaces.governing(document.path.as_str());
        proof {
            lemma_last_match(surfaces.patterns(), document.path@, match g {
                Some(x) => Some(x as nat),
                None => None,
            });
        }
        if let Some(index) = g {
            report.scanned(document.path.as_str());
            let found = inspect(document.path.as_str(), document.text.as_str(), &frontmatter.surfaces[index]);
            let ghost fv = crate::report::finding_views(found@);
            let ghost base = report@;
            let mut found = found;
            let mut k: usize = 0;
            let n = found.len();
            while k < n
                invariant
                    k <= n,
                    n == fv.len(),
                    crate::report::finding_views(found@) == fv.skip(k as int),
                    report@ == (ReportView { findings: base.findings + fv.take(k as int), ..base }),
                decreases n - k,
            {
                let ghost before = crate::report::finding_views(found@);
                assert(before.len() == found@.len());
                assert(fv.skip(k as int).len() == n - k);
                let f = found.remove(0);
                assert(crate::report::finding_views(found@) =~= before.drop_first());
                assert(fv.skip(k as int).drop_first() =~= fv.skip(k + 1));
                assert(before[0] == f@);
                assert(fv.skip(k as int)[0] == fv[k as int]);
                let ghost fview = f@;
                let ghost prior = report@;
                report.found(f);
                assert(report@.findings == prior.findings.push(fview));
                assert((base.findings + fv.take(k as int)).push(fview) =~= base.findings + fv.take(k + 1));
                k += 1;
            }
            assert(fv.take(n as int) =~= fv);
        }
        i += 1;
    }
    assert(dv.take(documents.len() as int) =~= dv);
    report
}


/// Month lengths follow the Gregorian calendar, whatever the year: 31 days
/// in January, March, May, July, August, October and December; 30 in April,
/// June, September and November; 28 in February, 29 in a leap year (every
/// fourth year, but not a century unless it is a fourth century).
pub proof fn lemma_gregorian_months(year: nat)
    ensures
        days_in(year, 1) == 31 && days_in(year, 3) == 31 && days_in(year, 5) == 31 && days_in(year, 7) == 31,
        days_in(year, 8) == 31 && days_in(year, 10) == 31 && days_in(year, 12) == 31,
        days_in(year, 4) == 30 && days_in(year, 6) == 30 && days_in(year, 9) == 30 && days_in(year, 11) == 30,
        days_in(year, 2) == (if year % 4 == 0 && (year % 100 != 0 || year % 400 == 0) {
            29nat
        } else {
            28nat
        }),
        days_in(year, 1) + days_in(year, 2) + days_in(year, 3) + days_in(year, 4) + days_in(year, 5) + days_in(year, 6)
            + days_in(year, 7) + days_in(year, 8) + days_in(year, 9) + days_in(year, 10) + days_in(year, 11) + days_in(
            year,
            12,
        ) == 337 + days_in(year, 2),
{
}


/// A `YYYY-MM-DD` text is a calendar date exactly when its month is one of
/// the twelve and its day one the month has that year.
pub proof fn lemma_iso_date_parts(y: Seq<char>, m: Seq<char>, d: Seq<char>)
    requires
        y.len() == 4 && m.len() == 2 && d.len() == 2,
        all_digits(y) && all_digits(m) && all_digits(d),
    ensures
        iso_date_spec(y + seq!['-'] + m + seq!['-'] + d) == {
            let month = digits_value(m, 10)->0;
            let day = digits_value(d, 10)->0;
            1 <= month <= 12 && 1 <= day <= days_in(digits_value(y, 10)->0, month)
        },
{
    assert(!y.contains('-')) by {
        if y.contains('-') {
            let i = choose|i: int| 0 <= i < y.len() && y[i] == '-';
            assert('0' <= y[i] <= '9');
        }
    }
    assert(!m.contains('-')) by {
        if m.contains('-') {
            let i = choose|i: int| 0 <= i < m.len() && m[i] == '-';
            assert('0' <= m[i] <= '9');
        }
    }
    assert(!d.contains('-')) by {
        if d.contains('-') {
            let i = choose|i: int| 0 <= i < d.len() && d[i] == '-';
            assert('0' <= d[i] <= '9');
        }
    }
    crate::text::lemma_split_whole(y, '-');
    crate::text::lemma_split_whole(m, '-');
    crate::text::lemma_split_whole(d, '-');
    crate::text::lemma_split_join(m, '-', d);
    crate::text::lemma_split_join(y, '-', m + seq!['-'] + d);
    assert(y + seq!['-'] + m + seq!['-'] + d =~= y + seq!['-'] + (m + seq!['-'] + d));
    assert(split_spec(y + seq!['-'] + m + seq!['-'] + d, '-') =~= seq![y, m, d]);
}

proof fn lemma_two_digits(a: char, b: char)
    requires
        '0' <= a <= '9' && '0' <= b <= '9',
    ensures
        digits_value(seq![a, b], 10) == Some(((a as int - '0' as int) * 10 + (b as int - '0' as int)) as nat),
{
    let s = seq![a, b];
    assert(s.drop_last() =~= seq![a]);
    assert(seq![a].drop_last() =~= Seq::<char>::empty());
    assert(digits_value(Seq::<char>::empty(), 10) == Some(0nat));
    assert(crate::markdown::mermaid::digit_value(a, 10) == Some((a as int - '0' as int) as nat));
    assert(crate::markdown::mermaid::digit_value(b, 10) == Some((b as int - '0' as int) as nat));
    assert(digits_value(seq![a], 10) == Some((a as int - '0' as int) as nat));
    assert(s.last() == b);
}

/// The thirtieth of June is a calendar date in every year.
pub proof fn lemma_june_thirtieth(y: Seq<char>)
    requires
        y.len() == 4,
        all_digits(y),
    ensures
        iso_date_spec(y + "-06-30"@),
{
    reveal_strlit("-06-30");
    let m = seq!['0', '6'];
    let d = seq!['3', '0'];
    assert(y + "-06-30"@ =~= y + seq!['-'] + m + seq!['-'] + d);
    lemma_two_digits('0', '6');
    lemma_two_digits('3', '0');
    lemma_iso_date_parts(y, m, d);
    lemma_gregorian_months(digits_value(y, 10)->0);
}

} // verus!
