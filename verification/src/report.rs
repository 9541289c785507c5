//! What every validator reports, and how.
//!
//! One type, shared. A finding means the same thing whichever validator
//! produced it, prints the same way, and maps to the same exit code.
//! Every line carries its command category in square brackets.
use crate::cli::Format;
use crate::text::{
    chars_of, decimal, decimal_spec, extend, extend_str, join_spec, lex_le, lex_lt, less, quote,
    quote_spec, same, sort, sorted, string_of, views,
};
use crate::Outcome;
use vstd::prelude::*;

verus! {

/// A measured value attached to a finding.
#[derive(Debug)]
pub enum Detail {
    Text(String),
    Count(usize),
}

/// What a detail holds, as a reader sees it.
pub ghost enum DetailView {
    Text(Seq<char>),
    Count(nat),
}

impl View for Detail {
    type V = DetailView;

    open spec fn view(&self) -> DetailView {
        match self {
            Detail::Text(s) => DetailView::Text(s@),
            Detail::Count(n) => DetailView::Count(*n as nat),
        }
    }
}

/// How a detail value is printed.
pub open spec fn detail_text(d: DetailView) -> Seq<char> {
    match d {
        DetailView::Text(s) => s,
        DetailView::Count(n) => decimal_spec(n),
    }
}

impl Detail {
    /// The detail as it is printed.
    pub fn render(&self) -> (r: String)
        ensures
            r@ == detail_text(self@),
    {
        match self {
            Detail::Text(s) => s.clone(),
            Detail::Count(n) => string_of(&decimal(*n)),
        }
    }
}

/// One thing a validator found wrong.
#[derive(Debug)]
pub struct Finding {
    /// A stable identifier for the rule, not prose.
    pub kind: &'static str,
    /// Repository-relative, so output does not depend on where the tool ran.
    pub path: String,
    pub line: Option<usize>,
    /// Set only by the structural validators; its presence selects the
    /// `path:line:column rule field message` format.
    pub column: Option<usize>,
    /// The metadata field a structural finding is about, when it is about one.
    pub field: Option<String>,
    pub message: String,
    /// Ordered, because the order is what a reader sees.
    pub details: Vec<(&'static str, Detail)>,
}

/// A finding as plain values.
pub ghost struct FindingView {
    pub kind: Seq<char>,
    pub path: Seq<char>,
    pub line: Option<nat>,
    pub column: Option<nat>,
    pub field: Option<Seq<char>>,
    pub message: Seq<char>,
    pub details: Seq<(Seq<char>, DetailView)>,
}

pub open spec fn opt_nat(o: Option<usize>) -> Option<nat> {
    match o {
        Some(n) => Some(n as nat),
        None => None,
    }
}

pub open spec fn opt_text(o: Option<String>) -> Option<Seq<char>> {
    match o {
        Some(s) => Some(s@),
        None => None,
    }
}

pub open spec fn detail_views(d: Seq<(&'static str, Detail)>) -> Seq<(Seq<char>, DetailView)> {
    Seq::new(d.len(), |i: int| (d[i].0@, d[i].1@))
}

impl View for Finding {
    type V = FindingView;

    open spec fn view(&self) -> FindingView {
        FindingView {
            kind: self.kind@,
            path: self.path@,
            line: opt_nat(self.line),
            column: opt_nat(self.column),
            field: opt_text(self.field),
            message: self.message@,
            details: detail_views(self.details@),
        }
    }
}

/// ` (key=value, key=value)`, or nothing when there are no details.
pub open spec fn details_suffix(d: Seq<(Seq<char>, DetailView)>) -> Seq<char> {
    if d.len() == 0 {
        Seq::<char>::empty()
    } else {
        " ("@ + join_spec(
            Seq::new(d.len(), |i: int| d[i].0 + "="@ + detail_text(d[i].1)),
            ", "@,
        ) + ")"@
    }
}

/// The line a finding prints as, under a category.
pub open spec fn finding_line(f: FindingView, category: Seq<char>) -> Seq<char> {
    let details = details_suffix(f.details);
    match f.column {
        Some(column) => {
            let line = match f.line {
                Some(l) => l,
                None => 1,
            };
            let field = match f.field {
                Some(x) => " "@ + x,
                None => Seq::<char>::empty(),
            };
            "["@ + category + "] "@ + f.path + ":"@ + decimal_spec(line) + ":"@ + decimal_spec(
                column,
            ) + " "@ + f.kind + field + " "@ + f.message + details + "\n"@
        },
        None => {
            let position = match f.line {
                Some(l) => f.path + ":"@ + decimal_spec(l),
                None => f.path,
            };
            "["@ + category + "] "@ + position + ": "@ + f.message + details + "\n"@
        },
    }
}

fn push_details(out: &mut Vec<char>, details: &Vec<(&'static str, Detail)>)
    ensures
        final(out)@ == old(out)@ + details_suffix(detail_views(details@)),
{
    if details.len() == 0 {
        assert(old(out)@ + details_suffix(detail_views(details@)) =~= old(out)@);
        return;
    }
    let ghost d = detail_views(details@);
    let ghost pieces = Seq::new(d.len(), |i: int| d[i].0 + "="@ + detail_text(d[i].1));
    let mut joined: Vec<char> = Vec::new();
    let mut i: usize = 0;
    while i < details.len()
        invariant
            i <= details.len(),
            d == detail_views(details@),
            pieces == Seq::new(d.len(), |i: int| d[i].0 + "="@ + detail_text(d[i].1)),
            joined@ == join_spec(pieces.take(i as int), ", "@),
        decreases details.len() - i,
    {
        assert(pieces.take(i + 1).drop_last() =~= pieces.take(i as int));
        if i > 0 {
            extend_str(&mut joined, ", ");
        } else {
            assert(joined@ =~= Seq::<char>::empty());
        }
        let (key, value) = &details[i];
        extend_str(&mut joined, key);
        extend_str(&mut joined, "=");
        let v = value.render();
        extend_str(&mut joined, v.as_str());
        i += 1;
        proof {
            assert(pieces[i - 1] == d[i - 1].0 + "="@ + detail_text(d[i - 1].1));
            if i == 1 {
                assert(joined@ =~= join_spec(pieces.take(i as int), ", "@));
            } else {
                assert(joined@ =~= join_spec(pieces.take(i as int), ", "@));
            }
        }
    }
    assert(pieces.take(details.len() as int) =~= pieces);
    extend_str(out, " (");
    extend(out, &joined);
    extend_str(out, ")");
}

impl Finding {
    pub fn new(kind: &'static str, path: &str, message: &str) -> (r: Finding)
        ensures
            r@ == (FindingView {
                kind: kind@,
                path: path@,
                line: None,
                column: None,
                field: None,
                message: message@,
                details: Seq::empty(),
            }),
    {
        let r = Finding {
            kind,
            path: path.to_string(),
            line: None,
            column: None,
            field: None,
            message: message.to_string(),
            details: Vec::new(),
        };
        assert(detail_views(r.details@) =~= Seq::empty());
        r
    }

    /// Attach the document a finding was made in.
    pub fn rename(self, path: &str) -> (r: Finding)
        ensures
            r@ == (FindingView { path: path@, ..self@ }),
    {
        let mut f = self;
        f.path = path.to_string();
        f
    }

    /// Attach a measured value, in the order it should be read.
    pub fn with(self, key: &'static str, value: Detail) -> (r: Finding)
        ensures
            r@ == (FindingView { details: self@.details.push((key@, value@)), ..self@ }),
    {
        let mut f = self;
        f.details.push((key, value));
        assert(detail_views(f.details@) =~= self@.details.push((key@, value@)));
        f
    }

    pub fn at_line(self, line: usize) -> (r: Finding)
        ensures
            r@ == (FindingView { line: Some(line as nat), ..self@ }),
    {
        let mut f = self;
        f.line = Some(line);
        f
    }

    /// Place a structural finding, which selects the structural format.
    pub fn at(self, line: usize, column: usize) -> (r: Finding)
        ensures
            r@ == (FindingView { line: Some(line as nat), column: Some(column as nat), ..self@ }),
    {
        let mut f = self;
        f.line = Some(line);
        f.column = Some(column);
        f
    }

    /// Name the field a structural finding is about.
    pub fn about(self, field: &str) -> (r: Finding)
        ensures
            r@ == (FindingView { field: Some(field@), ..self@ }),
    {
        let mut f = self;
        f.field = Some(field.to_string());
        f
    }

    fn render(&self, category: &str) -> (r: Vec<char>)
        ensures
            r@ == finding_line(self@, category@),
    {
        let mut out: Vec<char> = Vec::new();
        extend_str(&mut out, "[");
        extend_str(&mut out, category);
        extend_str(&mut out, "] ");
        extend_str(&mut out, self.path.as_str());
        match self.column {
            Some(column) => {
                let line = match self.line {
                    Some(l) => l,
                    None => 1,
                };
                extend_str(&mut out, ":");
                extend(&mut out, &decimal(line));
                extend_str(&mut out, ":");
                extend(&mut out, &decimal(column));
                extend_str(&mut out, " ");
                extend_str(&mut out, self.kind);
                match &self.field {
                    Some(field) => {
                        extend_str(&mut out, " ");
                        extend_str(&mut out, field.as_str());
                    },
                    None => {},
                }
                extend_str(&mut out, " ");
                extend_str(&mut out, self.message.as_str());
            },
            None => {
                match self.line {
                    Some(l) => {
                        extend_str(&mut out, ":");
                        extend(&mut out, &decimal(l));
                    },
                    None => {},
                }
                extend_str(&mut out, ": ");
                extend_str(&mut out, self.message.as_str());
            },
        }
        push_details(&mut out, &self.details);
        extend_str(&mut out, "\n");
        proof {
            let f = self@;
            assert(out@ =~= finding_line(f, category@));
        }
        out
    }
}

} // verus!

verus! {

/// The order findings are reported in: path, line, column, rule, field.
pub open spec fn key(f: FindingView) -> (Seq<char>, Option<nat>, Option<nat>, Seq<char>, Option<Seq<char>>) {
    (f.path, f.line, f.column, f.kind, f.field)
}

/// `None` before every `Some`, as `Option` orders.
pub open spec fn opt_lt(a: Option<nat>, b: Option<nat>) -> bool {
    match (a, b) {
        (None, Some(_)) => true,
        (Some(x), Some(y)) => x < y,
        _ => false,
    }
}

pub open spec fn opt_text_lt(a: Option<Seq<char>>, b: Option<Seq<char>>) -> bool {
    match (a, b) {
        (None, Some(_)) => true,
        (Some(x), Some(y)) => lex_lt(x, y),
        _ => false,
    }
}

pub open spec fn key_lt(f: FindingView, g: FindingView) -> bool {
    ||| lex_lt(f.path, g.path)
    ||| f.path == g.path && opt_lt(f.line, g.line)
    ||| f.path == g.path && f.line == g.line && opt_lt(f.column, g.column)
    ||| f.path == g.path && f.line == g.line && f.column == g.column && lex_lt(f.kind, g.kind)
    ||| f.path == g.path && f.line == g.line && f.column == g.column && f.kind == g.kind
        && opt_text_lt(f.field, g.field)
}

pub open spec fn key_le(f: FindingView, g: FindingView) -> bool {
    key(f) == key(g) || key_lt(f, g)
}

/// Findings in key order.
pub open spec fn key_sorted(s: Seq<FindingView>) -> bool {
    forall|i: int, j: int| 0 <= i < j < s.len() ==> key_le(s[i], s[j])
}

proof fn lemma_key_total(f: FindingView, g: FindingView)
    ensures
        key_lt(f, g) || key(f) == key(g) || key_lt(g, f),
        !(key_lt(f, g) && key_lt(g, f)),
        !key_lt(f, f),
{
    crate::text::lemma_lex_total(f.path, g.path);
    crate::text::lemma_lex_total(f.kind, g.kind);
    crate::text::lemma_lex_total(f.path, f.path);
    crate::text::lemma_lex_total(f.kind, f.kind);
    match (f.field, g.field) {
        (Some(x), Some(y)) => {
            crate::text::lemma_lex_total(x, y);
            crate::text::lemma_lex_total(x, x);
        },
        (Some(x), None) => {
            crate::text::lemma_lex_total(x, x);
        },
        _ => {},
    }
}

proof fn lemma_key_trans(f: FindingView, g: FindingView, h: FindingView)
    requires
        key_lt(f, g),
        key_lt(g, h),
    ensures
        key_lt(f, h),
{
    if lex_lt(f.path, g.path) && lex_lt(g.path, h.path) {
        crate::text::lemma_lex_trans(f.path, g.path, h.path);
    }
    if lex_lt(f.kind, g.kind) && lex_lt(g.kind, h.kind) {
        crate::text::lemma_lex_trans(f.kind, g.kind, h.kind);
    }
    match (f.field, g.field, h.field) {
        (Some(x), Some(y), Some(z)) => {
            if lex_lt(x, y) && lex_lt(y, z) {
                crate::text::lemma_lex_trans(x, y, z);
            }
        },
        _ => {},
    }
}

fn opt_less(a: Option<usize>, b: Option<usize>) -> (r: bool)
    ensures
        r == opt_lt(opt_nat(a), opt_nat(b)),
{
    match (a, b) {
        (None, Some(_)) => true,
        (Some(x), Some(y)) => x < y,
        _ => false,
    }
}

fn opt_same(a: Option<usize>, b: Option<usize>) -> (r: bool)
    ensures
        r == (opt_nat(a) == opt_nat(b)),
{
    match (a, b) {
        (None, None) => true,
        (Some(x), Some(y)) => x == y,
        _ => false,
    }
}

fn field_less(a: &Option<String>, b: &Option<String>) -> (r: bool)
    ensures
        r == opt_text_lt(opt_text(*a), opt_text(*b)),
{
    match (a, b) {
        (None, Some(_)) => true,
        (Some(x), Some(y)) => less(&chars_of(x.as_str()), &chars_of(y.as_str())),
        _ => false,
    }
}

fn key_less(f: &Finding, g: &Finding) -> (r: bool)
    ensures
        r == key_lt(f@, g@),
{
    let fp = chars_of(f.path.as_str());
    let gp = chars_of(g.path.as_str());
    if less(&fp, &gp) {
        return true;
    }
    if !same(&fp, &gp) {
        return false;
    }
    if opt_less(f.line, g.line) {
        return true;
    }
    if !opt_same(f.line, g.line) {
        return false;
    }
    if opt_less(f.column, g.column) {
        return true;
    }
    if !opt_same(f.column, g.column) {
        return false;
    }
    let fk = chars_of(f.kind);
    let gk = chars_of(g.kind);
    if less(&fk, &gk) {
        return true;
    }
    if !same(&fk, &gk) {
        return false;
    }
    field_less(&f.field, &g.field)
}

pub open spec fn ref_views<'a>(s: Seq<&'a Finding>) -> Seq<FindingView> {
    Seq::new(s.len(), |i: int| s[i]@)
}

pub open spec fn finding_views(s: Seq<Finding>) -> Seq<FindingView> {
    Seq::new(s.len(), |i: int| s[i]@)
}

/// The findings, as references, in key order. Equal keys keep the order they
/// were found in.
fn by_key<'a>(findings: &'a Vec<Finding>) -> (r: Vec<&'a Finding>)
    ensures
        key_sorted(ref_views(r@)),
        ref_views(r@).to_multiset() == finding_views(findings@).to_multiset(),
{
    broadcast use vstd::seq_lib::group_to_multiset_ensures;

    let mut out: Vec<&'a Finding> = Vec::new();
    let mut i: usize = 0;
    while i < findings.len()
        invariant
            i <= findings.len(),
            key_sorted(ref_views(out@)),
            ref_views(out@).to_multiset() == finding_views(findings@).take(
                i as int,
            ).to_multiset(),
        decreases findings.len() - i,
    {
        let x: &'a Finding = &findings[i];
        let mut k: usize = 0;
        while k < out.len() && !key_less(x, out[k])
            invariant
                k <= out.len(),
                forall|j: int| 0 <= j < k ==> !key_lt(x@, #[trigger] ref_views(out@)[j]),
            decreases out.len() - k,
        {
            k += 1;
        }
        let ghost before = ref_views(out@);
        out.insert(k, x);
        proof {
            assert(ref_views(out@) =~= before.insert(k as int, x@));
            assert forall|a: int, b: int| 0 <= a < b < ref_views(out@).len() implies key_le(
                ref_views(out@)[a],
                ref_views(out@)[b],
            ) by {
                let s = ref_views(out@);
                if b < k {
                    assert(s[a] == before[a] && s[b] == before[b]);
                } else if a > k {
                    assert(s[a] == before[a - 1] && s[b] == before[b - 1]);
                } else if a == k {
                    assert(key_lt(x@, before[k as int]));
                    if b - 1 > k {
                        assert(key_le(before[k as int], before[b - 1]));
                        if key(before[k as int]) != key(before[b - 1]) {
                            lemma_key_trans(x@, before[k as int], before[b - 1]);
                        }
                    }
                } else {
                    assert(s[a] == before[a]);
                    assert(!key_lt(x@, before[a]));
                    lemma_key_total(x@, before[a]);
                }
            }
            assert(finding_views(findings@).take(i + 1) =~= finding_views(findings@).take(
                i as int,
            ).push(x@));
            vstd::seq_lib::to_multiset_insert(before, k as int, x@);
            vstd::seq_lib::to_multiset_build(finding_views(findings@).take(i as int), x@);
        }
        i += 1;
    }
    assert(finding_views(findings@).take(findings.len() as int) =~= finding_views(findings@));
    out
}

} // verus!

verus! {

/// The result of one validator run.
pub struct Report {
    category: &'static str,
    /// What was looked at, singular: `file`, `diagram`, `link`.
    subject: &'static str,
    inspected: usize,
    /// The paths that were looked at, when the thing inspected has one.
    scanned: Vec<String>,
    notes: Vec<String>,
    /// Named quantities a leaf establishes about the whole run.
    measurements: Vec<(&'static str, usize)>,
    findings: Vec<Finding>,
    /// Set when the run could not happen at all.
    refusal: Option<String>,
}

/// A report as plain values.
pub ghost struct ReportView {
    pub category: Seq<char>,
    pub subject: Seq<char>,
    pub inspected: nat,
    pub scanned: Seq<Seq<char>>,
    pub notes: Seq<Seq<char>>,
    pub measurements: Seq<(Seq<char>, nat)>,
    pub findings: Seq<FindingView>,
    pub refusal: Option<Seq<char>>,
}

pub open spec fn string_views(s: Seq<String>) -> Seq<Seq<char>> {
    Seq::new(s.len(), |i: int| s[i]@)
}

pub open spec fn measurement_views(s: Seq<(&'static str, usize)>) -> Seq<(Seq<char>, nat)> {
    Seq::new(s.len(), |i: int| (s[i].0@, s[i].1 as nat))
}

impl View for Report {
    type V = ReportView;

    closed spec fn view(&self) -> ReportView {
        ReportView {
            category: self.category@,
            subject: self.subject@,
            inspected: self.inspected as nat,
            scanned: string_views(self.scanned@),
            notes: string_views(self.notes@),
            measurements: measurement_views(self.measurements@),
            findings: finding_views(self.findings@),
            refusal: opt_text(self.refusal),
        }
    }
}

/// `subject` counted `count` times: `directory` becomes `directories`, and
/// `harness` becomes `harnesses`.
pub open spec fn plural_spec(subject: Seq<char>, count: nat) -> Seq<char> {
    if count == 1 {
        subject
    } else if subject.len() > 0 && subject.last() == 'y' {
        subject.drop_last() + "ies"@
    } else if subject.len() > 0 && subject.last() == 's' {
        subject + "es"@
    } else {
        subject + "s"@
    }
}

pub open spec fn tally_spec(n: nat) -> Seq<char> {
    if n == 0 {
        "no findings"@
    } else if n == 1 {
        "1 finding"@
    } else {
        decimal_spec(n) + " findings"@
    }
}

/// One `[category] ...` line per item.
pub open spec fn prefixed(category: Seq<char>, lead: Seq<char>, items: Seq<Seq<char>>) -> Seq<char> {
    join_spec(Seq::new(items.len(), |i: int| "["@ + category + "] "@ + lead + items[i] + "\n"@), Seq::empty())
}

/// The text summary a clean or failing run prints, given its scanned paths
/// in the order they are listed.
pub open spec fn summary_spec(v: ReportView, scanned: Seq<Seq<char>>) -> Seq<char> {
    "["@ + v.category + "] checked "@ + decimal_spec(v.inspected) + " "@ + plural_spec(
        v.subject,
        v.inspected,
    ) + ", "@ + tally_spec(v.findings.len()) + "\n"@ + prefixed(v.category, Seq::empty(), v.notes)
        + prefixed(v.category, "scanned "@, scanned)
}

/// Whether every finding is structural, which selects key order in text.
pub open spec fn structural(v: ReportView) -> bool {
    v.findings.len() > 0 && forall|i: int| 0 <= i < v.findings.len() ==> v.findings[i].column is Some
}

pub open spec fn lines_of_findings(category: Seq<char>, fs: Seq<FindingView>) -> Seq<Seq<char>> {
    Seq::new(fs.len(), |i: int| finding_line(fs[i], category))
}

/// One JSON member of a finding's object.
pub open spec fn detail_member(d: (Seq<char>, DetailView)) -> Seq<char> {
    match d.1 {
        DetailView::Count(n) => quote_spec(d.0) + ":"@ + decimal_spec(n),
        DetailView::Text(t) => quote_spec(d.0) + ":"@ + quote_spec(t),
    }
}

pub open spec fn violation_members(f: FindingView) -> Seq<Seq<char>> {
    let base = seq![
        "\"kind\":"@ + quote_spec(f.kind),
        "\"path\":"@ + quote_spec(f.path),
        "\"message\":"@ + quote_spec(f.message),
    ];
    let with_line = match f.line {
        Some(l) => base.push("\"line\":"@ + decimal_spec(l)),
        None => base,
    };
    let with_column = match f.column {
        Some(c) => with_line.push("\"column\":"@ + decimal_spec(c)),
        None => with_line,
    };
    let with_field = match f.field {
        Some(x) => with_column.push("\"field\":"@ + quote_spec(x)),
        None => with_column,
    };
    with_field + Seq::new(f.details.len(), |i: int| detail_member(f.details[i]))
}

pub open spec fn violation_spec(f: FindingView) -> Seq<char> {
    "{"@ + join_spec(violation_members(f), ","@) + "}"@
}

pub open spec fn quoted_list(items: Seq<Seq<char>>) -> Seq<char> {
    join_spec(Seq::new(items.len(), |i: int| quote_spec(items[i])), ","@)
}

/// The exit code of a run that was not refused: `1` when it found
/// something, else `0`.
pub open spec fn exit_of(v: ReportView) -> nat {
    if v.findings.len() > 0 {
        1
    } else {
        0
    }
}

/// The one-line JSON document a run renders, given its scanned paths and its
/// findings in the order they are listed.
pub open spec fn json_spec(v: ReportView, scanned: Seq<Seq<char>>, fs: Seq<FindingView>) -> Seq<char> {
    "{\"schemaVersion\":1,\"command\":"@ + quote_spec(v.category) + ",\"exitCode\":"@
        + decimal_spec(exit_of(v)) + ",\"subject\":"@ + quote_spec(v.subject) + ",\"inspected\":"@
        + decimal_spec(v.inspected) + ",\"scanned\":["@ + quoted_list(scanned) + "],\"notes\":["@
        + quoted_list(v.notes) + "],\"violations\":["@ + join_spec(
        Seq::new(fs.len(), |i: int| violation_spec(fs[i])),
        ","@,
    ) + "]"@ + join_spec(
        Seq::new(
            v.measurements.len(),
            |i: int| ","@ + quote_spec(v.measurements[i].0) + ":"@ + decimal_spec(v.measurements[i].1),
        ),
        Seq::empty(),
    ) + "}\n"@
}

/// What `render` gives back for a report, in a format.
pub open spec fn rendered(v: ReportView, format: Format, out: Outcome) -> bool {
    match v.refusal {
        Some(reason) => {
            &&& out.exit_code == 2
            &&& out.stdout@ == Seq::<char>::empty()
            &&& out.stderr@ == "["@ + v.category + "] "@ + reason + "\n"@
        },
        None => {
            &&& out.exit_code == (if v.findings.len() > 0 {
                1u8
            } else {
                0u8
            })
            &&& exists|ss: Seq<Seq<char>>|
                {
                    &&& #[trigger] sorted(ss)
                    &&& ss.to_multiset() == v.scanned.to_multiset()
                    &&& match format {
                        Format::Text => {
                            &&& out.stdout@ == summary_spec(v, ss)
                            &&& if structural(v) {
                                exists|fs: Seq<FindingView>|
                                    #[trigger] key_sorted(fs) && fs.to_multiset()
                                        == v.findings.to_multiset() && out.stderr@ == join_spec(
                                        lines_of_findings(v.category, fs),
                                        Seq::empty(),
                                    )
                            } else {
                                exists|ls: Seq<Seq<char>>|
                                    #[trigger] sorted(ls) && ls.to_multiset() == lines_of_findings(
                                        v.category,
                                        v.findings,
                                    ).to_multiset() && out.stderr@ == join_spec(ls, Seq::empty())
                            }
                        },
                        Format::Json => {
                            &&& out.stderr@ == Seq::<char>::empty()
                            &&& exists|fs: Seq<FindingView>|
                                #[trigger] key_sorted(fs) && fs.to_multiset()
                                    == v.findings.to_multiset() && out.stdout@ == json_spec(
                                    v,
                                    ss,
                                    fs,
                                )
                        },
                    }
                }
        },
    }
}

/// Texts sorted in ascending order with the same elements are the same.
proof fn lemma_texts_sorted_unique(x: Seq<Seq<char>>, y: Seq<Seq<char>>)
    requires
        sorted(x),
        sorted(y),
        x.to_multiset() == y.to_multiset(),
    ensures
        x == y,
{
    let leq = |a: Seq<char>, b: Seq<char>| lex_le(a, b);
    assert(vstd::relations::total_ordering(leq)) by {
        assert forall|a: Seq<char>, b: Seq<char>| #[trigger] leq(a, b) && #[trigger] leq(b, a) implies a == b by {
            crate::text::lemma_lex_total(a, b);
        }
        assert forall|a: Seq<char>, b: Seq<char>, c: Seq<char>| #[trigger] leq(a, b) && #[trigger] leq(b, c) implies leq(
            a,
            c,
        ) by {
            if a != b && b != c {
                crate::text::lemma_lex_trans(a, b, c);
            }
        }
        assert forall|a: Seq<char>, b: Seq<char>| #[trigger] leq(a, b) || #[trigger] leq(b, a) by {
            crate::text::lemma_lex_total(a, b);
        }
    }
    assert(vstd::relations::sorted_by(x, leq));
    assert(vstd::relations::sorted_by(y, leq));
    vstd::seq_lib::lemma_sorted_unique(x, y, leq);
}

/// Findings in key order, no two sharing a key, with the same elements are
/// the same sequence.
proof fn lemma_findings_sorted_unique(x: Seq<FindingView>, y: Seq<FindingView>)
    requires
        key_sorted(x),
        key_sorted(y),
        x.to_multiset() == y.to_multiset(),
        forall|i: int, j: int| 0 <= i < j < x.len() ==> key(#[trigger] x[i]) != key(#[trigger] x[j]),
    ensures
        x == y,
    decreases x.len(),
{
    broadcast use vstd::multiset::group_multiset_axioms;
    broadcast use vstd::seq_lib::group_to_multiset_ensures;

    if x.len() == 0 || y.len() == 0 {
        assert(x.len() == y.len());
        assert(x =~= y);
    } else {
        assert(x.to_multiset().contains(y[0]));
        assert(y.to_multiset().contains(x[0]));
        let i = choose|i: int| 0 <= i < x.len() && x[i] == y[0];
        let k = choose|k: int| 0 <= k < y.len() && y[k] == x[0];
        lemma_key_total(x[0], x[i]);
        if i != 0 {
            assert(key_le(x[0], x[i]));
            assert(key_le(y[0], y[k]));
            assert(key(x[0]) == key(x[i]));
            assert(false);
        }
        assert(x[0] == y[0]);
        assert(x.drop_first() =~= x.remove(0));
        assert(y.drop_first() =~= y.remove(0));
        assert(x.remove(0).to_multiset() =~= x.to_multiset().remove(x[0]));
        assert(y.remove(0).to_multiset() =~= y.to_multiset().remove(y[0]));
        assert forall|a: int, b: int| 0 <= a < b < x.drop_first().len() implies key(#[trigger] x.drop_first()[a]) != key(
            #[trigger] x.drop_first()[b],
        ) by {
            assert(x.drop_first()[a] == x[a + 1]);
            assert(x.drop_first()[b] == x[b + 1]);
        }
        lemma_findings_sorted_unique(x.drop_first(), y.drop_first());
        assert(x =~= seq![x[0]] + x.drop_first());
        assert(y =~= seq![y[0]] + y.drop_first());
    }
}

/// Mapping every element the same way keeps two sequences with the same
/// elements with the same elements.
proof fn lemma_map_multiset<A, B>(x: Seq<A>, y: Seq<A>, f: spec_fn(A) -> B)
    requires
        x.to_multiset() == y.to_multiset(),
    ensures
        x.map_values(f).to_multiset() == y.map_values(f).to_multiset(),
    decreases x.len(),
{
    broadcast use vstd::multiset::group_multiset_axioms;
    broadcast use vstd::seq_lib::group_to_multiset_ensures;

    x.to_multiset_ensures();
    y.to_multiset_ensures();
    assert(x.to_multiset().len() == y.to_multiset().len());
    if x.len() == 0 {
        assert(y.len() == 0);
        assert(x.map_values(f) =~= y.map_values(f));
    } else {
        assert(y.to_multiset().contains(x[0]));
        let i = choose|i: int| 0 <= i < y.len() && y[i] == x[0];
        let y2 = y.remove(i);
        assert(y2.to_multiset() =~= y.to_multiset().remove(y[i]));
        assert(x.drop_first() =~= x.remove(0));
        assert(x.remove(0).to_multiset() =~= x.to_multiset().remove(x[0]));
        lemma_map_multiset(x.drop_first(), y2, f);
        assert(y2.map_values(f) =~= y.map_values(f).remove(i));
        assert(y.map_values(f).remove(i).to_multiset() =~= y.map_values(f).to_multiset().remove(y.map_values(f)[i]));
        assert(x.drop_first().map_values(f) =~= x.map_values(f).drop_first());
        assert(x.map_values(f).drop_first() =~= x.map_values(f).remove(0));
        assert(x.map_values(f).remove(0).to_multiset() =~= x.map_values(f).to_multiset().remove(x.map_values(f)[0]));
        assert(x.map_values(f).to_multiset().contains(x.map_values(f)[0]));
        assert(y.map_values(f).to_multiset().contains(y.map_values(f)[i]));
        let xs = x.map_values(f);
        let ys = y.map_values(f);
        assert(xs[0] == ys[i]);
        assert(xs.to_multiset() =~= xs.to_multiset().remove(xs[0]).insert(xs[0]));
        assert(ys.to_multiset() =~= ys.to_multiset().remove(ys[i]).insert(ys[i]));
    }
}

/// Whether two reports record the same run: the same command, subject,
/// count, notes and measurements, no refusal, and the same scanned paths and
/// findings, each perhaps added in another order.
pub open spec fn same_run(a: ReportView, b: ReportView) -> bool {
    &&& a.category == b.category
    &&& a.subject == b.subject
    &&& a.inspected == b.inspected
    &&& a.notes == b.notes
    &&& a.measurements == b.measurements
    &&& a.refusal is None
    &&& b.refusal is None
    &&& a.scanned.to_multiset() == b.scanned.to_multiset()
    &&& a.findings.to_multiset() == b.findings.to_multiset()
}

/// The order findings and scanned paths were added in does not show: two
/// reports of the same run, whose findings share no key, render alike in
/// either format.
pub proof fn lemma_render_order_free(a: ReportView, b: ReportView, format: Format, oa: Outcome, ob: Outcome)
    requires
        same_run(a, b),
        forall|i: int, j: int| 0 <= i < j < a.findings.len() ==> key(#[trigger] a.findings[i]) != key(#[trigger] a.findings[j]),
        rendered(a, format, oa),
        rendered(b, format, ob),
    ensures
        oa.exit_code == ob.exit_code,
        oa.stdout@ == ob.stdout@,
        oa.stderr@ == ob.stderr@,
{
    broadcast use vstd::seq_lib::group_to_multiset_ensures;

    assert(a.findings.len() == b.findings.len()) by {
        assert(a.findings.len() == a.findings.to_multiset().len());
        assert(b.findings.len() == b.findings.to_multiset().len());
    }
    let ssa = choose|ss: Seq<Seq<char>>|
        {
            &&& #[trigger] sorted(ss)
            &&& ss.to_multiset() == a.scanned.to_multiset()
            &&& match format {
                Format::Text => {
                    &&& oa.stdout@ == summary_spec(a, ss)
                    &&& if structural(a) {
                        exists|fs: Seq<FindingView>|
                            #[trigger] key_sorted(fs) && fs.to_multiset() == a.findings.to_multiset() && oa.stderr@ == join_spec(
                                lines_of_findings(a.category, fs),
                                Seq::empty(),
                            )
                    } else {
                        exists|ls: Seq<Seq<char>>|
                            #[trigger] sorted(ls) && ls.to_multiset() == lines_of_findings(a.category, a.findings).to_multiset()
                                && oa.stderr@ == join_spec(ls, Seq::empty())
                    }
                },
                Format::Json => {
                    &&& oa.stderr@ == Seq::<char>::empty()
                    &&& exists|fs: Seq<FindingView>|
                        #[trigger] key_sorted(fs) && fs.to_multiset() == a.findings.to_multiset() && oa.stdout@ == json_spec(a, ss, fs)
                },
            }
        };
    let ssb = choose|ss: Seq<Seq<char>>|
        {
            &&& #[trigger] sorted(ss)
            &&& ss.to_multiset() == b.scanned.to_multiset()
            &&& match format {
                Format::Text => {
                    &&& ob.stdout@ == summary_spec(b, ss)
                    &&& if structural(b) {
                        exists|fs: Seq<FindingView>|
                            #[trigger] key_sorted(fs) && fs.to_multiset() == b.findings.to_multiset() && ob.stderr@ == join_spec(
                                lines_of_findings(b.category, fs),
                                Seq::empty(),
                            )
                    } else {
                        exists|ls: Seq<Seq<char>>|
                            #[trigger] sorted(ls) && ls.to_multiset() == lines_of_findings(b.category, b.findings).to_multiset()
                                && ob.stderr@ == join_spec(ls, Seq::empty())
                    }
                },
                Format::Json => {
                    &&& ob.stderr@ == Seq::<char>::empty()
                    &&& exists|fs: Seq<FindingView>|
                        #[trigger] key_sorted(fs) && fs.to_multiset() == b.findings.to_multiset() && ob.stdout@ == json_spec(b, ss, fs)
                },
            }
        };
    lemma_texts_sorted_unique(ssa, ssb);
    match format {
        Format::Text => {
            assert(summary_spec(a, ssa) == summary_spec(b, ssb));
            assert(structural(a) == structural(b)) by {
                if structural(a) {
                    assert forall|i: int| 0 <= i < b.findings.len() implies b.findings[i].column is Some by {
                        assert(b.findings.to_multiset().count(b.findings[i]) > 0);
                        assert(a.findings.contains(b.findings[i]));
                    }
                }
                if structural(b) {
                    assert forall|i: int| 0 <= i < a.findings.len() implies a.findings[i].column is Some by {
                        assert(a.findings.to_multiset().count(a.findings[i]) > 0);
                        assert(b.findings.contains(a.findings[i]));
                    }
                }
            }
            if structural(a) {
                let fa = choose|fs: Seq<FindingView>|
                    #[trigger] key_sorted(fs) && fs.to_multiset() == a.findings.to_multiset() && oa.stderr@ == join_spec(
                        lines_of_findings(a.category, fs),
                        Seq::empty(),
                    );
                let fb = choose|fs: Seq<FindingView>|
                    #[trigger] key_sorted(fs) && fs.to_multiset() == b.findings.to_multiset() && ob.stderr@ == join_spec(
                        lines_of_findings(b.category, fs),
                        Seq::empty(),
                    );
                lemma_distinct_keys_carry(a.findings, fa);
                lemma_findings_sorted_unique(fa, fb);
            } else {
                let la = choose|ls: Seq<Seq<char>>|
                    #[trigger] sorted(ls) && ls.to_multiset() == lines_of_findings(a.category, a.findings).to_multiset()
                        && oa.stderr@ == join_spec(ls, Seq::empty());
                let lb = choose|ls: Seq<Seq<char>>|
                    #[trigger] sorted(ls) && ls.to_multiset() == lines_of_findings(b.category, b.findings).to_multiset()
                        && ob.stderr@ == join_spec(ls, Seq::empty());
                let f = |x: FindingView| finding_line(x, a.category);
                lemma_map_multiset(a.findings, b.findings, f);
                assert(lines_of_findings(a.category, a.findings) =~= a.findings.map_values(f));
                assert(lines_of_findings(b.category, b.findings) =~= b.findings.map_values(f));
                lemma_texts_sorted_unique(la, lb);
            }
        },
        Format::Json => {
            let fa = choose|fs: Seq<FindingView>|
                #[trigger] key_sorted(fs) && fs.to_multiset() == a.findings.to_multiset() && oa.stdout@ == json_spec(a, ssa, fs);
            let fb = choose|fs: Seq<FindingView>|
                #[trigger] key_sorted(fs) && fs.to_multiset() == b.findings.to_multiset() && ob.stdout@ == json_spec(b, ssb, fs);
            lemma_distinct_keys_carry(a.findings, fa);
            lemma_findings_sorted_unique(fa, fb);
            assert(exit_of(a) == exit_of(b));
        },
    }
}

/// A reordering of findings that share no key shares no key either.
proof fn lemma_distinct_keys_carry(x: Seq<FindingView>, y: Seq<FindingView>)
    requires
        x.to_multiset() == y.to_multiset(),
        forall|i: int, j: int| 0 <= i < j < x.len() ==> key(#[trigger] x[i]) != key(#[trigger] x[j]),
    ensures
        forall|i: int, j: int| 0 <= i < j < y.len() ==> key(#[trigger] y[i]) != key(#[trigger] y[j]),
{
    broadcast use vstd::multiset::group_multiset_axioms;
    broadcast use vstd::seq_lib::group_to_multiset_ensures;

    assert forall|i: int, j: int| 0 <= i < j < y.len() implies key(#[trigger] y[i]) != key(#[trigger] y[j]) by {
        if key(y[i]) == key(y[j]) {
            assert(x.to_multiset().contains(y[i]));
            assert(x.to_multiset().contains(y[j]));
            let a = choose|a: int| 0 <= a < x.len() && x[a] == y[i];
            let b = choose|b: int| 0 <= b < x.len() && x[b] == y[j];
            if a == b {
                let z = y.remove(j);
                assert(z.to_multiset() =~= y.to_multiset().remove(y[j]));
                assert(z[i] == y[i]);
                assert(z.contains(y[i]));
                assert(z.to_multiset().count(y[i]) > 0);
                let w = x.remove(a);
                assert(w.to_multiset() =~= x.to_multiset().remove(x[a]));
                assert(w.to_multiset() == z.to_multiset());
                assert(w.to_multiset().count(x[a]) > 0);
                assert(w.contains(x[a]));
                let c = choose|c: int| 0 <= c < w.len() && w[c] == x[a];
                if c < a {
                    assert(w[c] == x[c]);
                    assert(key(x[c]) == key(x[a]));
                } else {
                    assert(w[c] == x[c + 1]);
                    assert(key(x[a]) == key(x[c + 1]));
                }
            } else if a < b {
                assert(key(x[a]) != key(x[b]));
            } else {
                assert(key(x[b]) != key(x[a]));
            }
        }
    }
}

proof fn lemma_violation_nl_free(f: FindingView)
    ensures
        crate::text::nl_free(violation_spec(f)),
{
    broadcast use crate::text::lemma_nl_free_add;

    reveal_strlit("\"kind\":");
    reveal_strlit("\"path\":");
    reveal_strlit("\"message\":");
    reveal_strlit("\"line\":");
    reveal_strlit("\"column\":");
    reveal_strlit("\"field\":");
    reveal_strlit(":");
    reveal_strlit(",");
    reveal_strlit("{");
    reveal_strlit("}");
    crate::text::lemma_quote_nl_free(f.kind);
    crate::text::lemma_quote_nl_free(f.path);
    crate::text::lemma_quote_nl_free(f.message);
    match f.line {
        Some(l) => crate::text::lemma_decimal_nl_free(l),
        None => {},
    }
    match f.column {
        Some(c) => crate::text::lemma_decimal_nl_free(c),
        None => {},
    }
    match f.field {
        Some(x) => crate::text::lemma_quote_nl_free(x),
        None => {},
    }
    let ms = violation_members(f);
    assert forall|i: int| 0 <= i < ms.len() implies crate::text::nl_free(#[trigger] ms[i]) by {
        let k = ms.len() - f.details.len();
        if i >= k {
            let d = f.details[i - k];
            crate::text::lemma_quote_nl_free(d.0);
            match d.1 {
                DetailView::Count(n) => crate::text::lemma_decimal_nl_free(n),
                DetailView::Text(t) => crate::text::lemma_quote_nl_free(t),
            }
        }
    }
    crate::text::lemma_join_nl_free(ms, ","@);
}

proof fn lemma_json_literals_nl_free()
    ensures
        crate::text::nl_free("{\"schemaVersion\":1,\"command\":"@),
        crate::text::nl_free(",\"exitCode\":"@),
        crate::text::nl_free(",\"subject\":"@),
        crate::text::nl_free(",\"inspected\":"@),
        crate::text::nl_free(",\"scanned\":["@),
        crate::text::nl_free("],\"notes\":["@),
        crate::text::nl_free("],\"violations\":["@),
        crate::text::nl_free("]"@),
        crate::text::nl_free(","@),
        crate::text::nl_free(":"@),
{
    reveal_strlit("{\"schemaVersion\":1,\"command\":");
    reveal_strlit(",\"exitCode\":");
    reveal_strlit(",\"subject\":");
    reveal_strlit(",\"inspected\":");
    reveal_strlit(",\"scanned\":[");
    reveal_strlit("],\"notes\":[");
    reveal_strlit("],\"violations\":[");
    reveal_strlit("]");
    reveal_strlit(",");
    reveal_strlit(":");
}

proof fn lemma_json_parts_nl_free(v: ReportView, ss: Seq<Seq<char>>, fs: Seq<FindingView>)
    ensures
        crate::text::nl_free(quoted_list(ss)),
        crate::text::nl_free(quoted_list(v.notes)),
        crate::text::nl_free(join_spec(Seq::new(fs.len(), |i: int| violation_spec(fs[i])), ","@)),
        crate::text::nl_free(
            join_spec(
                Seq::new(
                    v.measurements.len(),
                    |i: int| ","@ + quote_spec(v.measurements[i].0) + ":"@ + decimal_spec(v.measurements[i].1),
                ),
                Seq::empty(),
            ),
        ),
{
    broadcast use crate::text::lemma_nl_free_add;

    lemma_json_literals_nl_free();
    let qs = Seq::new(ss.len(), |i: int| quote_spec(ss[i]));
    assert forall|i: int| 0 <= i < qs.len() implies crate::text::nl_free(#[trigger] qs[i]) by {
        crate::text::lemma_quote_nl_free(ss[i]);
    }
    crate::text::lemma_join_nl_free(qs, ","@);
    let qn = Seq::new(v.notes.len(), |i: int| quote_spec(v.notes[i]));
    assert forall|i: int| 0 <= i < qn.len() implies crate::text::nl_free(#[trigger] qn[i]) by {
        crate::text::lemma_quote_nl_free(v.notes[i]);
    }
    crate::text::lemma_join_nl_free(qn, ","@);
    let vs = Seq::new(fs.len(), |i: int| violation_spec(fs[i]));
    assert forall|i: int| 0 <= i < vs.len() implies crate::text::nl_free(#[trigger] vs[i]) by {
        lemma_violation_nl_free(fs[i]);
    }
    crate::text::lemma_join_nl_free(vs, ","@);
    let mv = Seq::new(
        v.measurements.len(),
        |i: int| ","@ + quote_spec(v.measurements[i].0) + ":"@ + decimal_spec(v.measurements[i].1),
    );
    assert forall|i: int| 0 <= i < mv.len() implies crate::text::nl_free(#[trigger] mv[i]) by {
        crate::text::lemma_quote_nl_free(v.measurements[i].0);
        crate::text::lemma_decimal_nl_free(v.measurements[i].1);
    }
    crate::text::lemma_join_nl_free(mv, Seq::empty());
}

proof fn lemma_json_spec_one_line(v: ReportView, ss: Seq<Seq<char>>, fs: Seq<FindingView>)
    ensures
        crate::errors::is_one_line(json_spec(v, ss, fs)),
{
    broadcast use crate::text::lemma_nl_free_add;

    lemma_json_literals_nl_free();
    lemma_json_parts_nl_free(v, ss, fs);
    crate::text::lemma_quote_nl_free(v.category);
    crate::text::lemma_quote_nl_free(v.subject);
    crate::text::lemma_decimal_nl_free(exit_of(v));
    crate::text::lemma_decimal_nl_free(v.inspected);
    let body = "{\"schemaVersion\":1,\"command\":"@ + quote_spec(v.category) + ",\"exitCode\":"@
        + decimal_spec(exit_of(v)) + ",\"subject\":"@ + quote_spec(v.subject) + ",\"inspected\":"@
        + decimal_spec(v.inspected) + ",\"scanned\":["@ + quoted_list(ss) + "],\"notes\":["@
        + quoted_list(v.notes) + "],\"violations\":["@ + join_spec(
        Seq::new(fs.len(), |i: int| violation_spec(fs[i])),
        ","@,
    ) + "]"@ + join_spec(
        Seq::new(
            v.measurements.len(),
            |i: int| ","@ + quote_spec(v.measurements[i].0) + ":"@ + decimal_spec(v.measurements[i].1),
        ),
        Seq::empty(),
    );
    assert(crate::text::nl_free(body));
    assert(json_spec(v, ss, fs) == body + "}\n"@);
    reveal_strlit("}\n");
    let o = json_spec(v, ss, fs);
    assert forall|i: int| 0 <= i < o.len() - 1 implies o[i] != '\n' by {
        if i < body.len() {
            assert(o[i] == body[i]);
        } else {
            assert(o[i] == "}\n"@[i - body.len()]);
        }
    }
}

/// In JSON, a run that was not refused writes one line: its document holds
/// no line break but the one that ends it.
pub proof fn lemma_json_one_line(v: ReportView, out: Outcome)
    requires
        v.refusal is None,
        rendered(v, Format::Json, out),
    ensures
        crate::errors::is_one_line(out.stdout@),
{
    lemma_json_exit_member(v, out);
    let (ss, fs) = choose|ss: Seq<Seq<char>>, fs: Seq<FindingView>| #[trigger] json_spec(v, ss, fs) == out.stdout@;
    lemma_json_spec_one_line(v, ss, fs);
}

/// A refusal is what a refused run renders, whatever was added to the report
/// after it: any later report with the same command and refusal (which every
/// `inspected`, `inspected_one`, `scanned`, `note`, `measure` and `found`
/// keeps) ends with `2`, nothing on standard output, and the refusal on
/// standard error, in either format.
pub proof fn lemma_refusal_stays(refused: ReportView, later: ReportView, format: Format, out: Outcome)
    requires
        refused.refusal is Some,
        later.category == refused.category,
        later.refusal == refused.refusal,
        rendered(later, format, out),
    ensures
        out.exit_code == 2,
        out.stdout@ == Seq::<char>::empty(),
        out.stderr@ == "["@ + refused.category + "] "@ + refused.refusal->0 + "\n"@,
{
}

/// In JSON, a run that was not refused writes nothing to standard error,
/// and its document's `exitCode` member is the code the run exits with.
pub proof fn lemma_json_exit_member(v: ReportView, out: Outcome)
    requires
        v.refusal is None,
        rendered(v, Format::Json, out),
    ensures
        out.stderr@ == Seq::<char>::empty(),
        out.exit_code == exit_of(v),
        exists|ss: Seq<Seq<char>>, fs: Seq<FindingView>| #[trigger] json_spec(v, ss, fs) == out.stdout@,
{
    let ss = choose|ss: Seq<Seq<char>>|
        {
            &&& #[trigger] sorted(ss)
            &&& ss.to_multiset() == v.scanned.to_multiset()
            &&& out.stderr@ == Seq::<char>::empty()
            &&& exists|fs: Seq<FindingView>|
                #[trigger] key_sorted(fs) && fs.to_multiset() == v.findings.to_multiset() && out.stdout@ == json_spec(v, ss, fs)
        };
    let fs = choose|fs: Seq<FindingView>|
        #[trigger] key_sorted(fs) && fs.to_multiset() == v.findings.to_multiset() && out.stdout@ == json_spec(v, ss, fs);
    assert(json_spec(v, ss, fs) == out.stdout@);
}

pub fn plural(subject: &str, count: usize) -> (r: Vec<char>)
    ensures
        r@ == plural_spec(subject@, count as nat),
{
    let s = chars_of(subject);
    if count == 1 {
        s
    } else if s.len() > 0 && s[s.len() - 1] == 'y' {
        let mut t = s;
        t.pop();
        extend_str(&mut t, "ies");
        t
    } else if s.len() > 0 && s[s.len() - 1] == 's' {
        let mut t = s;
        extend_str(&mut t, "es");
        t
    } else {
        let mut t = s;
        extend_str(&mut t, "s");
        t
    }
}

fn tally(n: usize) -> (r: Vec<char>)
    ensures
        r@ == tally_spec(n as nat),
{
    if n == 0 {
        chars_of("no findings")
    } else if n == 1 {
        chars_of("1 finding")
    } else {
        let mut r = decimal(n);
        extend_str(&mut r, " findings");
        r
    }
}

fn strings_sorted(items: &Vec<String>) -> (r: Vec<Vec<char>>)
    ensures
        sorted(crate::text::views(r@)),
        crate::text::views(r@).to_multiset() == string_views(items@).to_multiset(),
{
    let mut out: Vec<Vec<char>> = Vec::new();
    let mut i: usize = 0;
    while i < items.len()
        invariant
            i <= items.len(),
            crate::text::views(out@) == string_views(items@).take(i as int),
        decreases items.len() - i,
    {
        let c = chars_of(items[i].as_str());
        assert(c@ == items@[i as int]@);
        let ghost before = out@;
        out.push(c);
        assert(crate::text::views(out@) =~= crate::text::views(before).push(c@));
        i += 1;
        assert(crate::text::views(out@) =~= string_views(items@).take(i as int));
    }
    assert(string_views(items@).take(items.len() as int) =~= string_views(items@));
    sort(&mut out);
    out
}

/// The concatenation of `[category] lead item\n` for each item.
fn prefixed_lines(category: &str, lead: &str, items: &Vec<Vec<char>>) -> (r: Vec<char>)
    ensures
        r@ == prefixed(category@, lead@, crate::text::views(items@)),
{
    let ghost its = crate::text::views(items@);
    let ghost pieces = Seq::new(its.len(), |i: int| "["@ + category@ + "] "@ + lead@ + its[i] + "\n"@);
    let mut out: Vec<char> = Vec::new();
    let mut i: usize = 0;
    while i < items.len()
        invariant
            i <= items.len(),
            its == crate::text::views(items@),
            pieces == Seq::new(its.len(), |i: int| "["@ + category@ + "] "@ + lead@ + its[i] + "\n"@),
            out@ == join_spec(pieces.take(i as int), Seq::empty()),
        decreases items.len() - i,
    {
        let ghost before = out@;
        assert(pieces.take(i + 1).drop_last() =~= pieces.take(i as int));
        extend_str(&mut out, "[");
        extend_str(&mut out, category);
        extend_str(&mut out, "] ");
        extend_str(&mut out, lead);
        extend(&mut out, &items[i]);
        extend_str(&mut out, "\n");
        i += 1;
        proof {
            assert(its[i - 1] == items@[i - 1]@);
            if i == 1 {
                assert(before =~= Seq::<char>::empty());
                assert(out@ =~= join_spec(pieces.take(i as int), Seq::empty()));
            } else {
                assert(out@ =~= join_spec(pieces.take(i as int), Seq::empty()));
            }
        }
    }
    assert(pieces.take(items.len() as int) =~= pieces);
    out
}

fn strings_as_chars(items: &Vec<String>) -> (r: Vec<Vec<char>>)
    ensures
        crate::text::views(r@) == string_views(items@),
{
    let mut out: Vec<Vec<char>> = Vec::new();
    let mut i: usize = 0;
    while i < items.len()
        invariant
            i <= items.len(),
            crate::text::views(out@) == string_views(items@).take(i as int),
        decreases items.len() - i,
    {
        let c = chars_of(items[i].as_str());
        assert(c@ == items@[i as int]@);
        let ghost before = out@;
        out.push(c);
        assert(crate::text::views(out@) =~= crate::text::views(before).push(c@));
        i += 1;
        assert(crate::text::views(out@) =~= string_views(items@).take(i as int));
    }
    assert(string_views(items@).take(items.len() as int) =~= string_views(items@));
    out
}

} // verus!

verus! {

fn json_body(r: &Report, scanned: &Vec<Vec<char>>, fs: &Vec<&Finding>) -> (out: Vec<char>)
    ensures
        out@ == json_spec(r@, crate::text::views(scanned@), ref_views(fs@)),
{
    let ghost v = r@;
    let mut out: Vec<char> = Vec::new();
    extend_str(&mut out, "{\"schemaVersion\":1,\"command\":");
    extend(&mut out, &quote(&chars_of(r.category)));
    extend_str(&mut out, ",\"exitCode\":");
    let exit: usize = if r.findings.len() > 0 {
        1
    } else {
        0
    };
    extend(&mut out, &decimal(exit));
    extend_str(&mut out, ",\"subject\":");
    extend(&mut out, &quote(&chars_of(r.subject)));
    extend_str(&mut out, ",\"inspected\":");
    extend(&mut out, &decimal(r.inspected));
    extend_str(&mut out, ",\"scanned\":[");
    extend(&mut out, &quoted_join(scanned));
    extend_str(&mut out, "],\"notes\":[");
    let notes = strings_as_chars(&r.notes);
    extend(&mut out, &quoted_join(&notes));
    extend_str(&mut out, "],\"violations\":[");
    let ghost pieces = Seq::new(fs@.len(), |i: int| violation_spec(ref_views(fs@)[i]));
    let mut joined: Vec<char> = Vec::new();
    let mut i: usize = 0;
    while i < fs.len()
        invariant
            i <= fs.len(),
            pieces == Seq::new(fs@.len(), |i: int| violation_spec(ref_views(fs@)[i])),
            joined@ == join_spec(pieces.take(i as int), ","@),
        decreases fs.len() - i,
    {
        assert(pieces.take(i + 1).drop_last() =~= pieces.take(i as int));
        if i > 0 {
            extend_str(&mut joined, ",");
        } else {
            assert(joined@ =~= Seq::<char>::empty());
        }
        let piece = violation(fs[i]);
        extend(&mut joined, &piece);
        i += 1;
        proof {
            assert(ref_views(fs@)[i - 1] == fs@[i - 1]@);
            assert(joined@ =~= join_spec(pieces.take(i as int), ","@));
        }
    }
    assert(pieces.take(fs.len() as int) =~= pieces);
    extend(&mut out, &joined);
    extend_str(&mut out, "]");
    let ghost mpieces = Seq::new(
        v.measurements.len(),
        |i: int| ","@ + quote_spec(v.measurements[i].0) + ":"@ + decimal_spec(v.measurements[i].1),
    );
    let mut ms: Vec<char> = Vec::new();
    let mut j: usize = 0;
    while j < r.measurements.len()
        invariant
            j <= r.measurements.len(),
            v == r@,
            v.measurements == measurement_views(r.measurements@),
            mpieces == Seq::new(
                v.measurements.len(),
                |i: int| ","@ + quote_spec(v.measurements[i].0) + ":"@ + decimal_spec(
                    v.measurements[i].1,
                ),
            ),
            ms@ == join_spec(mpieces.take(j as int), Seq::empty()),
        decreases r.measurements.len() - j,
    {
        assert(mpieces.take(j + 1).drop_last() =~= mpieces.take(j as int));
        let ghost before = ms@;
        let (key, value) = r.measurements[j];
        extend_str(&mut ms, ",");
        extend(&mut ms, &quote(&chars_of(key)));
        extend_str(&mut ms, ":");
        extend(&mut ms, &decimal(value));
        j += 1;
        proof {
            if j == 1 {
                assert(before =~= Seq::<char>::empty());
            }
            assert(ms@ =~= join_spec(mpieces.take(j as int), Seq::empty()));
        }
    }
    assert(mpieces.take(r.measurements.len() as int) =~= mpieces);
    extend(&mut out, &ms);
    extend_str(&mut out, "}\n");
    proof {
        assert(out@ =~= json_spec(r@, crate::text::views(scanned@), ref_views(fs@)));
    }
    out
}

fn quoted_join(items: &Vec<Vec<char>>) -> (r: Vec<char>)
    ensures
        r@ == quoted_list(crate::text::views(items@)),
{
    let ghost its = crate::text::views(items@);
    let ghost pieces = Seq::new(its.len(), |i: int| quote_spec(its[i]));
    let mut out: Vec<char> = Vec::new();
    let mut i: usize = 0;
    while i < items.len()
        invariant
            i <= items.len(),
            its == crate::text::views(items@),
            pieces == Seq::new(its.len(), |i: int| quote_spec(its[i])),
            out@ == join_spec(pieces.take(i as int), ","@),
        decreases items.len() - i,
    {
        assert(pieces.take(i + 1).drop_last() =~= pieces.take(i as int));
        if i > 0 {
            extend_str(&mut out, ",");
        } else {
            assert(out@ =~= Seq::<char>::empty());
        }
        extend(&mut out, &quote(&items[i]));
        i += 1;
        proof {
            assert(its[i - 1] == items@[i - 1]@);
            assert(out@ =~= join_spec(pieces.take(i as int), ","@));
        }
    }
    assert(pieces.take(items.len() as int) =~= pieces);
    out
}

fn violation(f: &Finding) -> (r: Vec<char>)
    ensures
        r@ == violation_spec(f@),
{
    let mut members: Vec<Vec<char>> = Vec::new();
    let mut m = chars_of("\"kind\":");
    extend(&mut m, &quote(&chars_of(f.kind)));
    members.push(m);
    let mut m = chars_of("\"path\":");
    extend(&mut m, &quote(&chars_of(f.path.as_str())));
    members.push(m);
    let mut m = chars_of("\"message\":");
    extend(&mut m, &quote(&chars_of(f.message.as_str())));
    members.push(m);
    let ghost fv = f@;
    let ghost base = seq![
        "\"kind\":"@ + quote_spec(fv.kind),
        "\"path\":"@ + quote_spec(fv.path),
        "\"message\":"@ + quote_spec(fv.message),
    ];
    assert(crate::text::views(members@) =~= base);
    if let Some(line) = f.line {
        let mut m = chars_of("\"line\":");
        extend(&mut m, &decimal(line));
        let ghost before = crate::text::views(members@);
        members.push(m);
        assert(crate::text::views(members@) =~= before.push(m@));
    }
    if let Some(column) = f.column {
        let mut m = chars_of("\"column\":");
        extend(&mut m, &decimal(column));
        let ghost before = crate::text::views(members@);
        members.push(m);
        assert(crate::text::views(members@) =~= before.push(m@));
    }
    if let Some(field) = &f.field {
        let mut m = chars_of("\"field\":");
        extend(&mut m, &quote(&chars_of(field.as_str())));
        let ghost before = crate::text::views(members@);
        members.push(m);
        assert(crate::text::views(members@) =~= before.push(m@));
    }
    let ghost head = crate::text::views(members@);
    let mut k: usize = 0;
    while k < f.details.len()
        invariant
            k <= f.details.len(),
            fv == f@,
            fv.details == detail_views(f.details@),
            crate::text::views(members@) == head + Seq::new(
                k as nat,
                |i: int| detail_member(fv.details[i]),
            ),
        decreases f.details.len() - k,
    {
        let (key, value) = &f.details[k];
        let mut m = quote(&chars_of(key));
        extend_str(&mut m, ":");
        match value {
            Detail::Count(n) => extend(&mut m, &decimal(*n)),
            Detail::Text(t) => extend(&mut m, &quote(&chars_of(t.as_str()))),
        }
        let ghost before = crate::text::views(members@);
        members.push(m);
        assert(m@ == detail_member(fv.details[k as int]));
        assert(crate::text::views(members@) =~= before.push(m@));
        k += 1;
        assert(crate::text::views(members@) =~= head + Seq::new(
            k as nat,
            |i: int| detail_member(fv.details[i]),
        ));
    }
    let mut out = chars_of("{");
    extend(&mut out, &crate::text::join(&members, &chars_of(",")));
    extend_str(&mut out, "}");
    proof {
        assert(violation_members(fv) =~= head + Seq::new(
            fv.details.len(),
            |i: int| detail_member(fv.details[i]),
        ));
    }
    out
}

} // verus!

verus! {

impl Report {
    pub fn new(category: &'static str, subject: &'static str) -> (r: Report)
        ensures
            r@ == (ReportView {
                category: category@,
                subject: subject@,
                inspected: 0,
                scanned: Seq::empty(),
                notes: Seq::empty(),
                measurements: Seq::empty(),
                findings: Seq::empty(),
                refusal: None,
            }),
    {
        let r = Report {
            category,
            subject,
            inspected: 0,
            scanned: Vec::new(),
            notes: Vec::new(),
            measurements: Vec::new(),
            findings: Vec::new(),
            refusal: None,
        };
        assert(r@.scanned =~= Seq::empty());
        assert(r@.notes =~= Seq::empty());
        assert(r@.measurements =~= Seq::empty());
        assert(r@.findings =~= Seq::empty());
        r
    }

    /// The category every line of this report is prefixed with.
    pub fn category(&self) -> (r: &'static str)
        ensures
            r@ == self@.category,
    {
        self.category
    }

    /// The findings so far, in the order they were found.
    pub fn findings(&self) -> (r: &Vec<Finding>)
        ensures
            finding_views(r@) == self@.findings,
    {
        &self.findings
    }

    /// How many subjects were inspected.
    pub fn inspected_count(&self) -> (r: usize)
        ensures
            r as nat == self@.inspected,
    {
        self.inspected
    }

    /// The refusal, if the run could not happen.
    pub fn refusal(&self) -> (r: Option<&String>)
        ensures
            match r {
                Some(s) => self@.refusal == Some(s@),
                None => self@.refusal is None,
            },
    {
        self.refusal.as_ref()
    }

    pub fn inspected(&mut self, count: usize)
        ensures
            final(self)@ == (ReportView { inspected: count as nat, ..old(self)@ }),
    {
        self.inspected = count;
    }

    /// Count one inspected subject that has no path worth listing.
    pub fn inspected_one(&mut self)
        requires
            old(self)@.inspected < usize::MAX,
        ensures
            final(self)@ == (ReportView { inspected: old(self)@.inspected + 1, ..old(self)@ }),
    {
        self.inspected = self.inspected + 1;
    }

    /// Record a path that was looked at, and count it.
    pub fn scanned(&mut self, path: &str)
        requires
            old(self)@.inspected < usize::MAX,
        ensures
            final(self)@ == (ReportView {
                inspected: old(self)@.inspected + 1,
                scanned: old(self)@.scanned.push(path@),
                ..old(self)@
            }),
    {
        let ghost before = self.scanned@;
        self.scanned.push(path.to_string());
        assert(string_views(self.scanned@) =~= string_views(before).push(path@));
        self.inspected = self.inspected + 1;
    }

    /// An extra line of stdout, under the same category prefix.
    pub fn note(&mut self, text: &str)
        ensures
            final(self)@ == (ReportView { notes: old(self)@.notes.push(text@), ..old(self)@ }),
    {
        let ghost before = self.notes@;
        self.notes.push(text.to_string());
        assert(string_views(self.notes@) =~= string_views(before).push(text@));
    }

    /// A quantity this run established, named as a caller will read it.
    pub fn measure(&mut self, key: &'static str, value: usize)
        ensures
            final(self)@ == (ReportView {
                measurements: old(self)@.measurements.push((key@, value as nat)),
                ..old(self)@
            }),
    {
        let ghost before = self.measurements@;
        self.measurements.push((key, value));
        assert(measurement_views(self.measurements@) =~= measurement_views(before).push(
            (key@, value as nat),
        ));
    }

    pub fn found(&mut self, finding: Finding)
        ensures
            final(self)@ == (ReportView {
                findings: old(self)@.findings.push(finding@),
                ..old(self)@
            }),
    {
        let ghost before = self.findings@;
        let ghost fv = finding@;
        self.findings.push(finding);
        assert(finding_views(self.findings@) =~= finding_views(before).push(fv));
    }

    /// A run that could not happen. stdout stays empty, because a summary
    /// line here would claim something was checked when nothing was.
    pub fn refused(category: &'static str, message: &str) -> (r: Report)
        ensures
            r@ == (ReportView {
                category: category@,
                subject: "subject"@,
                inspected: 0,
                scanned: Seq::empty(),
                notes: Seq::empty(),
                measurements: Seq::empty(),
                findings: Seq::empty(),
                refusal: Some(message@),
            }),
    {
        let mut r = Report::new(category, "subject");
        r.refusal = Some(message.to_string());
        r
    }

    /// Render as the caller asked. Exit `0` when clean, `1` when there are
    /// findings, and `2` only for a refusal.
    pub fn render(&self, format: Format) -> (out: Outcome)
        ensures
            rendered(self@, format, out),
    {
        if let Some(reason) = &self.refusal {
            let mut err = chars_of("[");
            extend_str(&mut err, self.category);
            extend_str(&mut err, "] ");
            extend_str(&mut err, reason.as_str());
            extend_str(&mut err, "\n");
            return Outcome { exit_code: 2, stdout: String::new(), stderr: string_of(&err) };
        }
        let scanned = strings_sorted(&self.scanned);
        let exit_code: u8 = if self.findings.len() > 0 {
            1
        } else {
            0
        };
        match format {
            Format::Text => {
                let out = self.finish(&scanned);
                proof {
                    assert(sorted(crate::text::views(scanned@)));
                }
                out
            },
            Format::Json => {
                let fs = by_key(&self.findings);
                let body = json_body(self, &scanned, &fs);
                let out = Outcome { exit_code, stdout: string_of(&body), stderr: String::new() };
                proof {
                    let ss = crate::text::views(scanned@);
                    assert(sorted(ss));
                    assert(key_sorted(ref_views(fs@)));
                }
                out
            },
        }
    }

    fn finish(&self, scanned: &Vec<Vec<char>>) -> (out: Outcome)
        requires
            self@.refusal is None,
        ensures
            out.exit_code == (if self@.findings.len() > 0 {
                1u8
            } else {
                0u8
            }),
            out.stdout@ == summary_spec(self@, crate::text::views(scanned@)),
            if structural(self@) {
                exists|fs: Seq<FindingView>|
                    #[trigger] key_sorted(fs) && fs.to_multiset() == self@.findings.to_multiset()
                        && out.stderr@ == join_spec(
                        lines_of_findings(self@.category, fs),
                        Seq::empty(),
                    )
            } else {
                exists|ls: Seq<Seq<char>>|
                    #[trigger] sorted(ls) && ls.to_multiset() == lines_of_findings(
                        self@.category,
                        self@.findings,
                    ).to_multiset() && out.stderr@ == join_spec(ls, Seq::empty())
            },
    {
        let ghost v = self@;
        let mut summary = chars_of("[");
        extend_str(&mut summary, self.category);
        extend_str(&mut summary, "] checked ");
        extend(&mut summary, &decimal(self.inspected));
        extend_str(&mut summary, " ");
        extend(&mut summary, &plural(self.subject, self.inspected));
        extend_str(&mut summary, ", ");
        extend(&mut summary, &tally(self.findings.len()));
        extend_str(&mut summary, "\n");
        let notes = strings_as_chars(&self.notes);
        extend(&mut summary, &prefixed_lines(self.category, "", &notes));
        extend(&mut summary, &prefixed_lines(self.category, "scanned ", scanned));
        proof {
            reveal_strlit("");
            assert(""@ =~= Seq::<char>::empty());
            assert(summary@ =~= summary_spec(v, crate::text::views(scanned@)));
        }
        let mut all_structural = self.findings.len() > 0;
        let mut i: usize = 0;
        while i < self.findings.len()
            invariant
                i <= self.findings.len(),
                v == self@,
                v.findings == finding_views(self.findings@),
                all_structural == (v.findings.len() > 0 && forall|k: int|
                    0 <= k < i ==> v.findings[k].column is Some),
            decreases self.findings.len() - i,
        {
            assert(v.findings[i as int] == self.findings@[i as int]@);
            if self.findings[i].column.is_none() {
                all_structural = false;
            }
            i += 1;
        }
        let mut err: Vec<char> = Vec::new();
        if all_structural {
            let fs = by_key(&self.findings);
            let mut lines: Vec<Vec<char>> = Vec::new();
            let mut k: usize = 0;
            while k < fs.len()
                invariant
                    k <= fs.len(),
                    v == self@,
                    crate::text::views(lines@) == Seq::new(
                        k as nat,
                        |j: int| finding_line(ref_views(fs@)[j], v.category),
                    ),
                decreases fs.len() - k,
            {
                let line = fs[k].render(self.category);
                let ghost before = crate::text::views(lines@);
                lines.push(line);
                assert(ref_views(fs@)[k as int] == fs@[k as int]@);
                assert(crate::text::views(lines@) =~= before.push(line@));
                k += 1;
                assert(crate::text::views(lines@) =~= Seq::new(
                    k as nat,
                    |j: int| finding_line(ref_views(fs@)[j], v.category),
                ));
            }
            let nothing: Vec<char> = Vec::new();
            err = crate::text::join(&lines, &nothing);
            proof {
                assert(crate::text::views(lines@) =~= lines_of_findings(v.category, ref_views(fs@)));
                assert(key_sorted(ref_views(fs@)));
            }
        } else {
            let mut lines: Vec<Vec<char>> = Vec::new();
            let mut k: usize = 0;
            while k < self.findings.len()
                invariant
                    k <= self.findings.len(),
                    v == self@,
                    v.findings == finding_views(self.findings@),
                    crate::text::views(lines@) == Seq::new(
                        k as nat,
                        |j: int| finding_line(v.findings[j], v.category),
                    ),
                decreases self.findings.len() - k,
            {
                let line = self.findings[k].render(self.category);
                let ghost before = crate::text::views(lines@);
                lines.push(line);
                assert(v.findings[k as int] == self.findings@[k as int]@);
                assert(crate::text::views(lines@) =~= before.push(line@));
                k += 1;
                assert(crate::text::views(lines@) =~= Seq::new(
                    k as nat,
                    |j: int| finding_line(v.findings[j], v.category),
                ));
            }
            let ghost unsorted = crate::text::views(lines@);
            sort(&mut lines);
            let nothing: Vec<char> = Vec::new();
            err = crate::text::join(&lines, &nothing);
            proof {
                assert(unsorted =~= lines_of_findings(v.category, v.findings));
                assert(sorted(crate::text::views(lines@)));
            }
        }
        Outcome {
            exit_code: if self.findings.len() > 0 {
                1
            } else {
                0
            },
            stdout: string_of(&summary),
            stderr: string_of(&err),
        }
    }
}

} // verus!
