//! Heading-hierarchy validation.
//!
//! Two rules, both the repository's: whether a governed document holds
//! exactly one level-1 heading, and how far a heading may drop below the one
//! before it. What counts as a heading is not configurable: a `#` inside a
//! fenced block is an example, not a heading, so only prose lines are read.
use crate::config::{Config, HeadingHierarchy};
use crate::markdown::naming::{last_match, lemma_last_match, refused_view};
use crate::markdown::{numbered_views, prose_lines, prose_spec, run_of};
use crate::report::{Detail, DetailView, Finding, FindingView, Report, ReportView};
use crate::runtime::{Tree, TreeFault};
use crate::scan::{corpus_of, corpus_spec, document_views, glob_failure, Corpus, Surfaces};
use crate::text::{chars_of, decimal, decimal_spec, extend, extend_str, string_of, trim_start, trim_start_spec};
use vstd::prelude::*;

verus! {

/// The deepest ATX heading Markdown has.
pub const DEEPEST: usize = 6;

/// The level of the heading a line holds, if it holds one: one to six
/// hashes after leading whitespace, then a space. `#hashtag` is a word.
pub open spec fn heading_spec(line: Seq<char>) -> Option<nat> {
    let t = trim_start_spec(line);
    let level = run_of(t, '#');
    if 1 <= level <= DEEPEST && t.len() > level && t[level as int] == ' ' {
        Some(level)
    } else {
        None
    }
}

/// The headings among numbered prose lines, as `(line, level)`.
pub open spec fn headings_of(lines: Seq<(nat, Seq<char>)>) -> Seq<(nat, nat)>
    decreases lines.len(),
{
    if lines.len() == 0 {
        Seq::empty()
    } else {
        let rest = headings_of(lines.drop_last());
        match heading_spec(lines.last().1) {
            Some(level) => rest.push((lines.last().0, level)),
            None => rest,
        }
    }
}

/// Every ATX heading of a document, outside fenced blocks.
pub open spec fn headings_spec(text: Seq<char>) -> Seq<(nat, nat)> {
    headings_of(prose_spec(text))
}

/// The lines of the level-1 headings, in order.
pub open spec fn tops(hs: Seq<(nat, nat)>) -> Seq<nat>
    decreases hs.len(),
{
    if hs.len() == 0 {
        Seq::empty()
    } else if hs.last().1 == 1 {
        tops(hs.drop_last()).push(hs.last().0)
    } else {
        tops(hs.drop_last())
    }
}

pub open spec fn missing_h1(path: Seq<char>) -> FindingView {
    FindingView {
        kind: "missing-h1"@,
        path,
        line: Some(1),
        column: None,
        field: None,
        message: "declares no level-1 heading"@,
        details: Seq::empty(),
    }
}

pub open spec fn extra_h1(path: Seq<char>, line: nat) -> FindingView {
    FindingView {
        kind: "multiple-h1"@,
        path,
        line: Some(line),
        column: None,
        field: None,
        message: "declares a second level-1 heading"@,
        details: Seq::empty(),
    }
}

pub open spec fn jump_finding(path: Seq<char>, line: nat, above: nat, level: nat) -> FindingView {
    FindingView {
        kind: "heading-level-jump"@,
        path,
        line: Some(line),
        column: None,
        field: None,
        message: "drops from level "@ + decimal_spec(above) + " to level "@ + decimal_spec(level),
        details: seq![("jump"@, DetailView::Count((level - above) as nat))],
    }
}

/// With a single level-1 heading required: a finding when there is none,
/// and one for every level-1 heading after the first.
pub open spec fn h1_findings(path: Seq<char>, hs: Seq<(nat, nat)>, single_h1: bool) -> Seq<FindingView> {
    if !single_h1 {
        Seq::empty()
    } else {
        let t = tops(hs);
        if t.len() == 0 {
            seq![missing_h1(path)]
        } else {
            extras(path, t)
        }
    }
}

/// A finding for each level-1 heading after the first.
pub open spec fn extras(path: Seq<char>, t: Seq<nat>) -> Seq<FindingView> {
    if t.len() == 0 {
        Seq::empty()
    } else {
        Seq::new((t.len() - 1) as nat, |i: int| extra_h1(path, t[i + 1]))
    }
}

/// A finding for every heading more than `max_jump` levels below the one
/// before it. The first heading is measured against nothing.
pub open spec fn jump_findings(path: Seq<char>, hs: Seq<(nat, nat)>, max_jump: nat) -> Seq<FindingView>
    decreases hs.len(),
{
    if hs.len() < 2 {
        Seq::empty()
    } else {
        let rest = jump_findings(path, hs.drop_last(), max_jump);
        let above = hs[hs.len() - 2].1;
        let level = hs.last().1;
        if level > above + max_jump {
            rest.push(jump_finding(path, hs.last().0, above, level))
        } else {
            rest
        }
    }
}

/// What a governed document is found to break.
pub open spec fn heading_findings(path: Seq<char>, text: Seq<char>, rules: HeadingHierarchy) -> Seq<FindingView> {
    let hs = headings_spec(text);
    h1_findings(path, hs, rules.single_h1) + jump_findings(path, hs, rules.max_level_jump as nat)
}

fn heading(content: &String) -> (r: Option<usize>)
    ensures
        match r {
            Some(level) => heading_spec(content@) == Some(level as nat),
            None => heading_spec(content@) is None,
        },
{
    let t = trim_start(&chars_of(content.as_str()));
    let mut n: usize = 0;
    assert(t@.skip(0) =~= t@);
    while n < t.len() && t[n] == '#'
        invariant
            n <= t.len(),
            run_of(t@, '#') == n + run_of(t@.skip(n as int), '#'),
        decreases t.len() - n,
    {
        assert(t@.skip(n as int).drop_first() =~= t@.skip(n + 1));
        n += 1;
    }
    if 1 <= n && n <= DEEPEST && n < t.len() && t[n] == ' ' {
        Some(n)
    } else {
        None
    }
}

/// Every ATX heading in a document, as `(line, level)`.
fn headings(text: &str) -> (r: Vec<(usize, usize)>)
    ensures
        r@.len() == headings_spec(text@).len(),
        forall|i: int| 0 <= i < r@.len() ==> (#[trigger] r@[i]).0 as nat == headings_spec(text@)[i].0 && r@[i].1 as nat == headings_spec(text@)[i].1,
        forall|i: int| 0 <= i < r@.len() ==> 1 <= (#[trigger] r@[i]).1 <= DEEPEST,
{
    let lines = prose_lines(text);
    let ghost pv = numbered_views(lines@);
    let mut r: Vec<(usize, usize)> = Vec::new();
    let mut i: usize = 0;
    while i < lines.len()
        invariant
            i <= lines.len(),
            pv == numbered_views(lines@),
            pv == prose_spec(text@),
            r@.len() == headings_of(pv.take(i as int)).len(),
            forall|k: int| 0 <= k < r@.len() ==> (#[trigger] r@[k]).0 as nat == headings_of(pv.take(i as int))[k].0 && r@[k].1 as nat == headings_of(pv.take(i as int))[k].1,
            forall|k: int| 0 <= k < r@.len() ==> 1 <= (#[trigger] r@[k]).1 <= DEEPEST,
        decreases lines.len() - i,
    {
        assert(pv.take(i + 1).drop_last() =~= pv.take(i as int));
        assert(pv.take(i + 1).last() == (lines@[i as int].0 as nat, lines@[i as int].1@));
        let h = heading(&lines[i].1);
        if let Some(level) = h {
            r.push((lines[i].0, level));
        }
        i += 1;
    }
    assert(pv.take(lines.len() as int) =~= pv);
    r
}

fn inspect(path: &str, text: &str, rules: &HeadingHierarchy, report: &mut Report)
    ensures
        final(report)@ == (ReportView {
            findings: old(report)@.findings + heading_findings(path@, text@, *rules),
            ..old(report)@
        }),
{
    let found = headings(text);
    let ghost hs = headings_spec(text@);
    let ghost base = report@;
    if rules.single_h1 {
        let mut count: usize = 0;
        let mut k: usize = 0;
        assert(base.findings + extras(path@, tops(hs.take(0))) =~= base.findings);
        while k < found.len()
            invariant
                k <= found.len(),
                found@.len() == hs.len(),
                forall|j: int| 0 <= j < found@.len() ==> (#[trigger] found@[j]).0 as nat == hs[j].0 && found@[j].1 as nat == hs[j].1,
                count == tops(hs.take(k as int)).len(),
                count <= k,
                report@ == (ReportView { findings: base.findings + extras(path@, tops(hs.take(k as int))), ..base }),
            decreases found.len() - k,
        {
            let ghost t0 = tops(hs.take(k as int));
            assert(hs.take(k + 1).drop_last() =~= hs.take(k as int));
            assert(hs.take(k + 1).last() == hs[k as int]);
            if found[k].1 == 1 {
                if count > 0 {
                    report.found(Finding::new("multiple-h1", path, "declares a second level-1 heading").at_line(found[k].0));
                    let ghost t1 = t0.push(hs[k as int].0);
                    assert(extras(path@, t1) =~= extras(path@, t0).push(extra_h1(path@, hs[k as int].0)));
                    assert(base.findings + extras(path@, t1) =~= base.findings + extras(path@, t0) + seq![extra_h1(path@, hs[k as int].0)]);
                } else {
                    assert(extras(path@, t0.push(hs[k as int].0)) =~= Seq::<FindingView>::empty());
                    assert(extras(path@, t0) =~= Seq::<FindingView>::empty());
                }
                count += 1;
            }
            k += 1;
        }
        assert(hs.take(found.len() as int) =~= hs);
        if count == 0 {
            report.found(Finding::new("missing-h1", path, "declares no level-1 heading").at_line(1));
            assert(report@.findings =~= base.findings + h1_findings(path@, hs, rules.single_h1));
        }
    } else {
        assert(base.findings + h1_findings(path@, hs, rules.single_h1) =~= base.findings);
    }
    let ghost mid = report@;
    assert(mid.findings == base.findings + h1_findings(path@, hs, rules.single_h1));
    let mut k: usize = if found.len() > 0 { 1 } else { 0 };
    assert(mid.findings + jump_findings(path@, hs.take(k as int), rules.max_level_jump as nat) =~= mid.findings);
    while k < found.len()
        invariant
            k <= found.len(),
            found.len() > 0 ==> k >= 1,
            found@.len() == hs.len(),
            forall|j: int| 0 <= j < found@.len() ==> (#[trigger] found@[j]).0 as nat == hs[j].0 && found@[j].1 as nat == hs[j].1,
            forall|j: int| 0 <= j < found@.len() ==> 1 <= (#[trigger] found@[j]).1 <= DEEPEST,
            report@ == (ReportView { findings: mid.findings + jump_findings(path@, hs.take(k as int), rules.max_level_jump as nat), ..mid }),
        decreases found.len() - k,
    {
        let ghost prior = jump_findings(path@, hs.take(k as int), rules.max_level_jump as nat);
        assert(hs.take(k + 1).drop_last() =~= hs.take(k as int));
        assert(hs.take(k + 1).last() == hs[k as int]);
        assert(hs.take(k + 1)[k - 1] == hs[k - 1]);
        let above = found[k - 1].1;
        let level = found[k].1;
        let line = found[k].0;
        if level > above && level - above > rules.max_level_jump {
            let mut m = chars_of("drops from level ");
            extend(&mut m, &decimal(above));
            extend_str(&mut m, " to level ");
            extend(&mut m, &decimal(level));
            let f = Finding::new("heading-level-jump", path, string_of(&m).as_str()).at_line(line).with(
                "jump",
                Detail::Count(level - above),
            );
            assert(f@.details =~= jump_finding(path@, line as nat, above as nat, level as nat).details);
            assert(f@ == jump_finding(path@, line as nat, above as nat, level as nat));
            report.found(f);
            assert(mid.findings + prior.push(f@) =~= mid.findings + prior + seq![f@]);
        }
        k += 1;
    }
    assert(hs.take(found.len() as int) =~= hs);
    assert(report@.findings =~= base.findings + heading_findings(path@, text@, *rules));
}

/// The globs of the governed surfaces, in order.
pub open spec fn heading_globs(h: HeadingHierarchy) -> Seq<Seq<char>> {
    Seq::new(h.surfaces@.len(), |i: int| h.surfaces@[i].glob@)
}

/// A heading report after a run over documents: each one a surface governs
/// is listed and judged; the rest are passed over.
pub open spec fn heading_run(documents: Seq<(Seq<char>, Seq<char>)>, h: HeadingHierarchy) -> ReportView
    decreases documents.len(),
{
    if documents.len() == 0 {
        ReportView {
            category: "heading-hierarchy"@,
            subject: "file"@,
            inspected: 0,
            scanned: Seq::empty(),
            notes: Seq::empty(),
            measurements: Seq::empty(),
            findings: Seq::empty(),
            refusal: None,
        }
    } else {
        let v = heading_run(documents.drop_last(), h);
        let (path, text) = documents.last();
        match last_match(heading_globs(h), path) {
            None => v,
            Some(_) => ReportView {
                inspected: v.inspected + 1,
                scanned: v.scanned.push(path),
                findings: v.findings + heading_findings(path, text, h),
                ..v
            },
        }
    }
}

fn glob_texts(h: &HeadingHierarchy) -> (r: Vec<&str>)
    ensures
        crate::cli::str_views(r@) == heading_globs(*h),
{
    let mut r: Vec<&str> = Vec::new();
    let mut i: usize = 0;
    while i < h.surfaces.len()
        invariant
            i <= h.surfaces.len(),
            crate::cli::str_views(r@) == Seq::new(i as nat, |k: int| h.surfaces@[k].glob@),
        decreases h.surfaces.len() - i,
    {
        let ghost before = crate::cli::str_views(r@);
        r.push(h.surfaces[i].glob.as_str());
        assert(crate::cli::str_views(r@) =~= before.push(h.surfaces@[i as int].glob@));
        i += 1;
        assert(crate::cli::str_views(r@) =~= Seq::new(i as nat, |k: int| h.surfaces@[k].glob@));
    }
    r
}

/// Checks the headings of every Markdown document a declared surface
/// governs.
pub fn validate<T: Tree>(tree: &T, config: &Config, headings: &HeadingHierarchy) -> (r: Report)
    ensures
        match glob_failure("md-heading-hierarchy.surfaces"@, heading_globs(*headings)) {
            Some(reason) => r@ == refused_view("heading-hierarchy"@, reason),
            None => exists|listed: Seq<Seq<char>>, reads: Seq<(Seq<char>, Result<Seq<char>, TreeFault>)>|
                #[trigger] corpus_of(*tree, *config, listed, reads) && match corpus_spec(reads) {
                    Err(reason) => r@ == refused_view("heading-hierarchy"@, reason),
                    Ok(documents) => r@ == heading_run(documents, *headings),
                },
        },
{
    let globs = glob_texts(headings);
    let surfaces = match Surfaces::compile("md-heading-hierarchy.surfaces", &globs) {
        Ok(s) => s,
        Err(reason) => return Report::refused("heading-hierarchy", reason.as_str()),
    };
    let corpus = match Corpus::read(tree, config) {
        Ok(c) => c,
        Err(reason) => return Report::refused("heading-hierarchy", reason.as_str()),
    };
    let documents = corpus.documents();
    let ghost dv = document_views(documents@);
    let mut report = Report::new("heading-hierarchy", "file");
    let mut i: usize = 0;
    while i < documents.len()
        invariant
            i <= documents.len(),
            dv == document_views(documents@),
            surfaces.patterns() == heading_globs(*headings),
            report@ == heading_run(dv.take(i as int), *headings),
            report@.inspected <= i,
        decreases documents.len() - i,
    {
        let document = &documents[i];
        assert(dv.take(i + 1).drop_last() =~= dv.take(i as int));
        assert(dv.take(i + 1).last() == (document.path@, document.text@));
        let g = surfaces.governing(document.path.as_str());
        proof {
            lemma_last_match(surfaces.patterns(), document.path@, match g {
                Some(x) => Some(x as nat),
                None => None,
            });
        }
        if g.is_some() {
            report.scanned(document.path.as_str());
            inspect(document.path.as_str(), document.text.as_str(), headings, &mut report);
        }
        i += 1;
    }
    assert(dv.take(documents.len() as int) =~= dv);
    report
}


/// A document whose headings each sit at most `max_jump` levels below the
/// heading just before them has no level-jump finding: `# A`, `## B`,
/// `### C` is clean at a jump of one.
pub proof fn lemma_steady_descent_is_clean(path: Seq<char>, hs: Seq<(nat, nat)>, max_jump: nat)
    requires
        forall|k: int| 1 <= k < hs.len() ==> #[trigger] hs[k].1 <= hs[k - 1].1 + max_jump,
    ensures
        jump_findings(path, hs, max_jump) == Seq::<FindingView>::empty(),
    decreases hs.len(),
{
    if hs.len() >= 2 {
        assert forall|k: int| 1 <= k < hs.drop_last().len() implies #[trigger] hs.drop_last()[k].1 <= hs.drop_last()[k
            - 1].1 + max_jump by {
            assert(hs.drop_last()[k] == hs[k]);
            assert(hs.drop_last()[k - 1] == hs[k - 1]);
        }
        lemma_steady_descent_is_clean(path, hs.drop_last(), max_jump);
        assert(hs.last().1 <= hs[hs.len() - 2].1 + max_jump);
    }
}

/// A heading more than `max_jump` levels below the heading just before it is
/// reported, at its line, as a drop from that previous heading's level to its
/// own.
pub proof fn lemma_jump_is_reported(path: Seq<char>, hs: Seq<(nat, nat)>, max_jump: nat, k: int)
    requires
        1 <= k < hs.len(),
        hs[k].1 > hs[k - 1].1 + max_jump,
    ensures
        jump_findings(path, hs, max_jump).contains(jump_finding(path, hs[k].0, hs[k - 1].1, hs[k].1)),
    decreases hs.len(),
{
    let f = jump_finding(path, hs[k].0, hs[k - 1].1, hs[k].1);
    if k == hs.len() - 1 {
        let rest = jump_findings(path, hs.drop_last(), max_jump);
        assert(jump_findings(path, hs, max_jump) == rest.push(f));
        assert(rest.push(f)[rest.len() as int] == f);
    } else {
        assert(hs.drop_last()[k] == hs[k]);
        assert(hs.drop_last()[k - 1] == hs[k - 1]);
        lemma_jump_is_reported(path, hs.drop_last(), max_jump, k);
        let rest = jump_findings(path, hs.drop_last(), max_jump);
        let i = choose|i: int| 0 <= i < rest.len() && rest[i] == f;
        let all = jump_findings(path, hs, max_jump);
        assert(all == rest || all == rest.push(jump_finding(path, hs.last().0, hs[hs.len() - 2].1, hs.last().1)));
        assert(all[i] == f);
    }
}


proof fn lemma_hash_run(k: nat, tail: Seq<char>)
    requires
        tail.len() == 0 || tail[0] != '#',
    ensures
        crate::markdown::run_of(Seq::new(k, |i: int| '#') + tail, '#') == k,
    decreases k,
{
    let t = Seq::new(k, |i: int| '#') + tail;
    if k > 0 {
        assert(t.drop_first() =~= Seq::new((k - 1) as nat, |i: int| '#') + tail);
        lemma_hash_run((k - 1) as nat, tail);
    } else {
        assert(t =~= tail);
    }
}

proof fn lemma_lead_run(p: Seq<char>, t: Seq<char>)
    requires
        forall|i: int| 0 <= i < p.len() ==> crate::text::is_ws(#[trigger] p[i]),
        t.len() == 0 || !crate::text::is_ws(t[0]),
    ensures
        crate::text::lead_ws(p + t) == p.len(),
    decreases p.len(),
{
    if p.len() > 0 {
        assert((p + t).drop_first() =~= p.drop_first() + t);
        assert((p + t)[0] == p[0]);
        assert forall|i: int| 0 <= i < p.drop_first().len() implies crate::text::is_ws(#[trigger] p.drop_first()[i]) by {
            assert(p.drop_first()[i] == p[i + 1]);
        }
        lemma_lead_run(p.drop_first(), t);
    } else {
        assert(p + t =~= t);
    }
}

/// A line of one to six `#`, after any leading whitespace, followed by a
/// space, is a heading of that many levels; seven or more `#`, or `#` run
/// straight into a word (`#tag`), is no heading.
pub proof fn lemma_heading_level(indent: Seq<char>, k: nat, after: char, rest: Seq<char>)
    requires
        forall|i: int| 0 <= i < indent.len() ==> crate::text::is_ws(#[trigger] indent[i]),
        k >= 1,
        after != '#',
    ensures
        k <= 6 && after == ' ' ==> heading_spec(indent + Seq::new(k, |i: int| '#') + seq![after] + rest) == Some(k),
        k > 6 || after != ' ' ==> heading_spec(indent + Seq::new(k, |i: int| '#') + seq![after] + rest) is None,
{
    let hashes = Seq::new(k, |i: int| '#');
    let tail = seq![after] + rest;
    let line = indent + hashes + seq![after] + rest;
    assert(line =~= indent + (hashes + tail));
    assert((hashes + tail)[0] == '#');
    lemma_lead_run(indent, hashes + tail);
    assert(crate::text::trim_start_spec(line) =~= hashes + tail);
    lemma_hash_run(k, tail);
    assert((hashes + tail)[k as int] == after);
}

} // verus!
