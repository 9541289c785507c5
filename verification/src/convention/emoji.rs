//! Emoji-prohibition validation.
//!
//! A repository declares which files may not carry an emoji code point. Only
//! the prohibition is checked: whether an emoji belongs in a sentence is a
//! judgement about meaning, while where one is forbidden the question has one
//! answer and a validator can give it.
use crate::config::{Config, Emoji};
use crate::report::{Detail, DetailView, Finding, FindingView, Report, ReportView};
use crate::runtime::{read_view, string_views, Tree, TreeError, TreeFault};
use crate::scan::{glob_failure, glob_match, Surfaces};
use crate::text::{chars_of, code_point, digit_spec, extend, extend_str, lines_spec, string_of, views};
use vstd::prelude::*;

verus! {

/// The code-point blocks an emoji comes from: pictographs, transport, flags
/// and supplemental symbols; miscellaneous symbols and dingbats; the symbols
/// and arrows used as emoji; the variation selectors that only ever decorate
/// one; and the enclosed ideographs used as emoji. An em dash, an arrow, a
/// copyright sign and a plus-minus sign all live just outside them.
pub open spec fn emoji_spec(c: char) -> bool {
    ||| '\u{1F000}' <= c && c <= '\u{1FAFF}'
    ||| '\u{2600}' <= c && c <= '\u{27BF}'
    ||| '\u{2B00}' <= c && c <= '\u{2BFF}'
    ||| '\u{FE00}' <= c && c <= '\u{FE0F}'
    ||| '\u{3297}' <= c && c <= '\u{3299}'
}

pub fn is_emoji(character: char) -> (r: bool)
    ensures
        r == emoji_spec(character),
{
    ('\u{1F000}' <= character && character <= '\u{1FAFF}') || ('\u{2600}' <= character && character
        <= '\u{27BF}') || ('\u{2B00}' <= character && character <= '\u{2BFF}') || ('\u{FE00}'
        <= character && character <= '\u{FE0F}') || ('\u{3297}' <= character && character <= '\u{3299}')
}

/// An uppercase hexadecimal digit.
pub open spec fn upper_hex(d: nat) -> char {
    if d < 10 {
        digit_spec(d)
    } else if d == 10 {
        'A'
    } else if d == 11 {
        'B'
    } else if d == 12 {
        'C'
    } else if d == 13 {
        'D'
    } else if d == 14 {
        'E'
    } else {
        'F'
    }
}

/// A number in uppercase hexadecimal, zero-padded to at least `width`.
pub open spec fn hex_padded(n: nat, width: nat) -> Seq<char>
    decreases width, n,
{
    if n < 16 && width <= 1 {
        seq![upper_hex(n)]
    } else {
        hex_padded(n / 16, if width > 0 { (width - 1) as nat } else { 0 }).push(upper_hex(n % 16))
    }
}

fn upper_hex_digit(d: u32) -> (c: char)
    requires
        d < 16,
    ensures
        c == upper_hex(d as nat),
{
    if d < 10 {
        crate::text::digit(d as usize)
    } else if d == 10 {
        'A'
    } else if d == 11 {
        'B'
    } else if d == 12 {
        'C'
    } else if d == 13 {
        'D'
    } else if d == 14 {
        'E'
    } else {
        'F'
    }
}

fn hex_of(n: u32, width: u32) -> (r: Vec<char>)
    ensures
        r@ == hex_padded(n as nat, width as nat),
    decreases width, n,
{
    if n < 16 && width <= 1 {
        let mut r = Vec::new();
        r.push(upper_hex_digit(n));
        assert(r@ =~= seq![upper_hex(n as nat)]);
        r
    } else {
        let w = if width > 0 {
            width - 1
        } else {
            0
        };
        let mut r = hex_of(n / 16, w);
        r.push(upper_hex_digit(n % 16));
        r
    }
}

/// The first emoji on a line, if any.
pub open spec fn first_emoji(line: Seq<char>) -> Option<char>
    decreases line.len(),
{
    if line.len() == 0 {
        None
    } else if emoji_spec(line[0]) {
        Some(line[0])
    } else {
        first_emoji(line.drop_first())
    }
}

/// The finding for a line holding an emoji.
pub open spec fn emoji_finding(path: Seq<char>, line: nat, c: char) -> FindingView {
    FindingView {
        kind: "emoji-in-prohibited-file"@,
        path,
        line: Some(line),
        column: None,
        field: None,
        message: "holds an emoji code point"@,
        details: seq![("codePoint"@, DetailView::Text("U+"@ + hex_padded(c as nat, 4)))],
    }
}

/// One finding per line that holds an emoji, at the first one, in order.
pub open spec fn line_findings(path: Seq<char>, ls: Seq<Seq<char>>) -> Seq<FindingView>
    decreases ls.len(),
{
    if ls.len() == 0 {
        Seq::empty()
    } else {
        let rest = line_findings(path, ls.drop_last());
        match first_emoji(ls.last()) {
            Some(c) => rest.push(emoji_finding(path, ls.len(), c)),
            None => rest,
        }
    }
}

fn find_emoji(line: &Vec<char>) -> (r: Option<char>)
    ensures
        r == first_emoji(line@),
{
    let mut i: usize = 0;
    assert(line@.skip(0) =~= line@);
    while i < line.len()
        invariant
            i <= line.len(),
            first_emoji(line@) == first_emoji(line@.skip(i as int)),
        decreases line.len() - i,
    {
        assert(line@.skip(i as int)[0] == line@[i as int]);
        assert(line@.skip(i as int).drop_first() =~= line@.skip(i + 1));
        if is_emoji(line[i]) {
            return Some(line[i]);
        }
        i += 1;
    }
    None
}

/// Every line of a text that holds an emoji, as findings.
pub fn inspect(path: &str, text: &str) -> (r: Vec<Finding>)
    ensures
        crate::report::finding_views(r@) == line_findings(path@, lines_spec(text@)),
{
    let ls = crate::text::lines(&chars_of(text));
    let ghost lv = views(ls@);
    let mut out: Vec<Finding> = Vec::new();
    let mut i: usize = 0;
    while i < ls.len()
        invariant
            i <= ls.len(),
            lv == views(ls@),
            crate::report::finding_views(out@) == line_findings(path@, lv.take(i as int)),
        decreases ls.len() - i,
    {
        assert(lv.take(i + 1).drop_last() =~= lv.take(i as int));
        assert(lv.take(i + 1).last() == ls@[i as int]@);
        if let Some(c) = find_emoji(&ls[i]) {
            let mut code = chars_of("U+");
            extend(&mut code, &hex_of(code_point(c), 4));
            let f = Finding::new("emoji-in-prohibited-file", path, "holds an emoji code point").at_line(i + 1).with(
                "codePoint",
                Detail::Text(string_of(&code)),
            );
            let ghost before = crate::report::finding_views(out@);
            let ghost fv = f@;
            out.push(f);
            assert(crate::report::finding_views(out@) =~= before.push(fv));
            assert(fv == emoji_finding(path@, (i + 1) as nat, c));
        }
        i += 1;
    }
    assert(lv.take(ls.len() as int) =~= lv);
    out
}

/// An emoji report after the governed files' reads: each scanned with its
/// findings, a vanished one skipped, and the first unreadable or non-text
/// one refusing the run.
pub open spec fn emoji_run(reads: Seq<(Seq<char>, Result<Seq<char>, TreeFault>)>) -> ReportView
    decreases reads.len(),
{
    if reads.len() == 0 {
        ReportView {
            category: "emoji"@,
            subject: "file"@,
            inspected: 0,
            scanned: Seq::empty(),
            notes: Seq::empty(),
            measurements: Seq::empty(),
            findings: Seq::empty(),
            refusal: None,
        }
    } else {
        let v = emoji_run(reads.drop_last());
        let (path, read) = reads.last();
        if v.refusal is Some {
            v
        } else {
            match read {
                Err(TreeFault::NotFound) => v,
                Err(TreeFault::Unreadable(reason)) => crate::markdown::naming::refused_view("emoji"@, path + ": "@ + reason),
                Err(TreeFault::NotText) => crate::markdown::naming::refused_view("emoji"@, path + ": holds no text"@),
                Ok(text) => ReportView {
                    inspected: v.inspected + 1,
                    scanned: v.scanned.push(path),
                    findings: v.findings + line_findings(path, lines_spec(text)),
                    ..v
                },
            }
        }
    }
}

pub open spec fn reads_view(reads: Seq<(String, Result<String, TreeError>)>) -> Seq<(Seq<char>, Result<Seq<char>, TreeFault>)> {
    Seq::new(reads.len(), |i: int| (reads[i].0@, read_view(reads[i].1)))
}

/// Judges the reads of the governed files.
pub fn judge(reads: &Vec<(String, Result<String, TreeError>)>) -> (r: Report)
    ensures
        r@ == emoji_run(reads_view(reads@)),
{
    let ghost rv = reads_view(reads@);
    let mut report = Report::new("emoji", "file");
    let mut i: usize = 0;
    while i < reads.len()
        invariant
            i <= reads.len(),
            rv == reads_view(reads@),
            report@ == emoji_run(rv.take(i as int)),
            report@.refusal is None,
            report@.inspected <= i,
        decreases reads.len() - i,
    {
        assert(rv.take(i + 1).drop_last() =~= rv.take(i as int));
        assert(rv.take(i + 1).last() == rv[i as int]);
        let path = reads[i].0.as_str();
        match &reads[i].1 {
            Err(TreeError::NotFound) => {},
            Err(TreeError::Unreadable(reason)) => {
                let mut m = chars_of(path);
                extend_str(&mut m, ": ");
                extend_str(&mut m, reason.as_str());
                let r = Report::refused("emoji", string_of(&m).as_str());
                proof {
                    lemma_refusal_stays(rv, (i + 1) as nat);
                }
                assert(rv.take(reads.len() as int) =~= rv);
                return r;
            },
            Err(TreeError::NotText) => {
                let mut m = chars_of(path);
                extend_str(&mut m, ": holds no text");
                let r = Report::refused("emoji", string_of(&m).as_str());
                proof {
                    lemma_refusal_stays(rv, (i + 1) as nat);
                }
                assert(rv.take(reads.len() as int) =~= rv);
                return r;
            },
            Ok(text) => {
                report.scanned(path);
                let mut found = inspect(path, text.as_str());
                let ghost all = crate::report::finding_views(found@);
                let ghost before = report@;
                let mut k: usize = 0;
                let n = found.len();
                while k < n
                    invariant
                        k <= n,
                        n == all.len(),
                        crate::report::finding_views(found@) == all.skip(k as int),
                        report@ == (ReportView { findings: before.findings + all.take(k as int), ..before }),
                    decreases n - k,
                {
                    let ghost prev_found = found@;
                    assert(found@.len() == crate::report::finding_views(found@).len());
                    assert(crate::report::finding_views(found@)[0] == all[k as int]);
                    let f = found.remove(0);
                    assert(found@ =~= prev_found.subrange(1, prev_found.len() as int));
                    assert forall|j: int| 0 <= j < found@.len() implies crate::report::finding_views(found@)[j] == all.skip(k + 1)[j] by {
                        assert(crate::report::finding_views(prev_found)[j + 1] == all.skip(k as int)[j + 1]);
                    }
                    assert(crate::report::finding_views(found@) =~= all.skip(k + 1));
                    report.found(f);
                    assert(all.take(k + 1) =~= all.take(k as int).push(all[k as int]));
                    k += 1;
                }
                assert(all.take(n as int) =~= all);
            },
        }
        i += 1;
    }
    assert(rv.take(reads.len() as int) =~= rv);
    report
}

/// The paths some prohibiting glob matches, in order.
pub open spec fn governed(paths: Seq<Seq<char>>, patterns: Seq<Seq<char>>) -> Seq<Seq<char>>
    decreases paths.len(),
{
    if paths.len() == 0 {
        Seq::empty()
    } else {
        let rest = governed(paths.drop_last(), patterns);
        if exists|i: int| 0 <= i < patterns.len() && glob_match(#[trigger] patterns[i], paths.last()) {
            rest.push(paths.last())
        } else {
            rest
        }
    }
}

pub open spec fn emoji_globs(e: Emoji) -> Seq<Seq<char>> {
    Seq::new(e.prohibited@.len(), |i: int| e.prohibited@[i].glob@)
}

fn glob_texts(e: &Emoji) -> (r: Vec<&str>)
    ensures
        crate::cli::str_views(r@) == emoji_globs(*e),
{
    let mut r: Vec<&str> = Vec::new();
    let mut i: usize = 0;
    while i < e.prohibited.len()
        invariant
            i <= e.prohibited.len(),
            crate::cli::str_views(r@) == Seq::new(i as nat, |k: int| e.prohibited@[k].glob@),
        decreases e.prohibited.len() - i,
    {
        let ghost before = crate::cli::str_views(r@);
        r.push(e.prohibited[i].glob.as_str());
        assert(crate::cli::str_views(r@) =~= before.push(e.prohibited@[i as int].glob@));
        i += 1;
        assert(crate::cli::str_views(r@) =~= Seq::new(i as nat, |k: int| e.prohibited@[k].glob@));
    }
    r
}

/// Checks every listed file a prohibiting glob matches for emoji code
/// points, one finding per line at the first one.
pub fn validate<T: Tree>(tree: &T, config: &Config, emoji: &Emoji) -> (r: Report)
    ensures
        match glob_failure("convention-emoji.prohibited"@, emoji_globs(*emoji)) {
            Some(reason) => r@ == crate::markdown::naming::refused_view("emoji"@, reason),
            None => exists|listed: Seq<Seq<char>>, reads: Seq<(Seq<char>, Result<Seq<char>, TreeFault>)>|
                tree.lists(listed) && (forall|i: int| 0 <= i < reads.len() ==> tree.reads_as((#[trigger] reads[i]).0, reads[i].1))
                    && Seq::new(reads.len(), |i: int| reads[i].0) == governed(
                    #[trigger] crate::scan::selected(listed, string_views(crate::config::excluded_spec(*config)), false),
                    emoji_globs(*emoji),
                ) && r@ == #[trigger] emoji_run(reads),
        },
{
    let globs = glob_texts(emoji);
    let prohibited = match Surfaces::compile("convention-emoji.prohibited", &globs) {
        Ok(s) => s,
        Err(reason) => return Report::refused("emoji", reason.as_str()),
    };
    let walked = crate::scan::files(tree, config);
    let ghost wv = string_views(walked@);
    let ghost pats = emoji_globs(*emoji);
    let mut reads: Vec<(String, Result<String, TreeError>)> = Vec::new();
    let mut i: usize = 0;
    while i < walked.len()
        invariant
            i <= walked.len(),
            wv == string_views(walked@),
            prohibited.patterns() == pats,
            Seq::new(reads_view(reads@).len(), |k: int| reads_view(reads@)[k].0) == governed(wv.take(i as int), pats),
            forall|k: int|
                0 <= k < reads_view(reads@).len() ==> tree.reads_as((#[trigger] reads_view(reads@)[k]).0, reads_view(reads@)[k].1),
        decreases walked.len() - i,
    {
        let path = walked[i].as_str();
        assert(wv.take(i + 1).drop_last() =~= wv.take(i as int));
        assert(wv.take(i + 1).last() == path@);
        let g = prohibited.governing(path);
        let ghost before = Seq::new(reads_view(reads@).len(), |k: int| reads_view(reads@)[k].0);
        if g.is_some() {
            let read = tree.read(path);
            let ghost rvb = reads_view(reads@);
            let ghost one = (path@, crate::runtime::read_view(read));
            reads.push((path.to_string(), read));
            assert(reads_view(reads@) =~= rvb.push(one));
            assert(Seq::new(reads_view(reads@).len(), |k: int| reads_view(reads@)[k].0) =~= before.push(path@));
        } else {
            assert(!(exists|j: int| 0 <= j < pats.len() && glob_match(#[trigger] pats[j], path@)));
        }
        i += 1;
    }
    assert(wv.take(walked.len() as int) =~= wv);
    let ghost listed = choose|listed: Seq<Seq<char>>|
        tree.lists(listed) && wv == #[trigger] crate::scan::selected(listed, string_views(crate::config::excluded_spec(*config)), false);
    let r = judge(&reads);
    assert(tree.lists(listed));
    r
}

/// Once a run is refused, later reads leave it as it is.
pub proof fn lemma_refusal_stays(rv: Seq<(Seq<char>, Result<Seq<char>, TreeFault>)>, n: nat)
    requires
        n <= rv.len(),
        emoji_run(rv.take(n as int)).refusal is Some,
    ensures
        emoji_run(rv) == emoji_run(rv.take(n as int)),
    decreases rv.len(),
{
    if rv.len() == n {
        assert(rv.take(n as int) =~= rv);
    } else {
        assert(rv.drop_last().take(n as int) =~= rv.take(n as int));
        lemma_refusal_stays(rv.drop_last(), n);
    }
}


/// Every code point of each declared emoji block is an emoji: the
/// miscellaneous symbols and pictographs, emoticons and their supplements;
/// the miscellaneous symbols and dingbats (U+2600..U+27BF, so the sun, the
/// telephone, the recycling symbol, the warning sign and the check mark);
/// the miscellaneous symbols and arrows used as emoji; the variation
/// selectors; and the enclosed ideographs used as emoji.
pub proof fn lemma_emoji_blocks(c: char)
    ensures
        '\u{1F000}' <= c <= '\u{1FAFF}' ==> emoji_spec(c),
        '\u{2600}' <= c <= '\u{27BF}' ==> emoji_spec(c),
        '\u{2B00}' <= c <= '\u{2BFF}' ==> emoji_spec(c),
        '\u{FE00}' <= c <= '\u{FE0F}' ==> emoji_spec(c),
        '\u{3297}' <= c <= '\u{3299}' ==> emoji_spec(c),
        emoji_spec('\u{2600}') && emoji_spec('\u{260E}') && emoji_spec('\u{267B}') && emoji_spec('\u{26A0}')
            && emoji_spec('\u{26A1}') && emoji_spec('\u{26D4}') && emoji_spec('\u{2713}') && emoji_spec('\u{1F98F}'),
{
}

/// Nothing outside the declared blocks is an emoji: an em dash, an arrow,
/// a copyright sign, a plus-minus sign, and plain letters and digits all
/// pass.
pub proof fn lemma_outside_blocks(c: char)
    requires
        !('\u{1F000}' <= c <= '\u{1FAFF}'),
        !('\u{2600}' <= c <= '\u{27BF}'),
        !('\u{2B00}' <= c <= '\u{2BFF}'),
        !('\u{FE00}' <= c <= '\u{FE0F}'),
        !('\u{3297}' <= c <= '\u{3299}'),
    ensures
        !emoji_spec(c),
{
}

} // verus!
