//! Word-budget validation.
//!
//! A repository declares which files are governed and how long each may be.
//! RHINO holds no opinion about either: it enforces what the configuration
//! says and reports what it counted, which is why a clean run still lists
//! every path it read.
use crate::config::{Config, WordBudget, WordRule};
use crate::markdown::naming::{last_match, lemma_last_match, refused_view};
use crate::report::{Detail, DetailView, Finding, FindingView, Report, ReportView};
use crate::runtime::{string_views, Tree, TreeFault};
use crate::scan::{
    corpus_of, corpus_spec, document_views, fits_scope, glob_failure, selection_views, Corpus, Scope, Surfaces, Unselectable,
};
use crate::text::{chars_of, decimal, decimal_spec, extend_str, is_whitespace, is_ws, string_of};
use vstd::prelude::*;

verus! {

/// A word: a run of letters, marks and numbers, optionally joined by an
/// apostrophe, hyphen or underscore to another such run, so that
/// `can't-stop` is one word, as a reader counts it.
pub const WORD: &'static str = r"[\p{L}\p{M}\p{N}]+(?:['\u{2019}_-][\p{L}\p{M}\p{N}]+)*";

/// What the `regex` crate finds when it compiles `pattern` and searches
/// `text` from left to right without overlap: the text of each match, in
/// order, or `None` when the pattern does not compile.
pub uninterp spec fn regex_matches(pattern: Seq<char>, text: Seq<char>) -> Option<Seq<Seq<char>>>;

/// Calls `regex::Regex::new` and then `Regex::find_iter`, handing back the
/// text of every match in order. Claimed: the result is `regex_matches` of
/// the two arguments; nothing is claimed of what the matches are.
#[verifier::external_body]
fn find_all(pattern: &str, text: &str) -> (r: Option<Vec<String>>)
    ensures
        match r {
            Some(found) => regex_matches(pattern@, text@) == Some(string_views(found@)),
            None => regex_matches(pattern@, text@) is None,
        },
{
    match regex::Regex::new(pattern) {
        Ok(re) => Some(re.find_iter(text).map(|m| m.as_str().to_string()).collect()),
        Err(_) => None,
    }
}

/// How many runs of non-whitespace characters a text holds.
pub open spec fn ws_words(s: Seq<char>) -> nat
    decreases s.len(),
{
    if s.len() == 0 {
        0
    } else {
        let rest = ws_words(s.drop_last());
        if !is_ws(s.last()) && (s.len() == 1 || is_ws(s[s.len() - 2])) {
            rest + 1
        } else {
            rest
        }
    }
}

/// How many words a text holds under a rule. A pattern that does not
/// compile finds nothing.
pub open spec fn count_spec(text: Seq<char>, rule: WordRule) -> nat {
    match rule {
        WordRule::LettersAndDigits => match regex_matches(WORD@, text) {
            Some(found) => found.len(),
            None => 0,
        },
        WordRule::WhitespaceSeparated => ws_words(text),
    }
}

fn whitespace_words(v: &Vec<char>) -> (r: usize)
    ensures
        r == ws_words(v@),
{
    let mut n: usize = 0;
    let mut i: usize = 0;
    while i < v.len()
        invariant
            i <= v.len(),
            n == ws_words(v@.take(i as int)),
            n <= i,
        decreases v.len() - i,
    {
        let ghost t = v@.take(i + 1);
        assert(t.drop_last() =~= v@.take(i as int));
        assert(t.last() == v@[i as int]);
        if i > 0 {
            assert(t[t.len() - 2] == v@[i - 1]);
        }
        if !is_whitespace(v[i]) && (i == 0 || is_whitespace(v[i - 1])) {
            n = n + 1;
        }
        i = i + 1;
    }
    assert(v@.take(v.len() as int) =~= v@);
    n
}

/// How many words `text` holds under `rule`.
pub fn count(text: &str, rule: WordRule) -> (r: usize)
    ensures
        r == count_spec(text@, rule),
{
    match rule {
        WordRule::LettersAndDigits => match find_all(WORD, text) {
            Some(found) => found.len(),
            None => 0,
        },
        WordRule::WhitespaceSeparated => whitespace_words(&chars_of(text)),
    }
}

} // verus!

verus! {

/// The globs of a budget's surfaces, in order.
pub open spec fn budget_globs(b: WordBudget) -> Seq<Seq<char>> {
    Seq::new(b.surfaces@.len(), |i: int| b.surfaces@[i].glob@)
}

/// The finding for a file longer than its budget.
pub open spec fn limit_finding(path: Seq<char>, words: nat, limit: nat) -> FindingView {
    FindingView {
        kind: "word-limit-exceeded"@,
        path,
        line: None,
        column: None,
        field: None,
        message: "is longer than its declared word budget"@,
        details: seq![("words"@, DetailView::Count(words)), ("limit"@, DetailView::Count(limit))],
    }
}

/// A budget report after one more document: a document no surface governs
/// is passed over; a governed one is listed, and is a finding when it holds
/// more words than the last surface that matches it allows.
pub open spec fn budget_step(v: ReportView, document: (Seq<char>, Seq<char>), b: WordBudget) -> ReportView {
    match last_match(budget_globs(b), document.0) {
        None => v,
        Some(i) => {
            let listed = ReportView { inspected: v.inspected + 1, scanned: v.scanned.push(document.0), ..v };
            let words = count_spec(document.1, b.count);
            let limit = b.surfaces@[i as int].fail as nat;
            if words > limit {
                ReportView { findings: listed.findings.push(limit_finding(document.0, words, limit)), ..listed }
            } else {
                listed
            }
        },
    }
}

/// A budget report after a run over documents, in order.
pub open spec fn budget_run(documents: Seq<(Seq<char>, Seq<char>)>, b: WordBudget) -> ReportView
    decreases documents.len(),
{
    if documents.len() == 0 {
        ReportView {
            category: "word-budget"@,
            subject: "file"@,
            inspected: 0,
            scanned: Seq::empty(),
            notes: Seq::empty(),
            measurements: Seq::empty(),
            findings: Seq::empty(),
            refusal: None,
        }
    } else {
        budget_step(budget_run(documents.drop_last(), b), documents.last(), b)
    }
}

fn glob_texts(b: &WordBudget) -> (r: Vec<&str>)
    ensures
        crate::cli::str_views(r@) == budget_globs(*b),
{
    let mut r: Vec<&str> = Vec::new();
    let mut i: usize = 0;
    while i < b.surfaces.len()
        invariant
            i <= b.surfaces.len(),
            crate::cli::str_views(r@) == Seq::new(i as nat, |k: int| b.surfaces@[k].glob@),
        decreases b.surfaces.len() - i,
    {
        let ghost before = crate::cli::str_views(r@);
        r.push(b.surfaces[i].glob.as_str());
        assert(crate::cli::str_views(r@) =~= before.push(b.surfaces@[i as int].glob@));
        i += 1;
        assert(crate::cli::str_views(r@) =~= Seq::new(i as nat, |k: int| b.surfaces@[k].glob@));
    }
    r
}

/// Checks every Markdown file a declared surface governs against that
/// surface's word limit, listing every governed path whether or not it is
/// over.
pub fn validate<T: Tree>(tree: &T, config: &Config, budget: &WordBudget) -> (r: Report)
    ensures
        match glob_failure("governance-word-budget.surfaces"@, budget_globs(*budget)) {
            Some(reason) => r@ == refused_view("word-budget"@, reason),
            None => exists|listed: Seq<Seq<char>>, reads: Seq<(Seq<char>, Result<Seq<char>, TreeFault>)>|
                #[trigger] corpus_of(*tree, *config, listed, reads) && match corpus_spec(reads) {
                    Err(reason) => r@ == refused_view("word-budget"@, reason),
                    Ok(documents) => r@ == budget_run(documents, *budget),
                },
        },
{
    let globs = glob_texts(budget);
    let surfaces = match Surfaces::compile("governance-word-budget.surfaces", &globs) {
        Ok(s) => s,
        Err(reason) => return Report::refused("word-budget", reason.as_str()),
    };
    let corpus = match Corpus::read(tree, config) {
        Ok(c) => c,
        Err(reason) => return Report::refused("word-budget", reason.as_str()),
    };
    let documents = corpus.documents();
    let ghost dv = document_views(documents@);
    let mut report = Report::new("word-budget", "file");
    let mut i: usize = 0;
    while i < documents.len()
        invariant
            i <= documents.len(),
            dv == document_views(documents@),
            surfaces.patterns() == budget_globs(*budget),
            report@ == budget_run(dv.take(i as int), *budget),
            report@.inspected <= i,
        decreases documents.len() - i,
    {
        let document = &documents[i];
        assert(dv.take(i + 1).drop_last() =~= dv.take(i as int));
        assert(dv.take(i + 1).last() == (document.path@, document.text@));
        let g = surfaces.governing(document.path.as_str());
        proof {
            lemma_last_match(surfaces.patterns(), document.path@, match g {
                Some(x) => Some(x as nat),
                None => None,
            });
        }
        let ghost before = report@;
        if let Some(index) = g {
            report.scanned(document.path.as_str());
            let words = count(document.text.as_str(), budget.count);
            let limit = budget.surfaces[index].fail;
            if words > limit {
                let f = Finding::new("word-limit-exceeded", document.path.as_str(), "is longer than its declared word budget")
                    .with("words", Detail::Count(words))
                    .with("limit", Detail::Count(limit));
                assert(f@.details =~= limit_finding(document.path@, words as nat, limit as nat).details);
                assert(f@ == limit_finding(document.path@, words as nat, limit as nat));
                report.found(f);
            }
            assert(report@ == budget_step(before, (document.path@, document.text@), *budget));
        }
        i += 1;
    }
    assert(dv.take(documents.len() as int) =~= dv);
    report
}

} // verus!

verus! {

/// What a caller who asked for a count without naming a file is told.
pub const NO_FILE: &'static str = "`--file` names what to count; none was given";

/// Each selected path with its word count, in order, or the refusal for
/// the first that gave no text.
pub open spec fn tallied(selection: Seq<(Seq<char>, Result<Seq<char>, Unselectable>)>, rule: WordRule) -> Result<
    Seq<(Seq<char>, nat)>,
    Seq<char>,
>
    decreases selection.len(),
{
    if selection.len() == 0 {
        Ok(Seq::empty())
    } else {
        let (path, read) = selection[0];
        match read {
            Err(_) => Err(path + ": cannot be read"@),
            Ok(text) => match tallied(selection.drop_first(), rule) {
                Ok(rest) => Ok(seq![(path, count_spec(text, rule))] + rest),
                Err(e) => Err(e),
            },
        }
    }
}

/// The words over all counted files.
pub open spec fn word_sum(tally: Seq<(Seq<char>, nat)>) -> nat
    decreases tally.len(),
{
    if tally.len() == 0 {
        0
    } else {
        word_sum(tally.drop_last()) + tally.last().1
    }
}

/// A total as a `usize` holds it: at most `usize::MAX`.
pub open spec fn capped(n: nat) -> nat {
    if n > usize::MAX {
        usize::MAX as nat
    } else {
        n
    }
}

/// The line a counted file gets.
pub open spec fn count_note(t: (Seq<char>, nat)) -> Seq<char> {
    t.0 + ": "@ + decimal_spec(t.1) + " words"@
}

/// The report of a count: a refusal when nothing was named or something
/// named gave no text; otherwise one line per file and the total.
pub open spec fn count_report(narrowed: bool, selection: Seq<(Seq<char>, Result<Seq<char>, Unselectable>)>, rule: WordRule) -> ReportView {
    if !narrowed {
        refused_view("word-count"@, NO_FILE@)
    } else {
        match tallied(selection, rule) {
            Err(m) => refused_view("word-count"@, m),
            Ok(tally) => ReportView {
                category: "word-count"@,
                subject: "file"@,
                inspected: tally.len(),
                scanned: Seq::empty(),
                notes: Seq::new(tally.len(), |i: int| count_note(tally[i])),
                measurements: seq![("wordCount"@, capped(word_sum(tally)))],
                findings: Seq::empty(),
                refusal: None,
            },
        }
    }
}

/// Reports the word count of each file the scope names, and the total;
/// never a finding, since a count has no policy to break.
pub fn inspect<T: Tree>(tree: &T, budget: &WordBudget, scope: &Scope) -> (r: Report)
    ensures
        exists|selection: Seq<(Seq<char>, Result<Seq<char>, Unselectable>)>|
            #[trigger] fits_scope(*tree, *scope, selection) && r@ == count_report(scope.files@.len() > 0, selection, budget.count),
{
    if !scope.is_narrowed() {
        let r = Report::refused("word-count", NO_FILE);
        let ghost witness = Seq::new(0, |i: int| (Seq::<char>::empty(), Err::<Seq<char>, Unselectable>(Unselectable::Missing)));
        assert(fits_scope(*tree, *scope, witness));
        return r;
    }
    let documents = scope.documents(tree);
    let ghost sel = selection_views(documents@);
    assert(fits_scope(*tree, *scope, sel)) by {
        assert forall|i: int| 0 <= i < sel.len() implies (#[trigger] sel[i]).0 == scope.files@[i]@ by {
            assert(sel[i] == (documents@[i].0@, crate::scan::selection_view(documents@[i].1)));
        }
    }
    let mut report = Report::new("word-count", "file");
    let mut total: usize = 0;
    let ghost mut tally: Seq<(Seq<char>, nat)> = Seq::empty();
    let mut i: usize = 0;
    assert(sel.skip(0) =~= sel);
    assert(report@.notes =~= Seq::new(tally.len(), |k: int| count_note(tally[k])));
    while i < documents.len()
        invariant
            i <= documents.len(),
            sel == selection_views(documents@),
            fits_scope(*tree, *scope, sel),
            tally.len() == i,
            tallied(sel, budget.count) == match tallied(sel.skip(i as int), budget.count) {
                Ok(rest) => Ok(tally + rest),
                Err(e) => Err::<Seq<(Seq<char>, nat)>, Seq<char>>(e),
            },
            total == capped(word_sum(tally)),
            report@ == (ReportView {
                category: "word-count"@,
                subject: "file"@,
                inspected: tally.len(),
                scanned: Seq::empty(),
                notes: Seq::new(tally.len(), |k: int| count_note(tally[k])),
                measurements: Seq::empty(),
                findings: Seq::empty(),
                refusal: None,
            }),
        decreases documents.len() - i,
    {
        assert(sel.skip(i as int)[0] == sel[i as int]);
        assert(sel.skip(i as int).drop_first() =~= sel.skip(i + 1));
        let path = documents[i].0.as_str();
        match &documents[i].1 {
            Err(_) => {
                let mut m = chars_of(path);
                extend_str(&mut m, ": cannot be read");
                assert(sel[i as int] == (path@, crate::scan::selection_view(documents@[i as int].1)));
                assert(sel[i as int].1 is Err);
                assert(tallied(sel.skip(i as int), budget.count) == Err::<Seq<(Seq<char>, nat)>, Seq<char>>(m@));
                let r = Report::refused("word-count", string_of(&m).as_str());
                assert(fits_scope(*tree, *scope, sel));
                return r;
            },
            Ok(text) => {
                assert(sel[i as int] == (path@, crate::scan::selection_view(documents@[i as int].1)));
                let words = count(text.as_str(), budget.count);
                let ghost entry = (path@, words as nat);
                proof {
                    match tallied(sel.skip(i + 1), budget.count) {
                        Ok(rest) => {
                            assert(tally + (seq![entry] + rest) =~= tally.push(entry) + rest);
                        },
                        Err(_) => {},
                    }
                    assert(tally.push(entry).drop_last() =~= tally);
                }
                total = total.saturating_add(words);
                report.inspected_one();
                let mut line = chars_of(path);
                extend_str(&mut line, ": ");
                let digits = decimal(words);
                crate::text::extend(&mut line, &digits);
                extend_str(&mut line, " words");
                report.note(string_of(&line).as_str());
                proof {
                    tally = tally.push(entry);
                    assert(report@.notes =~= Seq::new(tally.len(), |k: int| count_note(tally[k])));
                }
            },
        }
        i += 1;
    }
    assert(sel.skip(i as int) =~= Seq::<(Seq<char>, Result<Seq<char>, Unselectable>)>::empty());
    assert(tally + Seq::<(Seq<char>, nat)>::empty() =~= tally);
    report.measure("wordCount", total);
    assert(report@.measurements =~= seq![("wordCount"@, capped(word_sum(tally)))]);
    report
}


/// Any whitespace separates words: joining two texts with one whitespace
/// character (a space, a tab, a line break, or any other) gives exactly the
/// words of both.
pub proof fn lemma_whitespace_joins(a: Seq<char>, w: char, b: Seq<char>)
    requires
        is_ws(w),
    ensures
        ws_words(a + seq![w] + b) == ws_words(a) + ws_words(b),
    decreases b.len(),
{
    if b.len() == 0 {
        assert(a + seq![w] + b =~= a.push(w));
        assert(a.push(w).drop_last() =~= a);
    } else {
        lemma_whitespace_joins(a, w, b.drop_last());
        let x = a + seq![w] + b;
        assert(x.drop_last() =~= a + seq![w] + b.drop_last());
        assert(x.last() == b.last());
        if b.len() == 1 {
            assert(x[x.len() - 2] == w);
        } else {
            assert(x[x.len() - 2] == b[b.len() - 2]);
        }
    }
}

/// A line break, a tab, a carriage return and a space each separate words.
pub proof fn lemma_common_whitespace()
    ensures
        is_ws('\n') && is_ws('\t') && is_ws('\r') && is_ws(' '),
{
}

/// A text holding no whitespace, and something, is one word; a text of
/// whitespace alone holds none.
pub proof fn lemma_one_run(s: Seq<char>)
    ensures
        (s.len() > 0 && forall|i: int| 0 <= i < s.len() ==> !is_ws(#[trigger] s[i])) ==> ws_words(s) == 1,
        (forall|i: int| 0 <= i < s.len() ==> is_ws(#[trigger] s[i])) ==> ws_words(s) == 0,
    decreases s.len(),
{
    if s.len() > 0 {
        lemma_one_run(s.drop_last());
        assert forall|i: int| 0 <= i < s.drop_last().len() implies s.drop_last()[i] == s[i] by {}
    }
}

} // verus!
