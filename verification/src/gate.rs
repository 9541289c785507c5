//! Gate dispatch.
//!
//! RHINO does not decide what a gate does. It decides which gates a surface
//! selects, what order they run in, what each child is told, and when the
//! sequence stops.
use crate::config::v2::{runs_at_spec, surfaces, Document, GateView};
use crate::runtime::{launch_view, optional_text, Launch, LaunchError, LaunchFailure, LaunchView, Launched, Launcher};
use crate::text::{chars_of, decimal, extend, extend_str, string_of};
use crate::Outcome;
use std::collections::BTreeMap;
use vstd::prelude::*;

verus! {

/// How one launched gate ended, as plain values.
pub ghost enum Ran {
    /// The child ran and exited with this code.
    Exited(int),
    /// The child never ran.
    Failed(LaunchFailure, Seq<char>),
}

pub open spec fn ran(r: Result<Launched, LaunchError>) -> Ran {
    match r {
        Ok(l) => Ran::Exited(l.code as int),
        Err(e) => Ran::Failed(e.failure, e.reason@),
    }
}

/// The exit code for a child that never ran: `127` when the program does not
/// exist, `126` when it could not be executed, `2` for any other refusal.
pub open spec fn failure_code(f: LaunchFailure) -> u8 {
    match f {
        LaunchFailure::NotFound => 127,
        LaunchFailure::NotExecutable => 126,
        LaunchFailure::Refused => 2,
    }
}

/// The identifiers of the gates a surface selects, in declared order.
pub open spec fn selected_ids(gates: Seq<GateView>, surface: Seq<char>) -> Seq<Seq<char>>
    decreases gates.len(),
{
    if gates.len() == 0 {
        Seq::empty()
    } else {
        let rest = selected_ids(gates.drop_last(), surface);
        if runs_at_spec(gates.last(), surface) {
            rest.push(gates.last().id)
        } else {
            rest
        }
    }
}

/// The declared vectors of the gates a surface selects, in declared order.
pub open spec fn selected_runs(gates: Seq<GateView>, surface: Seq<char>) -> Seq<Seq<Seq<char>>>
    decreases gates.len(),
{
    if gates.len() == 0 {
        Seq::empty()
    } else {
        let rest = selected_runs(gates.drop_last(), surface);
        if runs_at_spec(gates.last(), surface) {
            rest.push(gates.last().run)
        } else {
            rest
        }
    }
}

/// What the child of a selected gate is handed: its declared vector with
/// the hook's own arguments appended, the repository root as its directory,
/// the surface, the hook's standard input, and no other environment.
pub open spec fn gate_launch(
    run: Seq<Seq<char>>,
    forwarded: Seq<Seq<char>>,
    root: Seq<char>,
    surface: Seq<char>,
    stdin: Option<Seq<char>>,
) -> LaunchView {
    LaunchView { arguments: run + forwarded, directory: root, surface, stdin, environment: Map::empty() }
}

/// Whether each result is an ending the launcher gave the child of the
/// selected gate in that place, started as [`gate_launch`] describes.
pub open spec fn launched_as<L: Launcher>(
    launcher: L,
    runs: Seq<Seq<Seq<char>>>,
    forwarded: Seq<Seq<char>>,
    root: Seq<char>,
    surface: Seq<char>,
    stdin: Option<Seq<char>>,
    results: Seq<Ran>,
) -> bool {
    forall|k: int|
        0 <= k < results.len() ==> #[trigger] launched_at(launcher, gate_launch(runs[k], forwarded, root, surface, stdin), results[k])
}

/// Whether `result` is how an ending the launcher gave a child started as
/// `launch` reads.
pub open spec fn launched_at<L: Launcher>(launcher: L, launch: LaunchView, result: Ran) -> bool {
    exists|a: Result<Launched, LaunchError>| #[trigger] launcher.gives(launch, a) && ran(a) == result
}

proof fn lemma_launched_push<L: Launcher>(
    launcher: L,
    runs: Seq<Seq<Seq<char>>>,
    forwarded: Seq<Seq<char>>,
    root: Seq<char>,
    surface: Seq<char>,
    stdin: Option<Seq<char>>,
    results: Seq<Ran>,
    answer: Result<Launched, LaunchError>,
)
    requires
        launched_as(launcher, runs, forwarded, root, surface, stdin, results),
        launcher.gives(gate_launch(runs[results.len() as int], forwarded, root, surface, stdin), answer),
    ensures
        launched_as(launcher, runs, forwarded, root, surface, stdin, results.push(ran(answer))),
{
    let after = results.push(ran(answer));
    assert forall|k: int| 0 <= k < after.len() implies #[trigger] launched_at(
        launcher,
        gate_launch(runs[k], forwarded, root, surface, stdin),
        after[k],
    ) by {
        if k < results.len() {
            assert(after[k] == results[k]);
        }
    }
}

proof fn lemma_runs_match(gates: Seq<GateView>, surface: Seq<char>)
    ensures
        selected_runs(gates, surface).len() == selected_ids(gates, surface).len(),
    decreases gates.len(),
{
    if gates.len() > 0 {
        lemma_runs_match(gates.drop_last(), surface);
    }
}

proof fn lemma_runs_prefix(gates: Seq<GateView>, surface: Seq<char>, m: int)
    requires
        0 <= m <= gates.len(),
    ensures
        selected_runs(gates.take(m), surface).is_prefix_of(selected_runs(gates, surface)),
    decreases gates.len(),
{
    if m == gates.len() {
        assert(gates.take(m) =~= gates);
    } else {
        assert(gates.drop_last().take(m) =~= gates.take(m));
        lemma_runs_prefix(gates.drop_last(), surface, m);
    }
}

/// Whether `results` are what running the selected gates in order gave:
/// every one but the last passed, and the sequence stops early only at a
/// gate that did not pass.
pub open spec fn in_order(ids: Seq<Seq<char>>, results: Seq<Ran>) -> bool {
    &&& results.len() <= ids.len()
    &&& forall|k: int| 0 <= k < results.len() - 1 ==> #[trigger] results[k] == Ran::Exited(0)
    &&& results.len() < ids.len() ==> results.len() > 0 && results.last() != Ran::Exited(0)
}

/// One line per gate that passed, in order.
pub open spec fn passed_report(ids: Seq<Seq<char>>) -> Seq<char>
    decreases ids.len(),
{
    if ids.len() == 0 {
        Seq::empty()
    } else {
        passed_report(ids.drop_last()) + "[gate] "@ + ids.last() + " passed\n"@
    }
}

/// The exit code, report and standard error of a dispatch whose launched
/// gates gave `results`: clean when the last passed; otherwise the report
/// ends with whichever gate failed or could not run, and standard error
/// names it.
pub open spec fn dispatched(ids: Seq<Seq<char>>, surface: Seq<char>, results: Seq<Ran>) -> (u8, Seq<char>, Seq<char>) {
    if results.len() == 0 || results.last() == Ran::Exited(0) {
        (0, passed_report(ids.take(results.len() as int)), Seq::empty())
    } else {
        let k = results.len() - 1;
        let id = ids[k];
        let before = passed_report(ids.take(k));
        match results.last() {
            Ran::Failed(f, reason) => (
                failure_code(f),
                before + "[gate] "@ + id + " could not run\n"@,
                "rhino: gate `"@ + id + "`: "@ + reason + "\n"@,
            ),
            Ran::Exited(_) => (1, before + "[gate] "@ + id + " failed\n"@, "[gate] "@ + id + " reported a finding at "@ + surface + "\n"@),
        }
    }
}

proof fn lemma_selected_prefix(gates: Seq<GateView>, surface: Seq<char>, m: int)
    requires
        0 <= m <= gates.len(),
    ensures
        selected_ids(gates.take(m), surface).is_prefix_of(selected_ids(gates, surface)),
    decreases gates.len(),
{
    if m == gates.len() {
        assert(gates.take(m) =~= gates);
    } else {
        assert(gates.drop_last().take(m) =~= gates.take(m));
        lemma_selected_prefix(gates.drop_last(), surface, m);
    }
}

/// What a dispatch to a surface outside the closed set is told.
pub open spec fn unknown_surface(surface: Seq<char>) -> Seq<char> {
    "rhino: `--surface "@ + surface + "` is not a surface this build dispatches; the closed set is "@
        + crate::text::join_spec(surfaces(), ", "@) + "\n"@
}

/// Run every gate the surface selects, in declared order, each with its
/// declared vector and the hook's own arguments, the repository root as its
/// directory, and the hook's standard input; stop at the first that fails or
/// cannot run.
pub fn dispatch<L: Launcher>(
    document: &Document,
    surface: &str,
    root: &str,
    forwarded: &[String],
    stdin: Option<&str>,
    launcher: &L,
) -> (r: Outcome)
    ensures
        !surfaces().contains(surface@) ==> r.exit_code == 2 && r.stdout@ == Seq::<char>::empty() && r.stderr@
            == unknown_surface(surface@),
        surfaces().contains(surface@) ==> exists|results: Seq<Ran>|
            in_order(selected_ids(document@.gates, surface@), results) && launched_as(
                *launcher,
                selected_runs(document@.gates, surface@),
                crate::runtime::string_views(forwarded@),
                root@,
                surface@,
                optional_text(stdin),
                results,
            ) && #[trigger] dispatched(
                selected_ids(document@.gates, surface@),
                surface@,
                results,
            ) == (r.exit_code, r.stdout@, r.stderr@),
{
    let known = vec!["commit-msg", "pre-commit", "pre-push", "ci"];
    assert(crate::cli::str_views(known@) =~= surfaces());
    let mut listed = false;
    let mut s: usize = 0;
    while s < known.len()
        invariant
            s <= known.len(),
            crate::cli::str_views(known@) == surfaces(),
            listed == exists|t: int| 0 <= t < s && surfaces()[t] == surface@,
        decreases known.len() - s,
    {
        assert(surfaces()[s as int] == known@[s as int]@);
        if crate::text::same(&chars_of(known[s]), &chars_of(surface)) {
            listed = true;
        }
        proof {
            if !listed {
                assert forall|t: int| 0 <= t < s + 1 implies surfaces()[t] != surface@ by {
                    if t < s {
                        assert(!(0 <= t < s && surfaces()[t] == surface@));
                    }
                }
            }
        }
        s += 1;
    }
    if !listed {
        let mut m = chars_of("rhino: `--surface ");
        extend_str(&mut m, surface);
        extend_str(&mut m, "` is not a surface this build dispatches; the closed set is ");
        let mut parts: Vec<Vec<char>> = Vec::new();
        let mut t: usize = 0;
        while t < known.len()
            invariant
                t <= known.len(),
                crate::text::views(parts@) == crate::cli::str_views(known@).take(t as int),
            decreases known.len() - t,
        {
            let ghost before = crate::text::views(parts@);
            parts.push(chars_of(known[t]));
            assert(crate::text::views(parts@) =~= before.push(known@[t as int]@));
            assert(crate::text::views(parts@) =~= crate::cli::str_views(known@).take(t + 1));
            t += 1;
        }
        assert(crate::cli::str_views(known@).take(known.len() as int) =~= surfaces());
        extend(&mut m, &crate::text::join(&parts, &chars_of(", ")));
        extend_str(&mut m, "\n");
        return Outcome::refused(string_of(&m).as_str());
    }
    let environment: BTreeMap<String, String> = BTreeMap::new();
    let ghost gv = document@.gates;
    let ghost ids = selected_ids(gv, surface@);
    let ghost runs = selected_runs(gv, surface@);
    let ghost fv = crate::runtime::string_views(forwarded@);
    let ghost sv = optional_text(stdin);
    let mut report: Vec<char> = Vec::new();
    let ghost mut results: Seq<Ran> = Seq::empty();
    let mut i: usize = 0;
    while i < document.gates.len()
        invariant
            i <= document.gates.len(),
            gv == document@.gates,
            ids == selected_ids(gv, surface@),
            surfaces().contains(surface@),
            results.len() == selected_ids(gv.take(i as int), surface@).len(),
            forall|k: int| 0 <= k < results.len() ==> #[trigger] results[k] == Ran::Exited(0),
            report@ == passed_report(selected_ids(gv.take(i as int), surface@)),
            runs == selected_runs(gv, surface@),
            fv == crate::runtime::string_views(forwarded@),
            sv == optional_text(stdin),
            environment@ == Map::<String, String>::empty(),
            launched_as(*launcher, runs, fv, root@, surface@, sv, results),
        decreases document.gates.len() - i,
    {
        let gate = &document.gates[i];
        let ghost sel = selected_ids(gv.take(i as int), surface@);
        assert(gv.take(i + 1).drop_last() =~= gv.take(i as int));
        assert(gv.take(i + 1).last() == gate@);
        proof {
            lemma_selected_prefix(gv, surface@, i + 1);
            lemma_runs_prefix(gv, surface@, i + 1);
            lemma_runs_match(gv.take(i + 1), surface@);
            lemma_runs_match(gv.take(i as int), surface@);
            lemma_runs_match(gv, surface@);
        }
        if gate.runs_at(surface) {
            let ghost next = sel.push(gate@.id);
            assert(selected_ids(gv.take(i + 1), surface@) == next);
            assert(next.len() <= ids.len());
            assert(ids.subrange(0, next.len() as int) == next);
            assert(next[sel.len() as int] == gate@.id);
            assert(ids.subrange(0, next.len() as int)[sel.len() as int] == ids[sel.len() as int]);
            assert(ids[sel.len() as int] == gate@.id);
            assert(ids.take(sel.len() as int) =~= sel) by {
                assert forall|k: int| 0 <= k < sel.len() implies ids.take(sel.len() as int)[k] == sel[k] by {
                    assert(ids.subrange(0, next.len() as int)[k] == ids[k]);
                    assert(next[k] == sel[k]);
                }
            }
            let ghost rsel = selected_runs(gv.take(i as int), surface@);
            let ghost rnext = rsel.push(gate@.run);
            assert(selected_runs(gv.take(i + 1), surface@) == rnext);
            assert(runs.subrange(0, rnext.len() as int) == rnext);
            assert(runs.subrange(0, rnext.len() as int)[rsel.len() as int] == runs[rsel.len() as int]);
            assert(runs[results.len() as int] == gate@.run);
            let arguments = gate_arguments(gate, forwarded);
            let l = Launch { arguments: arguments.as_slice(), directory: root, surface, stdin, environment: &environment };
            let ghost lv = launch_view(l);
            assert(lv == gate_launch(runs[results.len() as int], fv, root@, surface@, sv)) by {
                assert(crate::runtime::string_views(arguments@) =~= crate::report::string_views(arguments@));
                assert(crate::runtime::string_views(forwarded@) =~= crate::report::string_views(forwarded@));
            }
            let launched = launcher.launch(l);
            let ghost outcome = ran(launched);
            let ghost after = results.push(outcome);
            assert(after.last() == outcome);
            assert(after.drop_last() =~= results);
            assert forall|k: int| 0 <= k < after.len() - 1 implies #[trigger] after[k] == Ran::Exited(0) by {
                assert(after[k] == results[k]);
            }
            proof {
                lemma_launched_push(*launcher, runs, fv, root@, surface@, sv, results, launched);
            }
            match launched {
                Err(e) => {
                    let mut out = report.clone();
                    assert(out@ == report@);
                    extend_str(&mut out, "[gate] ");
                    extend_str(&mut out, gate.id.as_str());
                    extend_str(&mut out, " could not run\n");
                    let mut err = chars_of("rhino: gate `");
                    extend_str(&mut err, gate.id.as_str());
                    extend_str(&mut err, "`: ");
                    extend_str(&mut err, e.reason.as_str());
                    extend_str(&mut err, "\n");
                    let code: u8 = match e.failure {
                        LaunchFailure::NotFound => 127,
                        LaunchFailure::NotExecutable => 126,
                        LaunchFailure::Refused => 2,
                    };
                    let r = Outcome { exit_code: code, stdout: string_of(&out), stderr: string_of(&err) };
                    assert(in_order(ids, after));
                    assert(dispatched(ids, surface@, after) == (r.exit_code, r.stdout@, r.stderr@));
                    return r;
                },
                Ok(result) => {
                    if result.code == 0 {
                        extend_str(&mut report, "[gate] ");
                        extend_str(&mut report, gate.id.as_str());
                        extend_str(&mut report, " passed\n");
                        proof {
                            assert(next.drop_last() =~= sel);
                            results = after;
                        }
                    } else {
                        let mut out = report.clone();
                        assert(out@ == report@);
                        extend_str(&mut out, "[gate] ");
                        extend_str(&mut out, gate.id.as_str());
                        extend_str(&mut out, " failed\n");
                        let mut err = chars_of("[gate] ");
                        extend_str(&mut err, gate.id.as_str());
                        extend_str(&mut err, " reported a finding at ");
                        extend_str(&mut err, surface);
                        extend_str(&mut err, "\n");
                        let r = Outcome { exit_code: 1, stdout: string_of(&out), stderr: string_of(&err) };
                        assert(in_order(ids, after));
                        assert(dispatched(ids, surface@, after) == (r.exit_code, r.stdout@, r.stderr@));
                        return r;
                    }
                },
            }
        } else {
            assert(selected_ids(gv.take(i + 1), surface@) == sel);
        }
        i += 1;
    }
    assert(gv.take(document.gates.len() as int) =~= gv);
    assert(ids.take(results.len() as int) =~= ids);
    let r = Outcome::clean(string_of(&report).as_str());
    assert(in_order(ids, results));
    assert(dispatched(ids, surface@, results) == (r.exit_code, r.stdout@, r.stderr@));
    r
}

/// A gate's declared vector with the hook's own arguments appended.
fn gate_arguments(gate: &crate::config::v2::Gate, forwarded: &[String]) -> (r: Vec<String>)
    ensures
        crate::report::string_views(r@) == gate@.run + crate::report::string_views(forwarded@),
{
    let mut r: Vec<String> = Vec::new();
    let mut i: usize = 0;
    while i < gate.run.len()
        invariant
            i <= gate.run.len(),
            crate::report::string_views(r@) == gate@.run.take(i as int),
        decreases gate.run.len() - i,
    {
        let ghost before = crate::report::string_views(r@);
        let text = gate.run[i].as_str().to_string();
        assert(text@ == gate.run@[i as int]@);
        r.push(text);
        assert(crate::report::string_views(r@) =~= before.push(gate.run@[i as int]@));
        assert(crate::report::string_views(r@) =~= gate@.run.take(i + 1));
        i += 1;
    }
    let mut j: usize = 0;
    while j < forwarded.len()
        invariant
            j <= forwarded.len(),
            i == gate.run.len(),
            crate::report::string_views(r@) == gate@.run + crate::report::string_views(forwarded@).take(j as int),
        decreases forwarded.len() - j,
    {
        let ghost before = crate::report::string_views(r@);
        let text = forwarded[j].as_str().to_string();
        assert(text@ == forwarded@[j as int]@);
        r.push(text);
        assert(crate::report::string_views(r@) =~= before.push(forwarded@[j as int]@));
        assert(crate::report::string_views(r@) =~= gate@.run + crate::report::string_views(forwarded@).take(j + 1));
        j += 1;
    }
    assert(gate@.run.take(gate.run.len() as int) =~= gate@.run);
    assert(crate::report::string_views(forwarded@).take(forwarded.len() as int) =~= crate::report::string_views(forwarded@));
    r
}

} // verus!
