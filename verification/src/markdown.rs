//! Reading Markdown.
//!
//! Everything that inspects Markdown text lives here, so the answer to "is
//! this inside a fenced example?" is given once rather than once per
//! validator.
use crate::text::{chars_of, lines_spec, string_of, trim_start_spec, views};
use vstd::prelude::*;

pub mod frontmatter;
pub mod heading_hierarchy;
pub mod internal_link;
pub mod mermaid;
pub mod naming;
pub mod readme_index;

verus! {

/// How many times `c` opens `t`.
pub open spec fn run_of(t: Seq<char>, c: char) -> nat
    decreases t.len(),
{
    if t.len() > 0 && t[0] == c {
        1 + run_of(t.drop_first(), c)
    } else {
        0
    }
}

/// The fence character and run length a line opens or closes with, if any:
/// three or more backticks or tildes after leading whitespace.
pub open spec fn fence_spec(line: Seq<char>) -> Option<(char, nat)> {
    let t = trim_start_spec(line);
    if t.len() > 0 && (t[0] == '`' || t[0] == '~') && run_of(t, t[0]) >= 3 {
        Some((t[0], run_of(t, t[0])))
    } else {
        None
    }
}

fn fence(line: &Vec<char>) -> (r: Option<(char, usize)>)
    ensures
        match r {
            Some((c, n)) => fence_spec(line@) == Some((c, n as nat)),
            None => fence_spec(line@) is None,
        },
{
    let t = crate::text::trim_start(line);
    if t.len() == 0 || !(t[0] == '`' || t[0] == '~') {
        return None;
    }
    let c = t[0];
    let mut n: usize = 0;
    assert(t@.skip(0) =~= t@);
    while n < t.len() && t[n] == c
        invariant
            n <= t.len(),
            run_of(t@, c) == n + run_of(t@.skip(n as int), c),
        decreases t.len() - n,
    {
        assert(t@.skip(n as int).drop_first() =~= t@.skip(n + 1));
        n += 1;
    }
    if n >= 3 {
        Some((c, n))
    } else {
        None
    }
}

/// The prose lines from line `i` on, given the fence open there: each with
/// its one-based number. A fence is closed by one of the same character and
/// at least the same length.
pub open spec fn prose_from(ls: Seq<Seq<char>>, i: nat, open: Option<(char, nat)>) -> Seq<(nat, Seq<char>)>
    decreases ls.len() - i,
{
    if i >= ls.len() {
        Seq::empty()
    } else {
        match (open, fence_spec(ls[i as int])) {
            (None, Some(o)) => prose_from(ls, i + 1, Some(o)),
            (Some((c, n)), Some((c2, n2))) => if c2 == c && n2 >= n {
                prose_from(ls, i + 1, None)
            } else {
                prose_from(ls, i + 1, open)
            },
            (None, None) => seq![(i + 1, ls[i as int])] + prose_from(ls, i + 1, None),
            (Some(_), None) => prose_from(ls, i + 1, open),
        }
    }
}

/// The prose lines of a document.
pub open spec fn prose_spec(text: Seq<char>) -> Seq<(nat, Seq<char>)> {
    prose_from(lines_spec(text), 0, None)
}

pub open spec fn numbered_views(v: Seq<(usize, String)>) -> Seq<(nat, Seq<char>)> {
    Seq::new(v.len(), |i: int| (v[i].0 as nat, v[i].1@))
}

/// The lines of a document that are prose rather than a fenced example,
/// each with its one-based line number in the file.
pub fn prose_lines(text: &str) -> (r: Vec<(usize, String)>)
    ensures
        numbered_views(r@) == prose_spec(text@),
{
    let ls = crate::text::lines(&chars_of(text));
    let ghost lv = views(ls@);
    let mut open: Option<(char, usize)> = None;
    let mut out: Vec<(usize, String)> = Vec::new();
    let mut i: usize = 0;
    while i < ls.len()
        invariant
            i <= ls.len(),
            lv == views(ls@),
            lv == lines_spec(text@),
            prose_spec(text@) == numbered_views(out@) + prose_from(
                lv,
                i as nat,
                match open {
                    Some((c, n)) => Some((c, n as nat)),
                    None => None,
                },
            ),
        decreases ls.len() - i,
    {
        let f = fence(&ls[i]);
        assert(lv[i as int] == ls@[i as int]@);
        match (open, f) {
            (None, Some(o)) => {
                open = Some(o);
            },
            (Some((c, n)), Some((c2, n2))) => {
                if c2 == c && n2 >= n {
                    open = None;
                }
            },
            (None, None) => {
                let line = string_of(&ls[i]);
                let ghost before = numbered_views(out@);
                out.push((i + 1, line));
                assert(numbered_views(out@) =~= before.push(((i + 1) as nat, lv[i as int])));
                assert(before + (seq![((i + 1) as nat, lv[i as int])] + prose_from(lv, (i + 1) as nat, None))
                    =~= before.push(((i + 1) as nat, lv[i as int])) + prose_from(lv, (i + 1) as nat, None));
            },
            (Some(_), None) => {},
        }
        i += 1;
    }
    assert(numbered_views(out@) + Seq::<(nat, Seq<char>)>::empty() =~= numbered_views(out@));
    out
}

proof fn lemma_run_bounded(t: Seq<char>, c: char)
    ensures
        run_of(t, c) <= t.len(),
    decreases t.len(),
{
    if t.len() > 0 && t[0] == c {
        lemma_run_bounded(t.drop_first(), c);
    }
}

/// A fenced block: the text after its opening fence, and its lines with
/// their one-based numbers.
pub struct Fenced {
    pub info: String,
    pub lines: Vec<(usize, String)>,
}

/// The lines of a block from line `j` up to the fence that closes it, and
/// the line after that fence. A fence of the same character and at least
/// the same length closes; the end of the document closes too.
pub open spec fn body_from(ls: Seq<Seq<char>>, j: nat, c: char, n: nat) -> (Seq<(nat, Seq<char>)>, nat)
    decreases ls.len() - j,
{
    if j >= ls.len() {
        (Seq::empty(), j)
    } else {
        match fence_spec(ls[j as int]) {
            Some((c2, n2)) if c2 == c && n2 >= n => (Seq::empty(), j + 1),
            _ => {
                let (rest, end) = body_from(ls, j + 1, c, n);
                (seq![(j + 1, ls[j as int])] + rest, end)
            },
        }
    }
}

/// The fenced blocks from line `i` on, each with its info text.
pub open spec fn blocks_from(ls: Seq<Seq<char>>, i: nat) -> Seq<(Seq<char>, Seq<(nat, Seq<char>)>)>
    decreases ls.len() - i,
{
    if i >= ls.len() {
        Seq::empty()
    } else {
        match fence_spec(ls[i as int]) {
            None => blocks_from(ls, i + 1),
            Some((c, n)) => {
                let info = trim_start_spec(ls[i as int]).skip(n as int);
                let (body, next) = body_from(ls, i + 1, c, n);
                if i < next <= ls.len() {
                    seq![(info, body)] + blocks_from(ls, next)
                } else {
                    seq![(info, body)]
                }
            },
        }
    }
}

pub open spec fn fenced_views(bs: Seq<Fenced>) -> Seq<(Seq<char>, Seq<(nat, Seq<char>)>)> {
    Seq::new(bs.len(), |i: int| (bs[i].info@, numbered_views(bs[i].lines@)))
}

fn body(ls: &Vec<Vec<char>>, start: usize, c: char, n: usize) -> (r: (Vec<(usize, String)>, usize))
    requires
        start <= ls.len(),
    ensures
        (numbered_views(r.0@), r.1 as nat) == body_from(views(ls@), start as nat, c, n as nat),
        start <= r.1 <= ls.len(),
{
    let ghost lv = views(ls@);
    let mut out: Vec<(usize, String)> = Vec::new();
    let mut j = start;
    let end: usize;
    loop
        invariant
            start <= j <= ls.len(),
            lv == views(ls@),
            body_from(lv, start as nat, c, n as nat) == (
                numbered_views(out@) + body_from(lv, j as nat, c, n as nat).0,
                body_from(lv, j as nat, c, n as nat).1,
            ),
        ensures
            start <= end <= ls.len(),
            body_from(lv, start as nat, c, n as nat) == (numbered_views(out@), end as nat),
        decreases ls.len() - j,
    {
        if j >= ls.len() {
            end = j;
            assert(numbered_views(out@) + Seq::<(nat, Seq<char>)>::empty() =~= numbered_views(out@));
            break;
        }
        assert(lv[j as int] == ls@[j as int]@);
        match fence(&ls[j]) {
            Some((c2, n2)) => {
                if c2 == c && n2 >= n {
                    end = j + 1;
                    assert(numbered_views(out@) + Seq::<(nat, Seq<char>)>::empty() =~= numbered_views(out@));
                    break;
                }
            },
            None => {},
        }
        let ghost before = numbered_views(out@);
        let ghost rest = body_from(lv, (j + 1) as nat, c, n as nat).0;
        out.push((j + 1, string_of(&ls[j])));
        assert(numbered_views(out@) =~= before.push(((j + 1) as nat, lv[j as int])));
        assert(before + (seq![((j + 1) as nat, lv[j as int])] + rest) =~= numbered_views(out@) + rest);
        j += 1;
    }
    (out, end)
}

/// Every fenced block of a document, in order, each with the text after its
/// opening fence and its lines.
pub fn fenced_blocks(text: &str) -> (r: Vec<Fenced>)
    ensures
        fenced_views(r@) == blocks_from(lines_spec(text@), 0),
{
    let ls = crate::text::lines(&chars_of(text));
    let ghost lv = views(ls@);
    let mut out: Vec<Fenced> = Vec::new();
    let mut i: usize = 0;
    let ghost mut stop = false;
    loop
        invariant
            i <= ls.len(),
            lv == views(ls@),
            lv == lines_spec(text@),
            blocks_from(lv, 0) == fenced_views(out@) + blocks_from(lv, i as nat),
        ensures
            blocks_from(lv, 0) == fenced_views(out@),
        decreases ls.len() - i,
    {
        if i >= ls.len() {
            assert(fenced_views(out@) + Seq::<(Seq<char>, Seq<(nat, Seq<char>)>)>::empty() =~= fenced_views(out@));
            break;
        }
        assert(lv[i as int] == ls@[i as int]@);
        match fence(&ls[i]) {
            None => {
                i += 1;
            },
            Some((c, n)) => {
                let t = crate::text::trim_start(&ls[i]);
                proof {
                    crate::text::lemma_lead_ws(ls@[i as int]@);
                    lemma_run_bounded(t@, c);
                }
                let info = crate::text::slice(&t, n, t.len());
                assert(info@ =~= trim_start_spec(lv[i as int]).skip(n as int));
                let (lines, next) = body(&ls, i + 1, c, n);
                let ghost before = fenced_views(out@);
                let ghost item = (info@, numbered_views(lines@));
                out.push(Fenced { info: string_of(&info), lines });
                assert(fenced_views(out@) =~= before.push(item));
                if i < next && next <= ls.len() {
                    assert(before + (seq![item] + blocks_from(lv, next as nat)) =~= fenced_views(out@) + blocks_from(lv, next as nat));
                    i = next;
                } else {
                    assert(before + seq![item] =~= fenced_views(out@));
                    break;
                }
            },
        }
    }
    out
}

/// The sibling a link destination names: a local target, less a leading
/// `./`, that names a file beside the document rather than one elsewhere.
pub open spec fn sibling_target(destination: Seq<char>) -> Option<Seq<char>> {
    match crate::markdown::internal_link::local_spec(destination) {
        Some(p) => {
            let q = if "./"@.is_prefix_of(p) {
                p.skip(2)
            } else {
                p
            };
            if q.len() > 0 && !q.contains('/') {
                Some(q)
            } else {
                None
            }
        },
        None => None,
    }
}

/// Every sibling the destinations name.
pub open spec fn sibling_set(dests: Seq<(nat, Seq<char>)>) -> Set<Seq<char>> {
    Set::new(|q: Seq<char>| exists|i: int| 0 <= i < dests.len() && #[trigger] sibling_target(dests[i].1) == Some(q))
}

/// The line of the first destination that names a sibling.
pub open spec fn first_line(dests: Seq<(nat, Seq<char>)>, q: Seq<char>) -> nat
    decreases dests.len(),
{
    if dests.len() == 0 {
        0
    } else if sibling_target(dests[0].1) == Some(q) {
        dests[0].0
    } else {
        first_line(dests.drop_first(), q)
    }
}

fn sibling_of(destination: &Vec<char>) -> (r: Option<Vec<char>>)
    ensures
        match r {
            Some(q) => sibling_target(destination@) == Some(q@),
            None => sibling_target(destination@) is None,
        },
{
    match crate::markdown::internal_link::local(destination) {
        None => None,
        Some(p) => {
            let q = if crate::text::starts_with_str(&p, "./") {
                proof {
                    reveal_strlit("./");
                }
                let q = crate::text::slice(&p, 2, p.len());
                assert(q@ =~= p@.skip(2));
                q
            } else {
                p
            };
            if q.len() > 0 && !crate::text::contains_char(&q, '/') {
                Some(q)
            } else {
                None
            }
        },
    }
}

/// The siblings a document links to, each once, in name order, with the
/// line each is first linked from.
pub fn sibling_links(text: &str) -> (r: Vec<(String, usize)>)
    ensures
        crate::text::strictly_sorted(Seq::new(r@.len(), |i: int| r@[i].0@)),
        Seq::new(r@.len(), |i: int| r@[i].0@).to_set() == sibling_set(
            crate::markdown::internal_link::destinations_spec(text@),
        ),
        forall|i: int|
            0 <= i < r@.len() ==> (#[trigger] r@[i]).1 as nat == first_line(
                crate::markdown::internal_link::destinations_spec(text@),
                r@[i].0@,
            ),
{
    let dests = crate::markdown::internal_link::destinations(text);
    let ghost dv = crate::markdown::internal_link::link_views(dests@);
    let mut names: Vec<Vec<char>> = Vec::new();
    let mut i: usize = 0;
    while i < dests.len()
        invariant
            i <= dests.len(),
            dv == crate::markdown::internal_link::link_views(dests@),
            crate::text::strictly_sorted(views(names@)),
            views(names@).to_set() == Set::new(
                |q: Seq<char>| exists|k: int| 0 <= k < i && #[trigger] sibling_target(dv[k].1) == Some(q),
            ),
        decreases dests.len() - i,
    {
        let ghost before = views(names@).to_set();
        assert(dv[i as int].1 == dests@[i as int].1@);
        match sibling_of(&dests[i].1) {
            Some(q) => {
                let ghost qv = q@;
                crate::text::insert_sorted(&mut names, q);
                assert(views(names@).to_set() =~= Set::new(
                    |x: Seq<char>| exists|k: int| 0 <= k < i + 1 && #[trigger] sibling_target(dv[k].1) == Some(x),
                )) by {
                    assert(sibling_target(dv[i as int].1) == Some(qv));
                }
            },
            None => {
                assert(views(names@).to_set() =~= Set::new(
                    |x: Seq<char>| exists|k: int| 0 <= k < i + 1 && #[trigger] sibling_target(dv[k].1) == Some(x),
                ));
            },
        }
        i += 1;
    }
    let mut r: Vec<(String, usize)> = Vec::new();
    let mut n: usize = 0;
    while n < names.len()
        invariant
            n <= names.len(),
            dv == crate::markdown::internal_link::link_views(dests@),
            r@.len() == n,
            forall|k: int| 0 <= k < n ==> (#[trigger] r@[k]).0@ == names@[k]@ && r@[k].1 as nat == first_line(dv, names@[k]@),
        decreases names.len() - n,
    {
        let mut line: usize = 0;
        let mut j: usize = 0;
        let mut seen = false;
        assert(dv.skip(0) =~= dv);
        while j < dests.len()
            invariant_except_break
                j <= dests.len(),
                !seen,
                line == 0,
                first_line(dv, names@[n as int]@) == first_line(dv.skip(j as int), names@[n as int]@),
            invariant
                n < names.len(),
                dv == crate::markdown::internal_link::link_views(dests@),
                dv.len() == dests.len(),
            ensures
                line as nat == first_line(dv, names@[n as int]@),
            decreases dests.len() - j,
        {
            let ghost rest = dv.skip(j as int);
            assert(rest[0] == dv[j as int]);
            assert(rest.drop_first() =~= dv.skip(j + 1));
            assert(dv[j as int].1 == dests@[j as int].1@);
            match sibling_of(&dests[j].1) {
                Some(q) => {
                    if crate::text::same(&q, &names[n]) {
                        line = dests[j].0;
                        seen = true;
                        break;
                    }
                },
                None => {},
            }
            j += 1;
        }
        r.push((string_of(&names[n]), line));
        n += 1;
    }
    assert(Seq::new(r@.len(), |i: int| r@[i].0@) =~= views(names@));
    assert(sibling_set(dv) =~= Set::new(
        |q: Seq<char>| exists|k: int| 0 <= k < dests.len() && #[trigger] sibling_target(dv[k].1) == Some(q),
    ));
    r
}

} // verus!
