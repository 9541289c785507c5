//! `ose/repo-config/v2`: the portable governance schema and its gates.
//!
//! The document is read here rather than decoded by a general reader, for the
//! same reason metadata front matter is: a decoder keeps one of two duplicate
//! keys, forgets which line a key was written on, and forgets what order the
//! keys came in. This schema has a hard-failing rule about each of those three.
use crate::config::{ConfigError, ConfigFault};
use crate::cli::str_views;
use crate::text::{chars_of, extend, extend_str, join, join_spec, lex_lt, split_once_spec, lead_ws, leading_ws, lines, lines_spec, slice, string_of, trim, trim_spec, views};
use vstd::prelude::*;

verus! {

/// One value, and the line it was written on.
pub struct Node {
    pub line: usize,
    pub value: Value,
}

pub enum Value {
    Scalar(String),
    Mapping(Vec<(String, Node)>),
    List(Vec<Node>),
    /// A key written with nothing after it and nothing under it.
    Empty,
}

/// A read value as plain values.
pub ghost enum Tree {
    Scalar(Seq<char>),
    Mapping(Seq<(Seq<char>, Leaf)>),
    List(Seq<Leaf>),
    Empty,
}

/// A read node as plain values.
pub ghost struct Leaf {
    pub line: nat,
    pub tree: Tree,
}

pub open spec fn tree_of(v: Value) -> Tree
    decreases v,
{
    match v {
        Value::Scalar(s) => Tree::Scalar(s@),
        Value::Mapping(entries) => Tree::Mapping(
            Seq::new(
                entries@.len(),
                |i: int|
                    if 0 <= i < entries@.len() {
                        (entries@[i].0@, Leaf { line: entries@[i].1.line as nat, tree: tree_of(entries@[i].1.value) })
                    } else {
                        (Seq::empty(), Leaf { line: 0, tree: Tree::Empty })
                    },
            ),
        ),
        Value::List(items) => Tree::List(
            Seq::new(
                items@.len(),
                |i: int|
                    if 0 <= i < items@.len() {
                        Leaf { line: items@[i].line as nat, tree: tree_of(items@[i].value) }
                    } else {
                        Leaf { line: 0, tree: Tree::Empty }
                    },
            ),
        ),
        Value::Empty => Tree::Empty,
    }
}

/// One significant line, with its list marker already folded into its
/// indent.
pub struct Line {
    pub indent: usize,
    pub text: Vec<char>,
    pub number: usize,
    pub item: bool,
}

/// A significant line as plain values.
pub ghost struct LineView {
    pub indent: nat,
    pub text: Seq<char>,
    pub number: nat,
    pub item: bool,
}

pub open spec fn line_views(ls: Seq<Line>) -> Seq<LineView> {
    Seq::new(ls.len(), |i: int| LineView { indent: ls[i].indent as nat, text: ls[i].text@, number: ls[i].number as nat, item: ls[i].item })
}

/// An indent two columns deeper, as far as a `usize` reaches.
pub open spec fn item_indent(n: nat) -> nat {
    if n + 2 > usize::MAX {
        usize::MAX as nat
    } else {
        n + 2
    }
}

/// What one raw line contributes: nothing when it is blank or a comment;
/// otherwise its indent in bytes, its text, and whether it opens a list
/// item, whose `- ` marker counts as indentation.
pub open spec fn line_of(raw: Seq<char>, number: nat) -> Option<LineView> {
    let trimmed = trim_spec(raw);
    let indent = (vstd::utf8::encode_utf8(raw.take(lead_ws(raw) as int)).len() as usize) as nat;
    if trimmed.len() == 0 || trimmed[0] == '#' {
        None
    } else if trimmed.len() >= 2 && trimmed[0] == '-' && trimmed[1] == ' ' {
        Some(LineView { indent: item_indent(indent), text: trim_spec(trimmed.skip(2)), number, item: true })
    } else if trimmed == seq!['-'] {
        Some(LineView { indent: item_indent(indent), text: Seq::empty(), number, item: true })
    } else {
        Some(LineView { indent, text: trimmed, number, item: false })
    }
}

/// The significant lines among raw lines, each numbered from one.
pub open spec fn significant_from(raws: Seq<Seq<char>>) -> Seq<LineView>
    decreases raws.len(),
{
    if raws.len() == 0 {
        Seq::empty()
    } else {
        let rest = significant_from(raws.drop_last());
        match line_of(raws.last(), raws.len()) {
            Some(l) => rest.push(l),
            None => rest,
        }
    }
}

pub open spec fn significant_spec(text: Seq<char>) -> Seq<LineView> {
    significant_from(lines_spec(text))
}

fn significant(text: &str) -> (r: Vec<Line>)
    ensures
        line_views(r@) == significant_spec(text@),
{
    let raws = lines(&chars_of(text));
    let ghost rv = views(raws@);
    let mut r: Vec<Line> = Vec::new();
    let mut i: usize = 0;
    while i < raws.len()
        invariant
            i <= raws.len(),
            rv == views(raws@),
            rv == lines_spec(text@),
            line_views(r@) == significant_from(rv.take(i as int)),
        decreases raws.len() - i,
    {
        let raw = &raws[i];
        assert(rv.take(i + 1).drop_last() =~= rv.take(i as int));
        assert(rv.take(i + 1).last() == raw@);
        let trimmed = trim(raw);
        let ghost before = line_views(r@);
        if trimmed.len() == 0 || trimmed[0] == '#' {
        } else {
            let n = leading_ws(raw);
            proof {
                crate::text::lemma_lead_ws(raw@);
            }
            let prefix = string_of(&slice(raw, 0, n));
            let indent = prefix.as_str().len();
            assert(prefix@ =~= raw@.take(lead_ws(raw@) as int));
            let line = if trimmed.len() >= 2 && trimmed[0] == '-' && trimmed[1] == ' ' {
                let rest = slice(&trimmed, 2, trimmed.len());
                assert(rest@ =~= trimmed@.skip(2));
                Line { indent: indent.saturating_add(2), text: trim(&rest), number: i + 1, item: true }
            } else if trimmed.len() == 1 && trimmed[0] == '-' {
                assert(trimmed@ =~= seq!['-']);
                Line { indent: indent.saturating_add(2), text: Vec::new(), number: i + 1, item: true }
            } else {
                proof {
                    if trimmed@ == seq!['-'] {
                        assert(trimmed@.len() == 1);
                    }
                }
                Line { indent, text: trimmed, number: i + 1, item: false }
            };
            assert(line_of(raw@, (i + 1) as nat) == Some(LineView { indent: line.indent as nat, text: line.text@, number: line.number as nat, item: line.item }));
            r.push(line);
            assert(line_views(r@) =~= before.push(LineView { indent: line.indent as nat, text: line.text@, number: line.number as nat, item: line.item }));
        }
        i += 1;
    }
    assert(rv.take(raws.len() as int) =~= rv);
    r
}

/// Whether a colon at `i` ends a key: it is followed by a space or by the
/// end of the text.
pub open spec fn ends_key(t: Seq<char>, i: int) -> bool {
    t[i] == ':' && (i + 1 == t.len() || t[i + 1] == ' ')
}

/// The first colon at or after `from` that ends a key.
pub open spec fn key_colon(t: Seq<char>, from: nat) -> Option<nat>
    decreases t.len() - from,
{
    if from >= t.len() {
        None
    } else if ends_key(t, from as int) {
        Some(from)
    } else {
        key_colon(t, from + 1)
    }
}

/// A text without one pair of matching quotes around it.
pub open spec fn unquote_spec(t: Seq<char>) -> Seq<char> {
    if t.len() >= 2 && t[0] == '\'' && t.last() == '\'' {
        t.subrange(1, t.len() - 1)
    } else if t.len() >= 2 && t[0] == '"' && t.last() == '"' {
        t.subrange(1, t.len() - 1)
    } else {
        t
    }
}

/// `key: rest` split at the first colon that ends a word, with the key
/// unquoted and both sides trimmed; `None` when there is no such colon or
/// the key is empty.
pub open spec fn key_spec(t: Seq<char>) -> Option<(Seq<char>, Seq<char>)> {
    match key_colon(t, 0) {
        None => None,
        Some(p) => {
            let key = trim_spec(t.take(p as int));
            if key.len() == 0 {
                None
            } else {
                Some((unquote_spec(key), trim_spec(t.skip((p + 1) as int))))
            }
        },
    }
}

pub(crate) fn unquote(t: &Vec<char>) -> (r: Vec<char>)
    ensures
        r@ == unquote_spec(t@),
{
    let n = t.len();
    if n >= 2 && ((t[0] == '\'' && t[n - 1] == '\'') || (t[0] == '"' && t[n - 1] == '"')) {
        slice(t, 1, n - 1)
    } else {
        slice(t, 0, n)
    }
}

fn key_of(t: &Vec<char>) -> (r: Option<(Vec<char>, Vec<char>)>)
    ensures
        match r {
            Some((k, v)) => key_spec(t@) == Some((k@, v@)),
            None => key_spec(t@) is None,
        },
{
    let mut p: usize = 0;
    while p < t.len() && !(t[p] == ':' && (p + 1 == t.len() || t[p + 1] == ' '))
        invariant
            p <= t.len(),
            key_colon(t@, 0) == key_colon(t@, p as nat),
        decreases t.len() - p,
    {
        p += 1;
    }
    if p == t.len() {
        return None;
    }
    let head = slice(t, 0, p);
    assert(head@ =~= t@.take(p as int));
    let key = trim(&head);
    if key.len() == 0 {
        return None;
    }
    let tail = slice(t, p + 1, t.len());
    assert(tail@ =~= t@.skip(p + 1));
    Some((unquote(&key), trim(&tail)))
}

/// Whether a character ends a flow scalar.
pub open spec fn stops(c: char) -> bool {
    c == ',' || c == '}' || c == ']'
}

/// The first index at or after `i` holding a character that ends a flow
/// scalar, or the end.
pub open spec fn scan_stop(t: Seq<char>, i: nat) -> nat
    decreases t.len() - i,
{
    if i < t.len() && !stops(t[i as int]) {
        scan_stop(t, i + 1)
    } else {
        i
    }
}

/// The first index at or after `i` holding a colon, or the end.
pub open spec fn scan_colon(t: Seq<char>, i: nat) -> nat
    decreases t.len() - i,
{
    if i < t.len() && t[i as int] != ':' {
        scan_colon(t, i + 1)
    } else {
        i
    }
}

/// The first index at or after `i` holding neither a space nor a comma.
pub open spec fn skip_separators(t: Seq<char>, i: nat) -> nat
    decreases t.len() - i,
{
    if i < t.len() && (t[i as int] == ' ' || t[i as int] == ',') {
        skip_separators(t, i + 1)
    } else {
        i
    }
}

/// The first index at or after `i` not holding a space.
pub open spec fn skip_spaces(t: Seq<char>, i: nat) -> nat
    decreases t.len() - i,
{
    if i < t.len() && t[i as int] == ' ' {
        skip_spaces(t, i + 1)
    } else {
        i
    }
}

/// One flow value read from index `i`, and the index just past it: a
/// bracketed collection, or a scalar running to the next `,`, `}` or `]`.
pub open spec fn flow_spec(t: Seq<char>, i: nat) -> (Tree, nat)
    decreases t.len() - i, 1nat,
{
    if i > t.len() {
        (Tree::Empty, i)
    } else if i < t.len() && (t[i as int] == '{' || t[i as int] == '[') {
        let mapped = t[i as int] == '{';
        let close = if mapped {
            '}'
        } else {
            ']'
        };
        let (entries, items, end) = flow_items(t, i + 1, close, mapped);
        (
            if mapped {
                Tree::Mapping(entries)
            } else {
                Tree::List(items)
            },
            end,
        )
    } else {
        let e = scan_stop(t, i);
        if i <= e <= t.len() {
            (Tree::Scalar(unquote_spec(trim_spec(t.subrange(i as int, e as int)))), e)
        } else {
            (Tree::Empty, i)
        }
    }
}

/// The members of a flow collection from index `j` to its closing
/// character or the end of the text, and the index just past it. A member
/// that does not move the reader on ends the collection.
pub open spec fn flow_items(t: Seq<char>, j: nat, close: char, mapped: bool) -> (Seq<(Seq<char>, Leaf)>, Seq<Leaf>, nat)
    decreases t.len() - j, 2nat,
{
    let k = skip_separators(t, j);
    if !(j <= k <= t.len()) {
        (Seq::empty(), Seq::empty(), j)
    } else if k == t.len() || t[k as int] == close {
        (Seq::empty(), Seq::empty(), if k < t.len() { k + 1 } else { k })
    } else if mapped {
        let p = scan_colon(t, k);
        if !(k <= p <= t.len()) {
            (Seq::empty(), Seq::empty(), j)
        } else {
            let key = unquote_spec(trim_spec(t.subrange(k as int, p as int)));
            let q = skip_spaces(t, if p < t.len() { p + 1 } else { p });
            if !(k <= q <= t.len()) {
                (Seq::empty(), Seq::empty(), j)
            } else {
                let (value, next) = flow_spec(t, q);
                if j < next <= t.len() {
                    let (entries, items, end) = flow_items(t, next, close, mapped);
                    (seq![(key, Leaf { line: 0, tree: value })] + entries, items, end)
                } else {
                    (Seq::empty(), Seq::empty(), k)
                }
            }
        }
    } else {
        let (value, next) = flow_spec(t, k);
        if j < next <= t.len() {
            let (entries, items, end) = flow_items(t, next, close, mapped);
            (entries, seq![Leaf { line: 0, tree: value }] + items, end)
        } else {
            (Seq::empty(), Seq::empty(), k)
        }
    }
}

/// A value written on the same line as its key: a flow collection or a
/// scalar.
pub open spec fn scalar_spec(t: Seq<char>) -> Tree {
    if t.len() > 0 && (t[0] == '{' || t[0] == '[') {
        flow_spec(t, 0).0
    } else {
        Tree::Scalar(unquote_spec(t))
    }
}

pub open spec fn entry_leaves(entries: Seq<(String, Node)>) -> Seq<(Seq<char>, Leaf)> {
    Seq::new(entries.len(), |i: int| (entries[i].0@, Leaf { line: entries[i].1.line as nat, tree: tree_of(entries[i].1.value) }))
}

pub open spec fn node_leaves(items: Seq<Node>) -> Seq<Leaf> {
    Seq::new(items.len(), |i: int| Leaf { line: items[i].line as nat, tree: tree_of(items[i].value) })
}

proof fn lemma_tree_of_mapping(entries: Vec<(String, Node)>)
    ensures
        tree_of(Value::Mapping(entries)) == Tree::Mapping(entry_leaves(entries@)),
{
    match tree_of(Value::Mapping(entries)) {
        Tree::Mapping(m) => {
            assert(m =~= entry_leaves(entries@));
        },
        _ => {},
    }
}

proof fn lemma_tree_of_list(items: Vec<Node>)
    ensures
        tree_of(Value::List(items)) == Tree::List(node_leaves(items@)),
{
    match tree_of(Value::List(items)) {
        Tree::List(l) => {
            assert(l =~= node_leaves(items@));
        },
        _ => {},
    }
}

fn flow(t: &Vec<char>, i: usize) -> (r: (Value, usize))
    requires
        i <= t.len(),
    ensures
        (tree_of(r.0), r.1 as nat) == flow_spec(t@, i as nat),
    decreases t.len() - i,
{
    if i < t.len() && (t[i] == '{' || t[i] == '[') {
        let mapped = t[i] == '{';
        let close = if mapped {
            '}'
        } else {
            ']'
        };
        let mut entries: Vec<(String, Node)> = Vec::new();
        let mut items: Vec<Node> = Vec::new();
        let mut j: usize = i + 1;
        let end: usize;
        let ghost whole = flow_items(t@, (i + 1) as nat, close, mapped);
        loop
            invariant
                i < j <= t.len(),
                mapped == (t@[i as int] == '{'),
                close == (if mapped { '}' } else { ']' }),
                whole == flow_items(t@, (i + 1) as nat, close, mapped),
                whole == (
                    entry_leaves(entries@) + flow_items(t@, j as nat, close, mapped).0,
                    node_leaves(items@) + flow_items(t@, j as nat, close, mapped).1,
                    flow_items(t@, j as nat, close, mapped).2,
                ),
            ensures
                whole == (entry_leaves(entries@), node_leaves(items@), end as nat),
            decreases t.len() - j,
        {
            let ghost rest = flow_items(t@, j as nat, close, mapped);
            let mut k = j;
            while k < t.len() && (t[k] == ' ' || t[k] == ',')
                invariant
                    j <= k <= t.len(),
                    skip_separators(t@, j as nat) == skip_separators(t@, k as nat),
                decreases t.len() - k,
            {
                k += 1;
            }
            if k == t.len() || t[k] == close {
                end = if k < t.len() { k + 1 } else { k };
                assert(entry_leaves(entries@) + Seq::<(Seq<char>, Leaf)>::empty() =~= entry_leaves(entries@));
                assert(node_leaves(items@) + Seq::<Leaf>::empty() =~= node_leaves(items@));
                break;
            }
            if mapped {
                let mut p = k;
                while p < t.len() && t[p] != ':'
                    invariant
                        k <= p <= t.len(),
                        scan_colon(t@, k as nat) == scan_colon(t@, p as nat),
                    decreases t.len() - p,
                {
                    p += 1;
                }
                let raw_key = slice(t, k, p);
                let key = unquote(&trim(&raw_key));
                let mut q = if p < t.len() { p + 1 } else { p };
                let ghost q0 = q;
                while q < t.len() && t[q] == ' '
                    invariant
                        q0 <= q <= t.len(),
                        skip_spaces(t@, q0 as nat) == skip_spaces(t@, q as nat),
                    decreases t.len() - q,
                {
                    q += 1;
                }
                let (value, next) = flow(t, q);
                if j < next && next <= t.len() {
                    let ghost leaf = (key@, Leaf { line: 0, tree: tree_of(value) });
                    let ghost before = entry_leaves(entries@);
                    entries.push((string_of(&key), Node { line: 0, value }));
                    assert(entry_leaves(entries@) =~= before.push(leaf));
                    let ghost after = flow_items(t@, next as nat, close, mapped);
                    assert(before + (seq![leaf] + after.0) =~= before.push(leaf) + after.0);
                    j = next;
                } else {
                    end = k;
                    assert(entry_leaves(entries@) + Seq::<(Seq<char>, Leaf)>::empty() =~= entry_leaves(entries@));
                    assert(node_leaves(items@) + Seq::<Leaf>::empty() =~= node_leaves(items@));
                    break;
                }
            } else {
                let (value, next) = flow(t, k);
                if j < next && next <= t.len() {
                    let ghost leaf = Leaf { line: 0, tree: tree_of(value) };
                    let ghost before = node_leaves(items@);
                    items.push(Node { line: 0, value });
                    assert(node_leaves(items@) =~= before.push(leaf));
                    let ghost after = flow_items(t@, next as nat, close, mapped);
                    assert(before + (seq![leaf] + after.1) =~= before.push(leaf) + after.1);
                    j = next;
                } else {
                    end = k;
                    assert(entry_leaves(entries@) + Seq::<(Seq<char>, Leaf)>::empty() =~= entry_leaves(entries@));
                    assert(node_leaves(items@) + Seq::<Leaf>::empty() =~= node_leaves(items@));
                    break;
                }
            }
        }
        proof {
            lemma_tree_of_mapping(entries);
            lemma_tree_of_list(items);
        }
        if mapped {
            (Value::Mapping(entries), end)
        } else {
            (Value::List(items), end)
        }
    } else {
        let mut e = i;
        while e < t.len() && !(t[e] == ',' || t[e] == '}' || t[e] == ']')
            invariant
                i <= e <= t.len(),
                scan_stop(t@, i as nat) == scan_stop(t@, e as nat),
            decreases t.len() - e,
        {
            e += 1;
        }
        let piece = slice(t, i, e);
        let text = unquote(&trim(&piece));
        (Value::Scalar(string_of(&text)), e)
    }
}

fn scalar(t: &Vec<char>) -> (r: Value)
    ensures
        tree_of(r) == scalar_spec(t@),
{
    if t.len() > 0 && (t[0] == '{' || t[0] == '[') {
        let (value, _) = flow(t, 0);
        value
    } else {
        Value::Scalar(string_of(&unquote(t)))
    }
}

/// The value a block opened at line `s` holds, read at that line's indent,
/// and the line just past it.
pub open spec fn block_spec(ls: Seq<LineView>, s: nat) -> (Tree, nat)
    decreases ls.len() - s, 3nat,
{
    if s < ls.len() {
        if ls[s as int].item {
            let (items, end) = list_from(ls, s, ls[s as int].indent);
            (Tree::List(items), end)
        } else {
            let (entries, end) = mapping_from(ls, s, ls[s as int].indent, s);
            (Tree::Mapping(entries), end)
        }
    } else {
        (Tree::Empty, s)
    }
}

/// The items of a block list from line `i`: each line at `indent` that
/// opens an item is a scalar, or the first line of a mapping when it holds
/// a key.
pub open spec fn list_from(ls: Seq<LineView>, i: nat, indent: nat) -> (Seq<Leaf>, nat)
    decreases ls.len() - i, 2nat,
{
    if i < ls.len() && ls[i as int].indent == indent && ls[i as int].item {
        let l = ls[i as int];
        let (value, next) = if key_spec(l.text) is Some {
            let (entries, e) = mapping_from(ls, i, indent, i);
            (Tree::Mapping(entries), e)
        } else {
            (scalar_spec(l.text), i + 1)
        };
        if i < next <= ls.len() {
            let (rest, end) = list_from(ls, next, indent);
            (seq![Leaf { line: l.number, tree: value }] + rest, end)
        } else {
            (seq![Leaf { line: l.number, tree: value }], next)
        }
    } else {
        (Seq::empty(), i)
    }
}

/// The entries of a block mapping from line `i` that began at line
/// `first`: each line at `indent`, the first even when it opens a list
/// item, is a key with its value on the same line, in a deeper block below
/// it, or nothing. A line that holds no key is kept as a key with no value.
pub open spec fn mapping_from(ls: Seq<LineView>, i: nat, indent: nat, first: nat) -> (Seq<(Seq<char>, Leaf)>, nat)
    decreases ls.len() - i, 1nat,
{
    if i < ls.len() && ls[i as int].indent == indent && (i == first || !ls[i as int].item) {
        let l = ls[i as int];
        match key_spec(l.text) {
            None => {
                let (rest, end) = mapping_from(ls, i + 1, indent, first);
                (seq![(l.text, Leaf { line: l.number, tree: Tree::Empty })] + rest, end)
            },
            Some((key, rest_text)) => {
                let (value, next) = if rest_text.len() == 0 {
                    if i + 1 < ls.len() && ls[(i + 1) as int].indent > indent {
                        block_spec(ls, i + 1)
                    } else {
                        (Tree::Empty, i + 1)
                    }
                } else {
                    (scalar_spec(rest_text), i + 1)
                };
                if i < next <= ls.len() {
                    let (rest, end) = mapping_from(ls, next, indent, first);
                    (seq![(key, Leaf { line: l.number, tree: value })] + rest, end)
                } else {
                    (seq![(key, Leaf { line: l.number, tree: value })], next)
                }
            },
        }
    } else {
        (Seq::empty(), i)
    }
}

fn block(ls: &Vec<Line>, s: usize) -> (r: (Value, usize))
    requires
        s < ls.len(),
    ensures
        (tree_of(r.0), r.1 as nat) == block_spec(line_views(ls@), s as nat),
    decreases ls.len() - s, 3nat,
{
    if ls[s].item {
        let (items, end) = list(ls, s, ls[s].indent);
        proof {
            lemma_tree_of_list(items);
        }
        (Value::List(items), end)
    } else {
        let (entries, end) = mapping(ls, s, ls[s].indent);
        proof {
            lemma_tree_of_mapping(entries);
        }
        (Value::Mapping(entries), end)
    }
}

fn list(ls: &Vec<Line>, start: usize, indent: usize) -> (r: (Vec<Node>, usize))
    requires
        start <= ls.len(),
    ensures
        (node_leaves(r.0@), r.1 as nat) == list_from(line_views(ls@), start as nat, indent as nat),
    decreases ls.len() - start, 2nat,
{
    let ghost lv = line_views(ls@);
    let ghost whole = list_from(lv, start as nat, indent as nat);
    let mut items: Vec<Node> = Vec::new();
    let mut index = start;
    let end: usize;
    loop
        invariant_except_break
            whole == (node_leaves(items@) + list_from(lv, index as nat, indent as nat).0, list_from(lv, index as nat, indent as nat).1),
        invariant
            start <= index <= ls.len(),
            lv == line_views(ls@),
            whole == list_from(lv, start as nat, indent as nat),
        ensures
            whole == (node_leaves(items@), end as nat),
        decreases ls.len() - index,
    {
        if !(index < ls.len() && ls[index].indent == indent && ls[index].item) {
            end = index;
            assert(node_leaves(items@) + Seq::<Leaf>::empty() =~= node_leaves(items@));
            break;
        }
        let number = ls[index].number;
        let (value, next) = match key_of(&ls[index].text) {
            Some(_) => {
                let (entries, e) = mapping(ls, index, indent);
                proof {
                    lemma_tree_of_mapping(entries);
                }
                (Value::Mapping(entries), e)
            },
            None => (scalar(&ls[index].text), index + 1),
        };
        let ghost leaf = Leaf { line: number as nat, tree: tree_of(value) };
        let ghost before = node_leaves(items@);
        items.push(Node { line: number, value });
        assert(node_leaves(items@) =~= before.push(leaf));
        if index < next && next <= ls.len() {
            let ghost after = list_from(lv, next as nat, indent as nat);
            assert(before + (seq![leaf] + after.0) =~= before.push(leaf) + after.0);
            index = next;
        } else {
            end = next;
            assert(before + seq![leaf] =~= before.push(leaf));
            break;
        }
    }
    (items, end)
}

fn mapping(ls: &Vec<Line>, start: usize, indent: usize) -> (r: (Vec<(String, Node)>, usize))
    requires
        start <= ls.len(),
    ensures
        (entry_leaves(r.0@), r.1 as nat) == mapping_from(line_views(ls@), start as nat, indent as nat, start as nat),
    decreases ls.len() - start, 1nat,
{
    let ghost lv = line_views(ls@);
    let ghost whole = mapping_from(lv, start as nat, indent as nat, start as nat);
    let mut entries: Vec<(String, Node)> = Vec::new();
    let mut index = start;
    let end: usize;
    loop
        invariant_except_break
            whole == (
                entry_leaves(entries@) + mapping_from(lv, index as nat, indent as nat, start as nat).0,
                mapping_from(lv, index as nat, indent as nat, start as nat).1,
            ),
        invariant
            start <= index <= ls.len(),
            lv == line_views(ls@),
            whole == mapping_from(lv, start as nat, indent as nat, start as nat),
        ensures
            whole == (entry_leaves(entries@), end as nat),
        decreases ls.len() - index,
    {
        if !(index < ls.len() && ls[index].indent == indent && (index == start || !ls[index].item)) {
            end = index;
            assert(entry_leaves(entries@) + Seq::<(Seq<char>, Leaf)>::empty() =~= entry_leaves(entries@));
            break;
        }
        let number = ls[index].number;
        let ghost before = entry_leaves(entries@);
        match key_of(&ls[index].text) {
            None => {
                let ghost leaf = (ls[index as int].text@, Leaf { line: number as nat, tree: Tree::Empty });
                entries.push((string_of(&ls[index].text), Node { line: number, value: Value::Empty }));
                assert(entry_leaves(entries@) =~= before.push(leaf));
                let ghost after = mapping_from(lv, (index + 1) as nat, indent as nat, start as nat);
                assert(before + (seq![leaf] + after.0) =~= before.push(leaf) + after.0);
                index = index + 1;
            },
            Some((key, rest)) => {
                let (value, next) = if rest.len() == 0 {
                    if index + 1 < ls.len() && ls[index + 1].indent > indent {
                        block(ls, index + 1)
                    } else {
                        (Value::Empty, index + 1)
                    }
                } else {
                    (scalar(&rest), index + 1)
                };
                let ghost leaf = (key@, Leaf { line: number as nat, tree: tree_of(value) });
                entries.push((string_of(&key), Node { line: number, value }));
                assert(entry_leaves(entries@) =~= before.push(leaf));
                if index < next && next <= ls.len() {
                    let ghost after = mapping_from(lv, next as nat, indent as nat, start as nat);
                    assert(before + (seq![leaf] + after.0) =~= before.push(leaf) + after.0);
                    index = next;
                } else {
                    end = next;
                    assert(before + seq![leaf] =~= before.push(leaf));
                    break;
                }
            },
        }
    }
    (entries, end)
}

} // verus!

verus! {

/// The schema a v2 document declares in a leading key.
pub const SCHEMA: &'static str = "ose/repo-config/v2";

/// Canonical top-level key order. The list is the order.
pub open spec fn keys() -> Seq<Seq<char>> {
    seq![
        "schema"@, "visibility"@, "governance"@, "model-tiers"@, "scan"@, "harness-parity"@, "metadata"@,
        "governance-word-budget"@, "governance-directory-map"@, "md-frontmatter"@, "md-heading-hierarchy"@,
        "md-internal-link"@, "md-mermaid"@, "md-naming"@, "md-readme-index"@, "convention-emoji"@, "gates"@,
        "extensions"@,
    ]
}

/// The keys that carry a validator section, in canonical order.
pub open spec fn sections() -> Seq<Seq<char>> {
    seq![
        "scan"@, "harness-parity"@, "metadata"@, "governance-word-budget"@, "governance-directory-map"@,
        "md-frontmatter"@, "md-heading-hierarchy"@, "md-internal-link"@, "md-mermaid"@, "md-naming"@,
        "md-readme-index"@, "convention-emoji"@,
    ]
}

/// The keys a v2 document may never omit.
pub open spec fn required() -> Seq<Seq<char>> {
    seq!["schema"@, "visibility"@, "gates"@]
}

/// The optional keys that may not be declared empty, in the order checked.
pub open spec fn optional_keys() -> Seq<Seq<char>> {
    seq!["governance"@, "model-tiers"@, "extensions"@] + sections()
}

/// Canonical gate-entry key order, and the whole set an entry may keep.
pub open spec fn entry_keys() -> Seq<Seq<char>> {
    seq!["id"@, "kind"@, "run"@, "surfaces"@]
}

/// Canonical surface order; `ci` is last because it alone is optional.
pub open spec fn surfaces() -> Seq<Seq<char>> {
    seq!["commit-msg"@, "pre-commit"@, "pre-push"@, "ci"@]
}

/// The surfaces every repository carries, whatever it is hosted on.
pub open spec fn hook_surfaces() -> Seq<Seq<char>> {
    seq!["commit-msg"@, "pre-commit"@, "pre-push"@]
}

/// The governance layers a local category may extend.
pub open spec fn layers() -> Seq<Seq<char>> {
    seq!["conventions"@, "development"@, "principles"@, "vision"@, "workflows"@]
}

/// A list of names as a message shows it.
pub open spec fn listed(names: Seq<Seq<char>>) -> Seq<char> {
    join_spec(names, ", "@)
}

/// A gate as plain values.
pub ghost struct GateView {
    pub id: Seq<char>,
    pub kind: Seq<char>,
    pub run: Seq<Seq<char>>,
    pub surfaces: Seq<Seq<char>>,
}

pub open spec fn semantic(key: Seq<char>, line: nat, reason: Seq<char>) -> ConfigFault {
    ConfigFault::Semantic { key, line, reason }
}

/// The first index of `x` in `s`.
pub open spec fn position(s: Seq<Seq<char>>, x: Seq<char>) -> Option<nat>
    decreases s.len(),
{
    if s.len() == 0 {
        None
    } else if s[0] == x {
        Some(0)
    } else {
        match position(s.drop_first(), x) {
            Some(p) => Some(p + 1),
            None => None,
        }
    }
}

/// The node of the first entry named `key`.
pub open spec fn find_spec(entries: Seq<(Seq<char>, Leaf)>, key: Seq<char>) -> Option<Leaf>
    decreases entries.len(),
{
    if entries.len() == 0 {
        None
    } else if entries[0].0 == key {
        Some(entries[0].1)
    } else {
        find_spec(entries.drop_first(), key)
    }
}

pub open spec fn names(entries: Seq<(Seq<char>, Leaf)>) -> Seq<Seq<char>> {
    Seq::new(entries.len(), |i: int| entries[i].0)
}

pub open spec fn mapping_or_empty(t: Tree) -> Seq<(Seq<char>, Leaf)> {
    match t {
        Tree::Mapping(entries) => entries,
        _ => Seq::empty(),
    }
}

pub open spec fn list_or_empty(t: Tree) -> Seq<Leaf> {
    match t {
        Tree::List(items) => items,
        _ => Seq::empty(),
    }
}

pub open spec fn scalar_or_empty(t: Tree) -> Seq<char> {
    match t {
        Tree::Scalar(s) => s,
        _ => Seq::empty(),
    }
}

/// Whether a value carries nothing: an omitted body, or an empty
/// collection.
pub open spec fn is_empty_spec(t: Tree) -> bool {
    match t {
        Tree::Empty => true,
        Tree::Mapping(entries) => entries.len() == 0,
        Tree::List(items) => items.len() == 0,
        Tree::Scalar(_) => false,
    }
}

/// Every key from entry `i` on belongs to the canonical list, appears once,
/// and comes no earlier in it than the one before.
pub open spec fn ordered_from(
    entries: Seq<(Seq<char>, Leaf)>,
    canonical: Seq<Seq<char>>,
    unknown: Seq<char>,
    i: nat,
    highest: nat,
) -> Result<(), ConfigFault>
    decreases entries.len() - i,
{
    if i >= entries.len() {
        Ok(())
    } else {
        let (key, node) = entries[i as int];
        match position(canonical, key) {
            None => Err(semantic(key, node.line, unknown)),
            Some(p) => if names(entries.take(i as int)).contains(key) {
                Err(semantic(key, node.line, "is declared twice"@))
            } else if p < highest {
                Err(semantic(key, node.line, "is out of canonical key order; the order is "@ + listed(canonical)))
            } else {
                ordered_from(entries, canonical, unknown, i + 1, p)
            },
        }
    }
}

pub open spec fn ordered(entries: Seq<(Seq<char>, Leaf)>, canonical: Seq<Seq<char>>, unknown: Seq<char>) -> Result<(), ConfigFault> {
    ordered_from(entries, canonical, unknown, 0, 0)
}

/// The first required key that is missing, refused.
pub open spec fn required_spec(entries: Seq<(Seq<char>, Leaf)>) -> Result<(), ConfigFault> {
    first_missing(entries, required(), 0)
}

pub open spec fn first_missing(entries: Seq<(Seq<char>, Leaf)>, wanted: Seq<Seq<char>>, i: nat) -> Result<(), ConfigFault>
    decreases wanted.len() - i,
{
    if i >= wanted.len() {
        Ok(())
    } else if find_spec(entries, wanted[i as int]) is None {
        Err(semantic(wanted[i as int], 1, "the schema requires it"@))
    } else {
        first_missing(entries, wanted, i + 1)
    }
}

/// The first optional key declared with nothing in it, refused.
pub open spec fn carries_from(entries: Seq<(Seq<char>, Leaf)>, i: nat) -> Result<(), ConfigFault>
    decreases optional_keys().len() - i,
{
    if i >= optional_keys().len() {
        Ok(())
    } else {
        match find_spec(entries, optional_keys()[i as int]) {
            Some(node) => if is_empty_spec(node.tree) {
                Err(semantic(optional_keys()[i as int], node.line, "is declared with nothing in it"@))
            } else {
                carries_from(entries, i + 1)
            },
            None => carries_from(entries, i + 1),
        }
    }
}

pub open spec fn visibility_spec(entries: Seq<(Seq<char>, Leaf)>) -> Result<Seq<char>, ConfigFault> {
    match find_spec(entries, "visibility"@) {
        None => Err(semantic("visibility"@, 1, "the schema requires it"@)),
        Some(node) => {
            let declared = scalar_or_empty(node.tree);
            if declared == "public"@ || declared == "private"@ {
                Ok(declared)
            } else {
                Err(semantic("visibility"@, node.line, VISIBILITY_REFUSAL@))
            }
        },
    }
}

pub const VISIBILITY_REFUSAL: &'static str = "is neither public nor private, and an offline validator cannot infer hosted visibility from a remote or a network call";

/// Whether a name is lowercase letters, digits and inner hyphens.
pub open spec fn portable_spec(v: Seq<char>) -> bool {
    &&& v.len() > 0
    &&& v[0] != '-'
    &&& v.last() != '-'
    &&& forall|i: int| 0 <= i < v.len() ==> ('a' <= #[trigger] v[i] <= 'z' || '0' <= v[i] <= '9' || v[i] == '-')
}

/// Whether a value is `<layer>/<category>` for a canonical layer and a
/// portable category.
pub open spec fn governed_category_spec(v: Seq<char>) -> bool {
    match split_once_spec(v, seq!['/']) {
        Some((layer, category)) => layers().contains(layer) && portable_spec(category),
        None => false,
    }
}

pub const CATEGORY_REFUSAL: &'static str = "is not a governed layer and category; the canonical layers are ";

pub const CATEGORY_HINT: &'static str = ", and a category is written in lowercase with hyphens";

/// The declared categories from item `i` on, each governed, once, and in
/// sorted order after `previous`.
pub open spec fn categories_from(items: Seq<Leaf>, line: nat, i: nat, previous: Option<Seq<char>>) -> Result<Seq<Seq<char>>, ConfigFault>
    decreases items.len() - i,
{
    if i >= items.len() {
        Ok(Seq::empty())
    } else {
        let category = scalar_or_empty(items[i as int].tree);
        if !governed_category_spec(category) {
            Err(semantic(category, line, CATEGORY_REFUSAL@ + listed(layers()) + CATEGORY_HINT@))
        } else if previous == Some(category) {
            Err(semantic(category, line, "is declared twice"@))
        } else if previous is Some && lex_lt(category, previous->0) {
            Err(semantic(category, line, "is out of sorted order"@))
        } else {
            match categories_from(items, line, i + 1, Some(category)) {
                Ok(rest) => Ok(seq![category] + rest),
                Err(e) => Err(e),
            }
        }
    }
}

pub open spec fn governance_spec(entries: Seq<(Seq<char>, Leaf)>) -> Result<Seq<Seq<char>>, ConfigFault> {
    match find_spec(entries, "governance"@) {
        None => Ok(Seq::empty()),
        Some(node) => {
            let section = mapping_or_empty(node.tree);
            match ordered(section, seq!["local-categories"@], "is not a key the governance section keeps"@) {
                Err(e) => Err(e),
                Ok(_) => match find_spec(section, "local-categories"@) {
                    None => Err(semantic("governance"@, node.line, "keeps only `local-categories`, and declares none"@)),
                    Some(declared) => if is_empty_spec(declared.tree) {
                        Err(semantic("local-categories"@, declared.line, "is declared with nothing in it"@))
                    } else {
                        categories_from(list_or_empty(declared.tree), declared.line, 0, None)
                    },
                },
            }
        },
    }
}

/// Every extension namespace owns a mapping.
pub open spec fn extensions_from(profiles: Seq<(Seq<char>, Leaf)>, i: nat) -> Result<(), ConfigFault>
    decreases profiles.len() - i,
{
    if i >= profiles.len() {
        Ok(())
    } else if !(profiles[i as int].1.tree is Mapping) {
        Err(semantic(profiles[i as int].0, profiles[i as int].1.line, EXTENSION_REFUSAL@))
    } else {
        extensions_from(profiles, i + 1)
    }
}

pub const EXTENSION_REFUSAL: &'static str = "is not an extension namespace; a profile owns a mapping, and core reads no meaning inside one";

pub open spec fn extensions_spec(entries: Seq<(Seq<char>, Leaf)>) -> Result<(), ConfigFault> {
    match find_spec(entries, "extensions"@) {
        None => Ok(()),
        Some(node) => extensions_from(mapping_or_empty(node.tree), 0),
    }
}

pub open spec fn runs_at_spec(g: GateView, surface: Seq<char>) -> bool {
    g.surfaces.contains(surface)
}

/// The surfaces of a gate entry from item `i` on: each in the closed set,
/// once, and in canonical order.
pub open spec fn named_from(items: Seq<Leaf>, line: nat, i: nat, named: Seq<Seq<char>>, highest: nat) -> Result<Seq<Seq<char>>, ConfigFault>
    decreases items.len() - i,
{
    if i >= items.len() {
        Ok(named)
    } else {
        let surface = scalar_or_empty(items[i as int].tree);
        match position(surfaces(), surface) {
            None => Err(semantic(surface, line, "is not a surface this schema keeps; the closed set is "@ + listed(surfaces()))),
            Some(p) => if named.contains(surface) {
                Err(semantic(surface, line, "is declared twice"@))
            } else if p < highest {
                Err(semantic(surface, line, "is out of canonical surface order; the order is "@ + listed(surfaces())))
            } else {
                named_from(items, line, i + 1, named.push(surface), p)
            },
        }
    }
}

pub const RUN_REFUSAL: &'static str = "is not an argument vector; a gate is executed directly, so a shell string would be a command nothing runs";

pub const MUTATION_REFUSAL: &'static str = "a mutation may run only at pre-commit, where it owns its own safe restaging";

/// One gate entry, checked against the gates declared before it.
pub open spec fn gate_spec(item: Leaf, earlier: Seq<GateView>) -> Result<GateView, ConfigFault> {
    let fields = mapping_or_empty(item.tree);
    match ordered(fields, entry_keys(), "is not a key a gate entry keeps"@) {
        Err(e) => Err(e),
        Ok(_) => match first_absent(fields, item.line, 0) {
            Err(e) => Err(e),
            Ok(_) => {
                let identifier = find_spec(fields, "id"@)->0;
                let id = scalar_or_empty(identifier.tree);
                let declared_kind = find_spec(fields, "kind"@)->0;
                let kind = scalar_or_empty(declared_kind.tree);
                let run = find_spec(fields, "run"@)->0;
                let declared = find_spec(fields, "surfaces"@)->0;
                if !portable_spec(id) {
                    Err(semantic("id"@, identifier.line, "is not a lowercase-hyphen identifier"@))
                } else if exists|k: int| 0 <= k < earlier.len() && (#[trigger] earlier[k]).id == id {
                    Err(semantic("id"@, identifier.line, id + " is declared twice, and a gate is named once"@))
                } else if !(kind == "check"@ || kind == "mutation"@) {
                    Err(semantic("kind"@, declared_kind.line, "is neither check nor mutation"@))
                } else if !(run.tree is List) {
                    Err(semantic("run"@, run.line, RUN_REFUSAL@))
                } else if list_or_empty(run.tree).len() == 0 {
                    Err(semantic("run"@, run.line, "is declared with nothing in it"@))
                } else if list_or_empty(declared.tree).len() == 0 {
                    Err(semantic("surfaces"@, declared.line, "is declared with nothing in it"@))
                } else {
                    match named_from(list_or_empty(declared.tree), declared.line, 0, Seq::empty(), 0) {
                        Err(e) => Err(e),
                        Ok(named) => if kind == "mutation"@ && exists|k: int| 0 <= k < named.len() && #[trigger] named[k] != "pre-commit"@ {
                            Err(semantic("surfaces"@, declared.line, MUTATION_REFUSAL@))
                        } else {
                            let vector = list_or_empty(run.tree);
                            Ok(GateView {
                                id,
                                kind,
                                run: Seq::new(vector.len(), |k: int| scalar_or_empty(vector[k].tree)),
                                surfaces: named,
                            })
                        },
                    }
                }
            },
        },
    }
}

/// Why an entry lacking one of its keys is refused: every gate entry
/// carries all four.
pub const ENTRY_KEY_TAIL: &'static str = "gate entry contract requires it";

pub open spec fn entry_key_refusal() -> Seq<char> {
    "the "@ + ENTRY_KEY_TAIL@
}

fn entry_key_message() -> (r: String)
    ensures
        r@ == entry_key_refusal(),
{
    let mut m = chars_of("the ");
    extend_str(&mut m, ENTRY_KEY_TAIL);
    string_of(&m)
}

/// The first entry key a gate entry lacks, refused at the entry's line.
pub open spec fn first_absent(fields: Seq<(Seq<char>, Leaf)>, line: nat, i: nat) -> Result<(), ConfigFault>
    decreases entry_keys().len() - i,
{
    if i >= entry_keys().len() {
        Ok(())
    } else if find_spec(fields, entry_keys()[i as int]) is None {
        Err(semantic(entry_keys()[i as int], line, entry_key_refusal()))
    } else {
        first_absent(fields, line, i + 1)
    }
}

/// The gates from item `i` on, after those already read.
pub open spec fn gates_from(items: Seq<Leaf>, i: nat, earlier: Seq<GateView>) -> Result<Seq<GateView>, ConfigFault>
    decreases items.len() - i,
{
    if i >= items.len() {
        Ok(earlier)
    } else {
        match gate_spec(items[i as int], earlier) {
            Err(e) => Err(e),
            Ok(g) => gates_from(items, i + 1, earlier.push(g)),
        }
    }
}

pub const HOOK_REFUSAL: &'static str = "no gate runs at this surface, and every repository carries all three Git hooks";

/// The first hook surface no gate runs at, refused.
pub open spec fn hooks_from(gates: Seq<GateView>, line: nat, i: nat) -> Result<(), ConfigFault>
    decreases hook_surfaces().len() - i,
{
    if i >= hook_surfaces().len() {
        Ok(())
    } else if !(exists|k: int| 0 <= k < gates.len() && runs_at_spec(#[trigger] gates[k], hook_surfaces()[i as int])) {
        Err(semantic(hook_surfaces()[i as int], line, HOOK_REFUSAL@))
    } else {
        hooks_from(gates, line, i + 1)
    }
}

pub const NO_GATE: &'static str = "declares no gate, and a repository enforcing nothing says so by not adopting this schema";

pub open spec fn gates_spec(entries: Seq<(Seq<char>, Leaf)>) -> Result<Seq<GateView>, ConfigFault> {
    match find_spec(entries, "gates"@) {
        None => Err(semantic("gates"@, 1, "the schema requires it"@)),
        Some(node) => {
            let items = list_or_empty(node.tree);
            if items.len() == 0 {
                Err(semantic("gates"@, node.line, NO_GATE@))
            } else {
                match gates_from(items, 0, Seq::empty()) {
                    Err(e) => Err(e),
                    Ok(gates) => match hooks_from(gates, node.line, 0) {
                        Err(e) => Err(e),
                        Ok(_) => Ok(gates),
                    },
                }
            }
        },
    }
}

/// The first gate that runs at a surface.
pub open spec fn first_at(gates: Seq<GateView>, surface: Seq<char>) -> Option<GateView>
    decreases gates.len(),
{
    if gates.len() == 0 {
        None
    } else if runs_at_spec(gates[0], surface) {
        Some(gates[0])
    } else {
        first_at(gates.drop_first(), surface)
    }
}

pub const NO_SAFETY: &'static str = "declares no public-safety gate, and a public repository scans every publication surface first";

/// The first surface at which a gate other than public-safety runs first.
pub open spec fn safety_from(gates: Seq<GateView>, line: nat, i: nat) -> Result<(), ConfigFault>
    decreases surfaces().len() - i,
{
    if i >= surfaces().len() {
        Ok(())
    } else {
        match first_at(gates, surfaces()[i as int]) {
            Some(g) => if g.id != "public-safety"@ {
                Err(semantic(surfaces()[i as int], line, "public-safety does not run first at this surface"@))
            } else {
                safety_from(gates, line, i + 1)
            },
            None => safety_from(gates, line, i + 1),
        }
    }
}

/// A public repository runs public-safety first at every surface it
/// dispatches.
pub open spec fn public_safety_spec(visibility: Seq<char>, gates: Seq<GateView>, entries: Seq<(Seq<char>, Leaf)>) -> Result<(), ConfigFault> {
    if visibility != "public"@ {
        Ok(())
    } else {
        let line = match find_spec(entries, "gates"@) {
            Some(node) => node.line,
            None => 1,
        };
        if !(exists|k: int| 0 <= k < gates.len() && (#[trigger] gates[k]).id == "public-safety"@) {
            Err(semantic("gates"@, line, NO_SAFETY@))
        } else {
            safety_from(gates, line, 0)
        }
    }
}

/// A read v2 document as plain values.
pub ghost struct DocumentView {
    pub visibility: Seq<char>,
    pub local_categories: Seq<Seq<char>>,
    pub gates: Seq<GateView>,
}

/// What reading and checking a whole v2 document gives.
pub open spec fn parse_spec(text: Seq<char>) -> Result<DocumentView, ConfigFault> {
    let entries = mapping_from(significant_spec(text), 0, 0, 0).0;
    match ordered(entries, keys(), "is not a key this schema keeps"@) {
        Err(e) => Err(e),
        Ok(_) => match required_spec(entries) {
            Err(e) => Err(e),
            Ok(_) => match carries_from(entries, 0) {
                Err(e) => Err(e),
                Ok(_) => match visibility_spec(entries) {
                    Err(e) => Err(e),
                    Ok(visibility) => match governance_spec(entries) {
                        Err(e) => Err(e),
                        Ok(local_categories) => match extensions_spec(entries) {
                            Err(e) => Err(e),
                            Ok(_) => match gates_spec(entries) {
                                Err(e) => Err(e),
                                Ok(gates) => match public_safety_spec(visibility, gates, entries) {
                                    Err(e) => Err(e),
                                    Ok(_) => Ok(DocumentView { visibility, local_categories, gates }),
                                },
                            },
                        },
                    },
                },
            },
        },
    }
}

fn key_names() -> (r: Vec<&'static str>)
    ensures
        str_views(r@) == keys(),
{
    let r = vec![
        "schema", "visibility", "governance", "model-tiers", "scan", "harness-parity", "metadata",
        "governance-word-budget", "governance-directory-map", "md-frontmatter", "md-heading-hierarchy",
        "md-internal-link", "md-mermaid", "md-naming", "md-readme-index", "convention-emoji", "gates", "extensions",
    ];
    assert(str_views(r@) =~= keys());
    r
}

fn optional_names() -> (r: Vec<&'static str>)
    ensures
        str_views(r@) == optional_keys(),
{
    let r = vec![
        "governance", "model-tiers", "extensions", "scan", "harness-parity", "metadata", "governance-word-budget",
        "governance-directory-map", "md-frontmatter", "md-heading-hierarchy", "md-internal-link", "md-mermaid",
        "md-naming", "md-readme-index", "convention-emoji",
    ];
    assert(str_views(r@) =~= optional_keys());
    r
}

fn entry_names() -> (r: Vec<&'static str>)
    ensures
        str_views(r@) == entry_keys(),
{
    let r = vec!["id", "kind", "run", "surfaces"];
    assert(str_views(r@) =~= entry_keys());
    r
}

fn surface_names() -> (r: Vec<&'static str>)
    ensures
        str_views(r@) == surfaces(),
{
    let r = vec!["commit-msg", "pre-commit", "pre-push", "ci"];
    assert(str_views(r@) =~= surfaces());
    r
}

fn hook_names() -> (r: Vec<&'static str>)
    ensures
        str_views(r@) == hook_surfaces(),
{
    let r = vec!["commit-msg", "pre-commit", "pre-push"];
    assert(str_views(r@) =~= hook_surfaces());
    r
}

fn layer_names() -> (r: Vec<&'static str>)
    ensures
        str_views(r@) == layers(),
{
    let r = vec!["conventions", "development", "principles", "vision", "workflows"];
    assert(str_views(r@) =~= layers());
    r
}

fn listing(names: &Vec<&'static str>) -> (r: Vec<char>)
    ensures
        r@ == listed(str_views(names@)),
{
    let mut parts: Vec<Vec<char>> = Vec::new();
    let mut i: usize = 0;
    while i < names.len()
        invariant
            i <= names.len(),
            views(parts@) == str_views(names@).take(i as int),
        decreases names.len() - i,
    {
        let ghost before = views(parts@);
        parts.push(chars_of(names[i]));
        assert(views(parts@) =~= before.push(names@[i as int]@));
        assert(views(parts@) =~= str_views(names@).take(i + 1));
        i += 1;
    }
    assert(str_views(names@).take(names.len() as int) =~= str_views(names@));
    join(&parts, &chars_of(", "))
}

fn refuse(key: &str, line: usize, reason: &str) -> (r: ConfigError)
    ensures
        r@ == semantic(key@, line as nat, reason@),
{
    ConfigError::Semantic { key: key.to_string(), line, reason: reason.to_string() }
}

fn same_text(a: &str, b: &str) -> (r: bool)
    ensures
        r == (a@ == b@),
{
    crate::text::same(&chars_of(a), &chars_of(b))
}

fn position_of(names: &Vec<&'static str>, x: &str) -> (r: Option<usize>)
    ensures
        match r {
            Some(p) => position(str_views(names@), x@) == Some(p as nat) && p < names.len(),
            None => position(str_views(names@), x@) is None,
        },
{
    let ghost nv = str_views(names@);
    let mut i: usize = 0;
    assert(nv.skip(0) =~= nv);
    while i < names.len()
        invariant
            i <= names.len(),
            nv == str_views(names@),
            position(nv, x@) == match position(nv.skip(i as int), x@) {
                Some(p) => Some((p + i) as nat),
                None => None::<nat>,
            },
        decreases names.len() - i,
    {
        assert(nv.skip(i as int)[0] == nv[i as int]);
        assert(nv.skip(i as int).drop_first() =~= nv.skip(i + 1));
        if same_text(names[i], x) {
            return Some(i);
        }
        i += 1;
    }
    assert(nv.skip(i as int) =~= Seq::<Seq<char>>::empty());
    None
}

fn find<'a>(entries: &'a [(String, Node)], key: &str) -> (r: Option<&'a Node>)
    ensures
        match r {
            Some(n) => find_spec(entry_leaves(entries@), key@) == Some(Leaf { line: n.line as nat, tree: tree_of(n.value) }),
            None => find_spec(entry_leaves(entries@), key@) is None,
        },
{
    let ghost el = entry_leaves(entries@);
    let mut i: usize = 0;
    assert(el.skip(0) =~= el);
    while i < entries.len()
        invariant
            i <= entries.len(),
            el == entry_leaves(entries@),
            find_spec(el, key@) == find_spec(el.skip(i as int), key@),
        decreases entries.len() - i,
    {
        assert(el.skip(i as int)[0] == el[i as int]);
        assert(el.skip(i as int).drop_first() =~= el.skip(i + 1));
        if same_text(entries[i].0.as_str(), key) {
            return Some(&entries[i].1);
        }
        i += 1;
    }
    assert(el.skip(i as int) =~= Seq::<(Seq<char>, Leaf)>::empty());
    None
}

fn mapping_of(v: &Value) -> (r: &[(String, Node)])
    ensures
        entry_leaves(r@) == mapping_or_empty(tree_of(*v)),
{
    match v {
        Value::Mapping(entries) => {
            proof {
                lemma_tree_of_mapping(*entries);
            }
            entries.as_slice()
        },
        _ => {
            let r: &[(String, Node)] = &[];
            assert(entry_leaves(r@) =~= Seq::<(Seq<char>, Leaf)>::empty());
            r
        },
    }
}

fn list_of(v: &Value) -> (r: Option<&[Node]>)
    ensures
        match r {
            Some(items) => tree_of(*v) is List && node_leaves(items@) == list_or_empty(tree_of(*v)),
            None => !(tree_of(*v) is List),
        },
{
    match v {
        Value::List(items) => {
            proof {
                lemma_tree_of_list(*items);
            }
            Some(items.as_slice())
        },
        _ => None,
    }
}

fn scalar_text(v: &Value) -> (r: Vec<char>)
    ensures
        r@ == scalar_or_empty(tree_of(*v)),
{
    match v {
        Value::Scalar(s) => chars_of(s.as_str()),
        _ => Vec::new(),
    }
}

fn is_empty(v: &Value) -> (r: bool)
    ensures
        r == is_empty_spec(tree_of(*v)),
{
    match v {
        Value::Empty => true,
        Value::Mapping(entries) => {
            proof {
                lemma_tree_of_mapping(*entries);
            }
            entries.len() == 0
        },
        Value::List(items) => {
            proof {
                lemma_tree_of_list(*items);
            }
            items.len() == 0
        },
        Value::Scalar(_) => false,
    }
}

fn ordered_keys(entries: &[(String, Node)], canonical: &Vec<&'static str>, unknown: &str) -> (r: Result<(), ConfigError>)
    ensures
        match r {
            Ok(_) => ordered(entry_leaves(entries@), str_views(canonical@), unknown@) is Ok,
            Err(e) => ordered(entry_leaves(entries@), str_views(canonical@), unknown@) == Err::<(), ConfigFault>(e@),
        },
{
    let ghost el = entry_leaves(entries@);
    let ghost cv = str_views(canonical@);
    let mut highest: usize = 0;
    let mut i: usize = 0;
    while i < entries.len()
        invariant
            i <= entries.len(),
            el == entry_leaves(entries@),
            cv == str_views(canonical@),
            ordered(el, cv, unknown@) == ordered_from(el, cv, unknown@, i as nat, highest as nat),
        decreases entries.len() - i,
    {
        let key = entries[i].0.as_str();
        let line = entries[i].1.line;
        assert(el[i as int].0 == key@ && el[i as int].1.line == line as nat);
        let p = match position_of(canonical, key) {
            None => return Err(refuse(key, line, unknown)),
            Some(p) => p,
        };
        let mut seen = false;
        let mut k: usize = 0;
        while k < i
            invariant
                k <= i,
                i < entries.len(),
                el == entry_leaves(entries@),
                seen == names(el.take(i as int)).take(k as int).contains(key@),
            decreases i - k,
        {
            let ghost prior = names(el.take(i as int)).take(k as int);
            assert(names(el.take(i as int)).take(k + 1) =~= prior.push(entries@[k as int].0@));
            if same_text(entries[k].0.as_str(), key) {
                seen = true;
            }
            proof {
                let now = names(el.take(i as int)).take(k + 1);
                if seen {
                    if !prior.contains(key@) {
                        assert(now[k as int] == key@);
                    }
                } else {
                    assert(!prior.contains(key@));
                    if now.contains(key@) {
                        let w = choose|w: int| 0 <= w < now.len() && now[w] == key@;
                        if w < k {
                            assert(prior[w] == key@);
                        }
                    }
                }
            }
            k += 1;
        }
        assert(names(el.take(i as int)).take(i as int) =~= names(el.take(i as int)));
        if seen {
            return Err(refuse(key, line, "is declared twice"));
        }
        if p < highest {
            let mut m = chars_of("is out of canonical key order; the order is ");
            extend(&mut m, &listing(canonical));
            return Err(refuse(key, line, string_of(&m).as_str()));
        }
        highest = p;
        i += 1;
    }
    Ok(())
}

fn first_missing_key(entries: &[(String, Node)], wanted: &Vec<&'static str>, line: usize) -> (r: Result<(), ConfigError>)
    requires
        line == 1,
    ensures
        match r {
            Ok(_) => first_missing(entry_leaves(entries@), str_views(wanted@), 0) is Ok,
            Err(e) => first_missing(entry_leaves(entries@), str_views(wanted@), 0) == Err::<(), ConfigFault>(e@),
        },
{
    let ghost wv = str_views(wanted@);
    let mut i: usize = 0;
    while i < wanted.len()
        invariant
            i <= wanted.len(),
            line == 1,
            wv == str_views(wanted@),
            first_missing(entry_leaves(entries@), wv, 0) == first_missing(entry_leaves(entries@), wv, i as nat),
        decreases wanted.len() - i,
    {
        if find(entries, wanted[i]).is_none() {
            return Err(refuse(wanted[i], line, "the schema requires it"));
        }
        i += 1;
    }
    Ok(())
}

fn carries_something(entries: &[(String, Node)]) -> (r: Result<(), ConfigError>)
    ensures
        match r {
            Ok(_) => carries_from(entry_leaves(entries@), 0) is Ok,
            Err(e) => carries_from(entry_leaves(entries@), 0) == Err::<(), ConfigFault>(e@),
        },
{
    let wanted = optional_names();
    let mut i: usize = 0;
    while i < wanted.len()
        invariant
            i <= wanted.len(),
            str_views(wanted@) == optional_keys(),
            carries_from(entry_leaves(entries@), 0) == carries_from(entry_leaves(entries@), i as nat),
        decreases wanted.len() - i,
    {
        assert(optional_keys()[i as int] == wanted@[i as int]@);
        if let Some(node) = find(entries, wanted[i]) {
            if is_empty(&node.value) {
                return Err(refuse(wanted[i], node.line, "is declared with nothing in it"));
            }
        }
        i += 1;
    }
    Ok(())
}

fn visibility(entries: &[(String, Node)]) -> (r: Result<String, ConfigError>)
    ensures
        match r {
            Ok(v) => visibility_spec(entry_leaves(entries@)) == Ok::<Seq<char>, ConfigFault>(v@),
            Err(e) => visibility_spec(entry_leaves(entries@)) == Err::<Seq<char>, ConfigFault>(e@),
        },
{
    let node = match find(entries, "visibility") {
        Some(n) => n,
        None => return Err(refuse("visibility", 1, "the schema requires it")),
    };
    let declared = scalar_text(&node.value);
    if crate::text::is(&declared, "public") || crate::text::is(&declared, "private") {
        Ok(string_of(&declared))
    } else {
        Err(refuse("visibility", node.line, VISIBILITY_REFUSAL))
    }
}

fn is_portable_name(v: &Vec<char>) -> (r: bool)
    ensures
        r == portable_spec(v@),
{
    if v.len() == 0 || v[0] == '-' || v[v.len() - 1] == '-' {
        return false;
    }
    let mut i: usize = 0;
    while i < v.len()
        invariant
            i <= v.len(),
            forall|k: int| 0 <= k < i ==> ('a' <= #[trigger] v@[k] <= 'z' || '0' <= v@[k] <= '9' || v@[k] == '-'),
        decreases v.len() - i,
    {
        let c = v[i];
        if !(('a' <= c && c <= 'z') || ('0' <= c && c <= '9') || c == '-') {
            return false;
        }
        i += 1;
    }
    true
}

fn is_governed_category(v: &Vec<char>) -> (r: bool)
    ensures
        r == governed_category_spec(v@),
{
    let slash = vec!['/'];
    assert(slash@ =~= seq!['/']);
    match crate::text::split_once(v, &slash) {
        Some((layer, category)) => {
            let names = layer_names();
            let mut found = false;
            let mut i: usize = 0;
            while i < names.len()
                invariant
                    i <= names.len(),
                    str_views(names@) == layers(),
                    found == str_views(names@).take(i as int).contains(layer@),
                decreases names.len() - i,
            {
                let ghost prior = str_views(names@).take(i as int);
                assert(str_views(names@).take(i + 1) =~= prior.push(names@[i as int]@));
                if crate::text::is(&layer, names[i]) {
                    found = true;
                }
                proof {
                    let now = str_views(names@).take(i + 1);
                    if found && !prior.contains(layer@) {
                        assert(now[i as int] == layer@);
                    }
                    if !found && now.contains(layer@) {
                        let w = choose|w: int| 0 <= w < now.len() && now[w] == layer@;
                        if w < i {
                            assert(prior[w] == layer@);
                        }
                    }
                }
                i += 1;
            }
            assert(str_views(names@).take(names.len() as int) =~= layers());
            found && is_portable_name(&category)
        },
        None => false,
    }
}

fn categories(items: &[Node], line: usize) -> (r: Result<Vec<String>, ConfigError>)
    ensures
        match r {
            Ok(v) => categories_from(node_leaves(items@), line as nat, 0, None) == Ok::<Seq<Seq<char>>, ConfigFault>(
                crate::report::string_views(v@),
            ),
            Err(e) => categories_from(node_leaves(items@), line as nat, 0, None) == Err::<Seq<Seq<char>>, ConfigFault>(e@),
        },
{
    let ghost nl = node_leaves(items@);
    let mut declared: Vec<String> = Vec::new();
    let mut previous: Option<Vec<char>> = None;
    let mut i: usize = 0;
    while i < items.len()
        invariant
            i <= items.len(),
            nl == node_leaves(items@),
            categories_from(nl, line as nat, 0, None) == match categories_from(
                nl,
                line as nat,
                i as nat,
                match previous {
                    Some(p) => Some(p@),
                    None => None,
                },
            ) {
                Ok(rest) => Ok(crate::report::string_views(declared@) + rest),
                Err(e) => Err::<Seq<Seq<char>>, ConfigFault>(e),
            },
        decreases items.len() - i,
    {
        let category = scalar_text(&items[i].value);
        assert(nl[i as int].tree == tree_of(items@[i as int].value));
        if !is_governed_category(&category) {
            let names = layer_names();
            let mut m = chars_of(CATEGORY_REFUSAL);
            extend(&mut m, &listing(&names));
            extend_str(&mut m, CATEGORY_HINT);
            return Err(refuse(string_of(&category).as_str(), line, string_of(&m).as_str()));
        }
        match &previous {
            Some(earlier) => {
                if crate::text::same(earlier, &category) {
                    return Err(refuse(string_of(&category).as_str(), line, "is declared twice"));
                }
                if crate::text::less(&category, earlier) {
                    return Err(refuse(string_of(&category).as_str(), line, "is out of sorted order"));
                }
            },
            None => {},
        }
        let ghost before = crate::report::string_views(declared@);
        let text = string_of(&category);
        declared.push(text);
        proof {
            assert(crate::report::string_views(declared@) =~= before.push(category@));
            match categories_from(nl, line as nat, (i + 1) as nat, Some(category@)) {
                Ok(rest) => {
                    assert(before + (seq![category@] + rest) =~= before.push(category@) + rest);
                },
                Err(_) => {},
            }
        }
        previous = Some(category);
        i += 1;
    }
    assert(crate::report::string_views(declared@) + Seq::<Seq<char>>::empty() =~= crate::report::string_views(declared@));
    Ok(declared)
}

fn governance(entries: &[(String, Node)]) -> (r: Result<Vec<String>, ConfigError>)
    ensures
        match r {
            Ok(v) => governance_spec(entry_leaves(entries@)) == Ok::<Seq<Seq<char>>, ConfigFault>(crate::report::string_views(v@)),
            Err(e) => governance_spec(entry_leaves(entries@)) == Err::<Seq<Seq<char>>, ConfigFault>(e@),
        },
{
    let node = match find(entries, "governance") {
        None => {
            let v: Vec<String> = Vec::new();
            assert(crate::report::string_views(v@) =~= Seq::<Seq<char>>::empty());
            return Ok(v);
        },
        Some(n) => n,
    };
    let section = mapping_of(&node.value);
    let allowed = vec!["local-categories"];
    assert(str_views(allowed@) =~= seq!["local-categories"@]);
    if let Err(e) = ordered_keys(section, &allowed, "is not a key the governance section keeps") {
        return Err(e);
    }
    let declared = match find(section, "local-categories") {
        None => return Err(refuse("governance", node.line, "keeps only `local-categories`, and declares none")),
        Some(d) => d,
    };
    if is_empty(&declared.value) {
        return Err(refuse("local-categories", declared.line, "is declared with nothing in it"));
    }
    match list_of(&declared.value) {
        Some(items) => categories(items, declared.line),
        None => {
            let empty: &[Node] = &[];
            assert(node_leaves(empty@) =~= Seq::<Leaf>::empty());
            categories(empty, declared.line)
        },
    }
}

fn extensions(entries: &[(String, Node)]) -> (r: Result<(), ConfigError>)
    ensures
        match r {
            Ok(_) => extensions_spec(entry_leaves(entries@)) is Ok,
            Err(e) => extensions_spec(entry_leaves(entries@)) == Err::<(), ConfigFault>(e@),
        },
{
    let node = match find(entries, "extensions") {
        None => return Ok(()),
        Some(n) => n,
    };
    let profiles = mapping_of(&node.value);
    let ghost pl = entry_leaves(profiles@);
    let mut i: usize = 0;
    while i < profiles.len()
        invariant
            i <= profiles.len(),
            pl == entry_leaves(profiles@),
            extensions_spec(entry_leaves(entries@)) == extensions_from(pl, 0),
            extensions_from(pl, 0) == extensions_from(pl, i as nat),
        decreases profiles.len() - i,
    {
        let is_mapping = match &profiles[i].1.value {
            Value::Mapping(_) => true,
            _ => false,
        };
        assert(pl[i as int].1.tree == tree_of(profiles@[i as int].1.value));
        if !is_mapping {
            assert(!(tree_of(profiles@[i as int].1.value) is Mapping));
            assert(pl[i as int].0 == profiles@[i as int].0@);
            assert(pl[i as int].1.line == profiles@[i as int].1.line as nat);
            let e = refuse(profiles[i].0.as_str(), profiles[i].1.line, EXTENSION_REFUSAL);
            return Err(e);
        }
        i += 1;
    }
    Ok(())
}

/// A declared gate.
#[derive(Debug, Clone)]
pub struct Gate {
    pub id: String,
    pub kind: String,
    pub run: Vec<String>,
    pub surfaces: Vec<String>,
}

impl View for Gate {
    type V = GateView;

    open spec fn view(&self) -> GateView {
        GateView {
            id: self.id@,
            kind: self.kind@,
            run: crate::report::string_views(self.run@),
            surfaces: crate::report::string_views(self.surfaces@),
        }
    }
}

pub open spec fn gate_views(gates: Seq<Gate>) -> Seq<GateView> {
    Seq::new(gates.len(), |i: int| gates[i]@)
}

impl Gate {
    /// Whether this gate is selected by a surface.
    pub fn runs_at(&self, surface: &str) -> (r: bool)
        ensures
            r == runs_at_spec(self@, surface@),
    {
        let ghost sv = crate::report::string_views(self.surfaces@);
        let mut i: usize = 0;
        while i < self.surfaces.len()
            invariant
                i <= self.surfaces.len(),
                sv == crate::report::string_views(self.surfaces@),
                forall|k: int| 0 <= k < i ==> sv[k] != surface@,
            decreases self.surfaces.len() - i,
        {
            if same_text(self.surfaces[i].as_str(), surface) {
                assert(sv[i as int] == surface@);
                return true;
            }
            i += 1;
        }
        false
    }
}

#[verifier::loop_isolation(false)]
fn named_surfaces(items: &[Node], line: usize) -> (r: Result<Vec<String>, ConfigError>)
    ensures
        match r {
            Ok(v) => named_from(node_leaves(items@), line as nat, 0, Seq::empty(), 0) == Ok::<Seq<Seq<char>>, ConfigFault>(
                crate::report::string_views(v@),
            ),
            Err(e) => named_from(node_leaves(items@), line as nat, 0, Seq::empty(), 0) == Err::<Seq<Seq<char>>, ConfigFault>(e@),
        },
{
    let ghost nl = node_leaves(items@);
    let known = surface_names();
    let mut named: Vec<String> = Vec::new();
    let mut highest: usize = 0;
    let mut i: usize = 0;
    assert(crate::report::string_views(named@) =~= Seq::<Seq<char>>::empty());
    while i < items.len()
        invariant
            i <= items.len(),
            nl == node_leaves(items@),
            str_views(known@) == surfaces(),
            named_from(nl, line as nat, 0, Seq::empty(), 0) == named_from(
                nl,
                line as nat,
                i as nat,
                crate::report::string_views(named@),
                highest as nat,
            ),
        decreases items.len() - i,
    {
        let surface = scalar_text(&items[i].value);
        let text = string_of(&surface);
        assert(nl[i as int].tree == tree_of(items@[i as int].value));
        let p = match position_of(&known, text.as_str()) {
            None => {
                let mut m = chars_of("is not a surface this schema keeps; the closed set is ");
                extend(&mut m, &listing(&known));
                return Err(refuse(text.as_str(), line, string_of(&m).as_str()));
            },
            Some(p) => p,
        };
        let ghost nv = crate::report::string_views(named@);
        let mut seen = false;
        let mut k: usize = 0;
        while k < named.len()
            invariant
                k <= named.len(),
                nv == crate::report::string_views(named@),
                text@ == surface@,
                seen == nv.take(k as int).contains(surface@),
            decreases named.len() - k,
        {
            assert(nv.take(k + 1) =~= nv.take(k as int).push(named@[k as int]@));
            if same_text(named[k].as_str(), text.as_str()) {
                seen = true;
            }
            proof {
                let now = nv.take(k + 1);
                let prior = nv.take(k as int);
                if seen && !prior.contains(surface@) {
                    assert(now[k as int] == surface@);
                }
                if !seen && now.contains(surface@) {
                    let w = choose|w: int| 0 <= w < now.len() && now[w] == surface@;
                    if w < k {
                        assert(prior[w] == surface@);
                    }
                }
            }
            k += 1;
        }
        assert(nv.take(named.len() as int) =~= nv);
        if seen {
            return Err(refuse(text.as_str(), line, "is declared twice"));
        }
        if p < highest {
            let mut m = chars_of("is out of canonical surface order; the order is ");
            extend(&mut m, &listing(&known));
            return Err(refuse(text.as_str(), line, string_of(&m).as_str()));
        }
        highest = p;
        named.push(text);
        assert(crate::report::string_views(named@) =~= nv.push(surface@));
        i += 1;
    }
    Ok(named)
}

#[verifier::loop_isolation(false)]
fn gate_entry(item: &Node, earlier: &Vec<Gate>) -> (r: Result<Gate, ConfigError>)
    ensures
        match r {
            Ok(g) => gate_spec(Leaf { line: item.line as nat, tree: tree_of(item.value) }, gate_views(earlier@)) == Ok::<GateView, ConfigFault>(g@),
            Err(e) => gate_spec(Leaf { line: item.line as nat, tree: tree_of(item.value) }, gate_views(earlier@)) == Err::<GateView, ConfigFault>(e@),
        },
{
    let fields = mapping_of(&item.value);
    let ghost fl = entry_leaves(fields@);
    let wanted = entry_names();
    if let Err(e) = ordered_keys(fields, &wanted, "is not a key a gate entry keeps") {
        return Err(e);
    }
    let mut w: usize = 0;
    while w < wanted.len()
        invariant
            w <= wanted.len(),
            str_views(wanted@) == entry_keys(),
            fl == entry_leaves(fields@),
            first_absent(fl, item.line as nat, 0) == first_absent(fl, item.line as nat, w as nat),
            forall|t: int| 0 <= t < w ==> find_spec(fl, #[trigger] entry_keys()[t]) is Some,
        decreases wanted.len() - w,
    {
        assert(entry_keys()[w as int] == wanted@[w as int]@);
        if find(fields, wanted[w]).is_none() {
            return Err(refuse(wanted[w], item.line, entry_key_message().as_str()));
        }
        w += 1;
    }
    assert(entry_keys()[0] == "id"@ && entry_keys()[1] == "kind"@ && entry_keys()[2] == "run"@ && entry_keys()[3] == "surfaces"@);
    let identifier = match find(fields, "id") {
        Some(n) => n,
        None => return Err(refuse("id", item.line, entry_key_message().as_str())),
    };
    let declared_kind = match find(fields, "kind") {
        Some(n) => n,
        None => return Err(refuse("kind", item.line, entry_key_message().as_str())),
    };
    let run = match find(fields, "run") {
        Some(n) => n,
        None => return Err(refuse("run", item.line, entry_key_message().as_str())),
    };
    let declared = match find(fields, "surfaces") {
        Some(n) => n,
        None => return Err(refuse("surfaces", item.line, entry_key_message().as_str())),
    };
    let id = scalar_text(&identifier.value);
    if !is_portable_name(&id) {
        return Err(refuse("id", identifier.line, "is not a lowercase-hyphen identifier"));
    }
    let ghost ev = gate_views(earlier@);
    let mut k: usize = 0;
    while k < earlier.len()
        invariant
            k <= earlier.len(),
            ev == gate_views(earlier@),
            forall|j: int| 0 <= j < k ==> (#[trigger] ev[j]).id != id@,
        decreases earlier.len() - k,
    {
        if crate::text::same(&chars_of(earlier[k].id.as_str()), &id) {
            assert(ev[k as int].id == id@);
            let mut m = id.clone();
            assert(m@ == id@);
            extend_str(&mut m, " is declared twice, and a gate is named once");
            return Err(refuse("id", identifier.line, string_of(&m).as_str()));
        }
        k += 1;
    }
    let kind = scalar_text(&declared_kind.value);
    if !(crate::text::is(&kind, "check") || crate::text::is(&kind, "mutation")) {
        return Err(refuse("kind", declared_kind.line, "is neither check nor mutation"));
    }
    let vector = match list_of(&run.value) {
        Some(v) => v,
        None => return Err(refuse("run", run.line, RUN_REFUSAL)),
    };
    if vector.len() == 0 {
        return Err(refuse("run", run.line, "is declared with nothing in it"));
    }
    let surface_items: &[Node] = match list_of(&declared.value) {
        Some(v) => v,
        None => {
            let empty: &[Node] = &[];
            assert(node_leaves(empty@) =~= Seq::<Leaf>::empty());
            empty
        },
    };
    if surface_items.len() == 0 {
        return Err(refuse("surfaces", declared.line, "is declared with nothing in it"));
    }
    let named = match named_surfaces(surface_items, declared.line) {
        Ok(n) => n,
        Err(e) => return Err(e),
    };
    let ghost nv = crate::report::string_views(named@);
    if crate::text::is(&kind, "mutation") {
        let mut j: usize = 0;
        while j < named.len()
            invariant
                j <= named.len(),
                nv == crate::report::string_views(named@),
                forall|t: int| 0 <= t < j ==> #[trigger] nv[t] == "pre-commit"@,
            decreases named.len() - j,
        {
            if !same_text(named[j].as_str(), "pre-commit") {
                assert(nv[j as int] != "pre-commit"@);
                return Err(refuse("surfaces", declared.line, MUTATION_REFUSAL));
            }
            j += 1;
        }
    }
    let ghost vl = node_leaves(vector@);
    let mut arguments: Vec<String> = Vec::new();
    let mut a: usize = 0;
    while a < vector.len()
        invariant
            a <= vector.len(),
            vl == node_leaves(vector@),
            crate::report::string_views(arguments@) == Seq::new(a as nat, |t: int| scalar_or_empty(vl[t].tree)),
        decreases vector.len() - a,
    {
        let ghost before = crate::report::string_views(arguments@);
        let text = string_of(&scalar_text(&vector[a].value));
        assert(vl[a as int].tree == tree_of(vector@[a as int].value));
        let ghost tv = text@;
        arguments.push(text);
        assert(crate::report::string_views(arguments@) =~= before.push(tv));
        assert(crate::report::string_views(arguments@) =~= Seq::new((a + 1) as nat, |t: int| scalar_or_empty(vl[t].tree)));
        a += 1;
    }
    let gate = Gate { id: string_of(&id), kind: string_of(&kind), run: arguments, surfaces: named };
    assert(gate@.run =~= Seq::new(vl.len(), |t: int| scalar_or_empty(vl[t].tree)));
    Ok(gate)
}

#[verifier::loop_isolation(false)]
fn gates(entries: &[(String, Node)]) -> (r: Result<Vec<Gate>, ConfigError>)
    ensures
        match r {
            Ok(g) => gates_spec(entry_leaves(entries@)) == Ok::<Seq<GateView>, ConfigFault>(gate_views(g@)),
            Err(e) => gates_spec(entry_leaves(entries@)) == Err::<Seq<GateView>, ConfigFault>(e@),
        },
{
    let node = match find(entries, "gates") {
        Some(n) => n,
        None => return Err(refuse("gates", 1, "the schema requires it")),
    };
    let items: &[Node] = match list_of(&node.value) {
        Some(v) => v,
        None => {
            let empty: &[Node] = &[];
            assert(node_leaves(empty@) =~= Seq::<Leaf>::empty());
            empty
        },
    };
    if items.len() == 0 {
        return Err(refuse("gates", node.line, NO_GATE));
    }
    let ghost nl = node_leaves(items@);
    let mut declared: Vec<Gate> = Vec::new();
    let mut i: usize = 0;
    assert(gate_views(declared@) =~= Seq::<GateView>::empty());
    while i < items.len()
        invariant
            i <= items.len(),
            nl == node_leaves(items@),
            gates_from(nl, 0, Seq::empty()) == gates_from(nl, i as nat, gate_views(declared@)),
        decreases items.len() - i,
    {
        assert(nl[i as int] == Leaf { line: items@[i as int].line as nat, tree: tree_of(items@[i as int].value) });
        let g = match gate_entry(&items[i], &declared) {
            Ok(g) => g,
            Err(e) => return Err(e),
        };
        let ghost before = gate_views(declared@);
        let ghost gv = g@;
        declared.push(g);
        assert(gate_views(declared@) =~= before.push(gv));
        i += 1;
    }
    let hooks = hook_names();
    let mut h: usize = 0;
    while h < hooks.len()
        invariant
            h <= hooks.len(),
            str_views(hooks@) == hook_surfaces(),
            hooks_from(gate_views(declared@), node.line as nat, 0) == hooks_from(gate_views(declared@), node.line as nat, h as nat),
        decreases hooks.len() - h,
    {
        assert(hook_surfaces()[h as int] == hooks@[h as int]@);
        let mut any = false;
        let mut k: usize = 0;
        while k < declared.len()
            invariant
                k <= declared.len(),
                any == exists|t: int| 0 <= t < k && runs_at_spec(#[trigger] gate_views(declared@)[t], hooks@[h as int]@),
            decreases declared.len() - k,
        {
            assert(gate_views(declared@)[k as int] == declared@[k as int]@);
            if declared[k].runs_at(hooks[h]) {
                any = true;
            }
            k += 1;
        }
        if !any {
            return Err(refuse(hooks[h], node.line, HOOK_REFUSAL));
        }
        h += 1;
    }
    Ok(declared)
}

#[verifier::loop_isolation(false)]
fn public_safety(visibility: &str, gates: &Vec<Gate>, entries: &[(String, Node)]) -> (r: Result<(), ConfigError>)
    ensures
        match r {
            Ok(_) => public_safety_spec(visibility@, gate_views(gates@), entry_leaves(entries@)) is Ok,
            Err(e) => public_safety_spec(visibility@, gate_views(gates@), entry_leaves(entries@)) == Err::<(), ConfigFault>(e@),
        },
{
    if !same_text(visibility, "public") {
        return Ok(());
    }
    let line = match find(entries, "gates") {
        Some(n) => n.line,
        None => 1,
    };
    let ghost gv = gate_views(gates@);
    let mut k: usize = 0;
    let mut any = false;
    while k < gates.len()
        invariant
            k <= gates.len(),
            gv == gate_views(gates@),
            any == exists|t: int| 0 <= t < k && (#[trigger] gv[t]).id == "public-safety"@,
        decreases gates.len() - k,
    {
        assert(gv[k as int] == gates@[k as int]@);
        if same_text(gates[k].id.as_str(), "public-safety") {
            any = true;
        }
        k += 1;
    }
    if !any {
        return Err(refuse("gates", line, NO_SAFETY));
    }
    let known = surface_names();
    let mut i: usize = 0;
    while i < known.len()
        invariant
            i <= known.len(),
            gv == gate_views(gates@),
            str_views(known@) == surfaces(),
            safety_from(gv, line as nat, 0) == safety_from(gv, line as nat, i as nat),
        decreases known.len() - i,
    {
        assert(surfaces()[i as int] == known@[i as int]@);
        let mut j: usize = 0;
        let mut first: Option<usize> = None;
        assert(gv.skip(0) =~= gv);
        while j < gates.len()
            invariant
                j <= gates.len(),
                gv == gate_views(gates@),
                first is None ==> first_at(gv, known@[i as int]@) == first_at(gv.skip(j as int), known@[i as int]@),
                first matches Some(f) ==> f < gates.len() && first_at(gv, known@[i as int]@) == Some(gv[f as int]),
            decreases gates.len() - j,
        {
            assert(gv.skip(j as int)[0] == gv[j as int]);
            assert(gv.skip(j as int).drop_first() =~= gv.skip(j + 1));
            if first.is_none() && gates[j].runs_at(known[i]) {
                first = Some(j);
            }
            j += 1;
        }
        assert(gv.skip(j as int) =~= Seq::<GateView>::empty());
        if let Some(f) = first {
            if !same_text(gates[f].id.as_str(), "public-safety") {
                return Err(refuse(known[i], line, "public-safety does not run first at this surface"));
            }
        }
        i += 1;
    }
    Ok(())
}

/// A read document: what a repository declared, and where it said it.
#[derive(Debug)]
pub struct Document {
    pub visibility: String,
    /// The `<layer>/<category>` values this repository declared as its own.
    pub local_categories: Vec<String>,
    pub gates: Vec<Gate>,
}

impl View for Document {
    type V = DocumentView;

    open spec fn view(&self) -> DocumentView {
        DocumentView {
            visibility: self.visibility@,
            local_categories: crate::report::string_views(self.local_categories@),
            gates: gate_views(self.gates@),
        }
    }
}

/// Read and check a whole v2 document.
pub fn parse(text: &str) -> (r: Result<Document, ConfigError>)
    ensures
        match r {
            Ok(d) => parse_spec(text@) == Ok::<DocumentView, ConfigFault>(d@),
            Err(e) => parse_spec(text@) == Err::<DocumentView, ConfigFault>(e@),
        },
{
    let lines = significant(text);
    let (entries, _) = mapping(&lines, 0, 0);
    let entries = entries.as_slice();
    let names = key_names();
    if let Err(e) = ordered_keys(entries, &names, "is not a key this schema keeps") {
        return Err(e);
    }
    let wanted = vec!["schema", "visibility", "gates"];
    assert(str_views(wanted@) =~= required());
    if let Err(e) = first_missing_key(entries, &wanted, 1) {
        return Err(e);
    }
    if let Err(e) = carries_something(entries) {
        return Err(e);
    }
    let visibility = match visibility(entries) {
        Ok(v) => v,
        Err(e) => return Err(e),
    };
    let local_categories = match governance(entries) {
        Ok(v) => v,
        Err(e) => return Err(e),
    };
    if let Err(e) = extensions(entries) {
        return Err(e);
    }
    let gates = match gates(entries) {
        Ok(g) => g,
        Err(e) => return Err(e),
    };
    if let Err(e) = public_safety(visibility.as_str(), &gates, entries) {
        return Err(e);
    }
    Ok(Document { visibility, local_categories, gates })
}

/// The value of the first top-level `schema` key, unquoted, wherever it
/// sits among the significant lines.
pub open spec fn declares_from(ls: Seq<LineView>) -> Option<Seq<char>>
    decreases ls.len(),
{
    if ls.len() == 0 {
        None
    } else {
        match key_spec(ls[0].text) {
            Some((key, rest)) if ls[0].indent == 0 && !ls[0].item && key == "schema"@ => Some(unquote_spec(trim_spec(rest))),
            _ => declares_from(ls.drop_first()),
        }
    }
}

/// The schema a document declares as a top-level key, wherever it sits.
pub fn declares(text: &str) -> (r: Option<String>)
    ensures
        match r {
            Some(s) => declares_from(significant_spec(text@)) == Some(s@),
            None => declares_from(significant_spec(text@)) is None,
        },
{
    let lines = significant(text);
    let ghost lv = line_views(lines@);
    let mut i: usize = 0;
    assert(lv.skip(0) =~= lv);
    while i < lines.len()
        invariant
            i <= lines.len(),
            lv == line_views(lines@),
            lv == significant_spec(text@),
            declares_from(lv) == declares_from(lv.skip(i as int)),
        decreases lines.len() - i,
    {
        assert(lv.skip(i as int)[0] == lv[i as int]);
        assert(lv.skip(i as int).drop_first() =~= lv.skip(i + 1));
        if lines[i].indent == 0 && !lines[i].item {
            if let Some((key, rest)) = key_of(&lines[i].text) {
                if crate::text::is(&key, "schema") {
                    return Some(string_of(&unquote(&trim(&rest))));
                }
            }
        }
        i += 1;
    }
    assert(lv.skip(i as int) =~= Seq::<LineView>::empty());
    None
}

} // verus!
