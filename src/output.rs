//! Writing a compiled catalog back out: as a line catalog, or as a tree in
//! flat form (one level per key) or nested form (one level per path segment).
//!
//! A tree is a list of nodes, each naming its parent (`None`: the root
//! object) by position; a node with a text is a string, any other node an
//! object whose members are its children in list order.

use vstd::prelude::*;
use vstd::string::*;
use crate::messages::{line_texts, MessageSpec, Messages};
use crate::outside::{entry_keys, lines_entries, lines_get_index, lines_len, messages_get_index, messages_len};
use crate::text::str_views;
use crate::outside::inserted;
use crate::messages::{validate_catalog, validate_texts, validate_upto, RawSpec};
use crate::tree::{flat_key, flatten_children, flatten_node, FlatState, TreeInput, TreeNode};
use crate::lrc::TextEntries;
use crate::messages::CatalogProblemView;

verus! {

/// One node of a written tree.
pub struct OutNode {
    pub parent: Option<usize>,
    pub key: String,
    pub text: Option<String>,
}

/// A written tree catalog: `_version` and the nodes.
pub struct MessagesAsTree {
    pub version: usize,
    pub nodes: Vec<OutNode>,
}

/// A node as values: parent, key, text.
pub type NodeV = (Option<int>, Seq<char>, Option<Seq<char>>);

pub open spec fn node_views(v: Seq<OutNode>) -> Seq<NodeV> {
    v.map_values(|n: OutNode| (
        match n.parent { Some(p) => Some(p as int), None => None::<int> },
        n.key@,
        match n.text { Some(t) => Some(t@), None => None::<Seq<char>> },
    ))
}

/// The first of the first `n` nodes that is the child `key` of `parent`.
pub open spec fn find_upto(nodes: Seq<NodeV>, parent: Option<int>, key: Seq<char>, n: int) -> Option<int>
    decreases n,
{
    if n <= 0 {
        None
    } else {
        match find_upto(nodes, parent, key, n - 1) {
            Some(i) => Some(i),
            None => if nodes[n - 1].0 == parent && nodes[n - 1].1 == key { Some(n - 1) } else { None },
        }
    }
}

pub open spec fn find_child(nodes: Seq<NodeV>, parent: Option<int>, key: Seq<char>) -> Option<int> {
    find_upto(nodes, parent, key, nodes.len() as int)
}

/// Sets member `key` of `parent` to a text: an existing member keeps its place.
pub open spec fn set_text(nodes: Seq<NodeV>, parent: Option<int>, key: Seq<char>, text: Seq<char>) -> Seq<NodeV> {
    match find_child(nodes, parent, key) {
        Some(i) => nodes.update(i, (parent, key, Some(text))),
        None => nodes.push((parent, key, Some(text))),
    }
}

/// Enters member `key` of `parent` as an object, adding it when missing.
pub open spec fn enter(nodes: Seq<NodeV>, parent: Option<int>, key: Seq<char>) -> (Seq<NodeV>, Option<int>) {
    match find_child(nodes, parent, key) {
        Some(i) => (nodes.update(i, (parent, key, None)), Some(i)),
        None => (nodes.push((parent, key, None)), Some(nodes.len() as int)),
    }
}

/// Enters the first `n` segments of `path` from `parent`.
pub open spec fn walk_path(nodes: Seq<NodeV>, parent: Option<int>, path: Seq<Seq<char>>, n: int) -> (Seq<NodeV>, Option<int>)
    decreases n,
{
    if n <= 0 {
        (nodes, parent)
    } else {
        let (ns, p) = walk_path(nodes, parent, path, n - 1);
        enter(ns, p, path[n - 1])
    }
}

/// Sets the first `n` lines as texts of `parent`.
pub open spec fn add_lines(nodes: Seq<NodeV>, parent: Option<int>, lines: Seq<(Seq<char>, Seq<char>)>, n: int) -> Seq<NodeV>
    decreases n,
{
    if n <= 0 {
        nodes
    } else {
        let ns = add_lines(nodes, parent, lines, n - 1);
        set_text(ns, parent, lines[n - 1].0, lines[n - 1].1)
    }
}

/// The nested tree of the first `n` messages: each message's lines under
/// the object reached by its path.
pub open spec fn nested_upto(msgs: Seq<(Seq<char>, MessageSpec)>, n: int) -> Seq<NodeV>
    decreases n,
{
    if n <= 0 {
        Seq::empty()
    } else {
        let m = msgs[n - 1].1;
        let (ns, p) = walk_path(nested_upto(msgs, n - 1), None, m.0, m.0.len() as int);
        add_lines(ns, p, m.2, m.2.len() as int)
    }
}

/// The lines of one message as children of node `p`.
pub open spec fn line_nodes(p: int, lines: Seq<(Seq<char>, Seq<char>)>) -> Seq<NodeV> {
    lines.map_values(|l: (Seq<char>, Seq<char>)| (Some(p), l.0, Some(l.1)))
}

/// The flat tree of the first `n` messages: an object per key holding its lines.
pub open spec fn flat_upto(msgs: Seq<(Seq<char>, MessageSpec)>, n: int) -> Seq<NodeV>
    decreases n,
{
    if n <= 0 {
        Seq::empty()
    } else {
        let prev = flat_upto(msgs, n - 1);
        let p = prev.len() as int;
        prev.push((None, msgs[n - 1].0, None)) + line_nodes(p, msgs[n - 1].1.2)
    }
}

pub open spec fn opt_int(p: Option<usize>) -> Option<int> {
    match p {
        Some(q) => Some(q as int),
        None => None,
    }
}

fn same_parent(a: Option<usize>, b: Option<usize>) -> (r: bool)
    ensures
        r == (opt_int(a) == opt_int(b)),
{
    match (a, b) {
        (Some(x), Some(y)) => x == y,
        (None, None) => true,
        _ => false,
    }
}

fn find(nodes: &Vec<OutNode>, parent: Option<usize>, key: &String) -> (r: Option<usize>)
    ensures
        opt_int(r) == find_child(node_views(nodes@), opt_int(parent), key@),
        r is Some ==> r->0 < nodes@.len(),
{
    let ghost nv = node_views(nodes@);
    let mut i: usize = 0;
    while i < nodes.len()
        invariant
            i <= nodes@.len(),
            nv == node_views(nodes@),
            find_upto(nv, opt_int(parent), key@, i as int) is None,
        decreases nodes.len() - i,
    {
        if same_parent(nodes[i].parent, parent) && nodes[i].key == *key {
            assert(find_upto(nv, opt_int(parent), key@, i + 1) == Some(i as int));
            proof {
                lemma_find_stays(nv, opt_int(parent), key@, i + 1, nv.len() as int);
            }
            return Some(i);
        }
        i = i + 1;
    }
    None
}

proof fn lemma_find_stays(nodes: Seq<NodeV>, parent: Option<int>, key: Seq<char>, n: int, m: int)
    requires
        0 <= n <= m,
        find_upto(nodes, parent, key, n) is Some,
    ensures
        find_upto(nodes, parent, key, m) == find_upto(nodes, parent, key, n),
    decreases m - n,
{
    if n < m {
        lemma_find_stays(nodes, parent, key, n, m - 1);
    }
}

fn set_text_exec(nodes: &mut Vec<OutNode>, parent: Option<usize>, key: &String, text: &String)
    ensures
        node_views(final(nodes)@) == set_text(node_views(old(nodes)@), opt_int(parent), key@, text@),
{
    match find(nodes, parent, key) {
        Some(i) => {
            nodes[i] = OutNode { parent, key: key.clone(), text: Some(text.clone()) };
        },
        None => {
            nodes.push(OutNode { parent, key: key.clone(), text: Some(text.clone()) });
        },
    }
    assert(node_views(nodes@) =~= set_text(node_views(old(nodes)@), opt_int(parent), key@, text@));
}

fn enter_exec(nodes: &mut Vec<OutNode>, parent: Option<usize>, key: &String) -> (r: Option<usize>)
    ensures
        (node_views(final(nodes)@), opt_int(r)) == enter(node_views(old(nodes)@), opt_int(parent), key@),
{
    match find(nodes, parent, key) {
        Some(i) => {
            nodes[i] = OutNode { parent, key: key.clone(), text: None };
            assert(node_views(nodes@) =~= enter(node_views(old(nodes)@), opt_int(parent), key@).0);
            Some(i)
        },
        None => {
            let l = nodes.len();
            nodes.push(OutNode { parent, key: key.clone(), text: None });
            assert(node_views(nodes@) =~= enter(node_views(old(nodes)@), opt_int(parent), key@).0);
            Some(l)
        },
    }
}

/// The value lines of a message in the line format.
pub open spec fn lrc_value_lines(lines: Seq<(Seq<char>, Seq<char>)>, n: int) -> Seq<char>
    decreases n,
{
    if n <= 0 {
        Seq::empty()
    } else {
        lrc_value_lines(lines, n - 1) + lines[n - 1].0 + " "@ + lines[n - 1].1 + "\n"@
    }
}

/// The first `n` messages in the line format: `#key`, one line per
/// language, then a blank line.
pub open spec fn lrc_written(msgs: Seq<(Seq<char>, MessageSpec)>, n: int) -> Seq<char>
    decreases n,
{
    if n <= 0 {
        Seq::empty()
    } else {
        let lines = msgs[n - 1].1.2;
        lrc_written(msgs, n - 1) + "#"@ + msgs[n - 1].0 + "\n"@ + lrc_value_lines(lines, lines.len() as int) + "\n"@
    }
}

impl Messages {
    /// The catalog in the line format.
    pub fn to_lrc(&self) -> (r: String)
        ensures
            r@ == lrc_written(self.view_entries(), self.view_entries().len() as int),
    {
        let ghost ve = self.view_entries();
        let mut out = String::new();
        let n = messages_len(&self.inner);
        let mut i: usize = 0;
        while i < n
            invariant
                i <= n == ve.len(),
                ve == self.view_entries(),
                out@ == lrc_written(ve, i as int),
            decreases n - i,
        {
            if let Some((key, msg)) = messages_get_index(&self.inner, i) {
                let ghost lines = ve[i as int].1.2;
                out.append("#");
                out.append(key.as_str());
                out.append("\n");
                let ghost mid = out@;
                let lines_map = &msg.message_lines;
                let m = lines_len(lines_map);
                let mut j: usize = 0;
                while j < m
                    invariant
                        j <= m == lines.len(),
                        lines == line_texts(lines_entries(*lines_map)),
                        out@ == mid + lrc_value_lines(lines, j as int),
                    decreases m - j,
                {
                    if let Some((lang, ml)) = lines_get_index(lines_map, j) {
                        assert(lines[j as int] == (lang@, ml.text()));
                        out.append(lang.as_str());
                        out.append(" ");
                        out.append(ml.line().as_str());
                        out.append("\n");
                        assert(out@ =~= mid + lrc_value_lines(lines, j + 1));
                    }
                    j = j + 1;
                }
                out.append("\n");
                assert(out@ =~= lrc_written(ve, i + 1));
            }
            i = i + 1;
        }
        out
    }

    /// The catalog as a flat tree: per message an object under its key.
    pub fn as_flat(&self) -> (r: MessagesAsTree)
        ensures
            r.version == 2,
            node_views(r.nodes@) == flat_upto(self.view_entries(), self.view_entries().len() as int),
    {
        let ghost ve = self.view_entries();
        let mut nodes: Vec<OutNode> = Vec::new();
        let n = messages_len(&self.inner);
        let mut i: usize = 0;
        assert(node_views(nodes@) =~= flat_upto(ve, 0));
        while i < n
            invariant
                i <= n == ve.len(),
                ve == self.view_entries(),
                node_views(nodes@) == flat_upto(ve, i as int),
            decreases n - i,
        {
            if let Some((key, msg)) = messages_get_index(&self.inner, i) {
                let p = nodes.len();
                nodes.push(OutNode { parent: None, key: key.clone(), text: None });
                let ghost base = node_views(nodes@);
                let ghost lines = ve[i as int].1.2;
                let lines_map = &msg.message_lines;
                let m = lines_len(lines_map);
                let mut j: usize = 0;
                while j < m
                    invariant
                        j <= m == lines.len(),
                        lines == line_texts(lines_entries(*lines_map)),
                        node_views(nodes@) == base + line_nodes(p as int, lines.subrange(0, j as int)),
                    decreases m - j,
                {
                    if let Some((lang, ml)) = lines_get_index(lines_map, j) {
                        let ghost before = node_views(nodes@);
                        nodes.push(OutNode { parent: Some(p), key: lang.clone(), text: Some(ml.line().clone()) });
                        assert(lines[j as int] == (lang@, ml.text()));
                        assert(node_views(nodes@) =~= before.push((Some(p as int), lang@, Some(ml.text()))));
                        assert(lines.subrange(0, j + 1) =~= lines.subrange(0, j as int).push(lines[j as int]));
                        assert(node_views(nodes@) =~= base + line_nodes(p as int, lines.subrange(0, j + 1)));
                    }
                    j = j + 1;
                }
                assert(lines.subrange(0, j as int) =~= lines);
                assert(node_views(nodes@) =~= flat_upto(ve, i + 1));
            }
            i = i + 1;
        }
        MessagesAsTree { version: 2, nodes }
    }

    /// The catalog as a nested tree: each message's lines in the object that
    /// its path leads to. A message written through a member that is a text
    /// turns that member into an object.
    pub fn as_tree(&self) -> (r: MessagesAsTree)
        ensures
            r.version == 2,
            node_views(r.nodes@) == nested_upto(self.view_entries(), self.view_entries().len() as int),
    {
        let ghost ve = self.view_entries();
        let mut nodes: Vec<OutNode> = Vec::new();
        let n = messages_len(&self.inner);
        let mut i: usize = 0;
        assert(node_views(nodes@) =~= nested_upto(ve, 0));
        while i < n
            invariant
                i <= n == ve.len(),
                ve == self.view_entries(),
                node_views(nodes@) == nested_upto(ve, i as int),
            decreases n - i,
        {
            if let Some((_, msg)) = messages_get_index(&self.inner, i) {
                let ghost start = node_views(nodes@);
                let ghost path = ve[i as int].1.0;
                let mut p: Option<usize> = None;
                let mut k: usize = 0;
                while k < msg.path.len()
                    invariant
                        k <= msg.path@.len(),
                        path == str_views(msg.path@),
                        (node_views(nodes@), opt_int(p)) == walk_path(start, None, path, k as int),
                    decreases msg.path.len() - k,
                {
                    p = enter_exec(&mut nodes, p, &msg.path[k]);
                    k = k + 1;
                }
                let ghost base = node_views(nodes@);
                let ghost lines = ve[i as int].1.2;
                let lines_map = &msg.message_lines;
                let m = lines_len(lines_map);
                let mut j: usize = 0;
                while j < m
                    invariant
                        j <= m == lines.len(),
                        lines == line_texts(lines_entries(*lines_map)),
                        node_views(nodes@) == add_lines(base, opt_int(p), lines, j as int),
                    decreases m - j,
                {
                    if let Some((lang, ml)) = lines_get_index(lines_map, j) {
                        set_text_exec(&mut nodes, p, lang, ml.line());
                    }
                    j = j + 1;
                }
            }
            i = i + 1;
        }
        MessagesAsTree { version: 2, nodes }
    }
}

proof fn lemma_find_none(nodes: Seq<NodeV>, parent: Option<int>, key: Seq<char>, n: int)
    requires
        0 <= n <= nodes.len(),
        forall|j: int| 0 <= j < n ==> !(nodes[j].0 == parent && nodes[j].1 == key),
    ensures
        find_upto(nodes, parent, key, n) is None,
    decreases n,
{
    if n > 0 {
        lemma_find_none(nodes, parent, key, n - 1);
    }
}

/// In a flat tree a parent comes before its children, and every member of
/// the root is the key of one of the messages written.
proof fn lemma_flat_shape(msgs: Seq<(Seq<char>, MessageSpec)>, n: int)
    requires
        0 <= n <= msgs.len(),
    ensures
        forall|j: int| 0 <= j < flat_upto(msgs, n).len() && (#[trigger] flat_upto(msgs, n)[j]).0 is Some
            ==> flat_upto(msgs, n)[j].0->0 < j,
        forall|j: int| 0 <= j < flat_upto(msgs, n).len() && (#[trigger] flat_upto(msgs, n)[j]).0 is None
            ==> exists|i: int| 0 <= i < n && flat_upto(msgs, n)[j].1 == (#[trigger] msgs[i]).0,
    decreases n,
{
    if n > 0 {
        lemma_flat_shape(msgs, n - 1);
        let prev = flat_upto(msgs, n - 1);
        let f = flat_upto(msgs, n);
        let lines = msgs[n - 1].1.2;
        assert forall|j: int| 0 <= j < f.len() && (#[trigger] f[j]).0 is None implies exists|i: int| 0 <= i < n && f[j].1 == (#[trigger] msgs[i]).0 by {
            if j < prev.len() {
                assert(f[j] == prev[j]);
                let i = choose|i: int| 0 <= i < n - 1 && prev[j].1 == (#[trigger] msgs[i]).0;
                assert(f[j].1 == msgs[i].0);
            } else if j == prev.len() {
                assert(f[j].1 == msgs[n - 1].0);
            } else {
                assert(f[j] == line_nodes(prev.len() as int, lines)[j - prev.len() - 1]);
            }
        }
        assert forall|j: int| 0 <= j < f.len() && (#[trigger] f[j]).0 is Some implies f[j].0->0 < j by {
            if j < prev.len() {
                assert(f[j] == prev[j]);
            } else if j > prev.len() {
                assert(f[j] == line_nodes(prev.len() as int, lines)[j - prev.len() - 1]);
            }
        }
    }
}

/// Writing the lines of a fresh object adds one member per line, in order,
/// when no language repeats.
proof fn lemma_fresh_lines(base: Seq<NodeV>, l: int, lines: Seq<(Seq<char>, Seq<char>)>, m: int)
    requires
        base.len() == l + 1,
        base[l].0 is None,
        forall|j: int| 0 <= j < base.len() && (#[trigger] base[j]).0 is Some ==> base[j].0->0 < j,
        entry_keys(lines).no_duplicates(),
        0 <= m <= lines.len(),
    ensures
        add_lines(base, Some(l), lines, m) == base + line_nodes(l, lines.subrange(0, m)),
    decreases m,
{
    if m > 0 {
        lemma_fresh_lines(base, l, lines, m - 1);
        let g = base + line_nodes(l, lines.subrange(0, m - 1));
        let key = lines[m - 1].0;
        assert forall|j: int| 0 <= j < g.len() implies !(g[j].0 == Some(l) && g[j].1 == key) by {
            if j <= l {
                assert(g[j] == base[j]);
            } else {
                assert(g[j] == line_nodes(l, lines.subrange(0, m - 1))[j - l - 1]);
                assert(entry_keys(lines)[j - l - 1] != entry_keys(lines)[m - 1]);
            }
        }
        lemma_find_none(g, Some(l), key, g.len() as int);
        assert(g.push((Some(l), key, Some(lines[m - 1].1))) =~= base + line_nodes(l, lines.subrange(0, m)));
    }
}

/// Round trip of a flat catalog: when every message's path is its key alone,
/// keys do not repeat and no message repeats a language, the nested tree is
/// the flat tree, so both write the same text.
pub proof fn lemma_flat_catalog_round_trip(msgs: Seq<(Seq<char>, MessageSpec)>)
    requires
        forall|i: int| 0 <= i < msgs.len() ==> (#[trigger] msgs[i]).1.0 == seq![msgs[i].0],
        entry_keys(msgs).no_duplicates(),
        forall|i: int| 0 <= i < msgs.len() ==> entry_keys((#[trigger] msgs[i]).1.2).no_duplicates(),
    ensures
        nested_upto(msgs, msgs.len() as int) == flat_upto(msgs, msgs.len() as int),
{
    lemma_round_trip_upto(msgs, msgs.len() as int);
}

/// Inserting into entries whose keys do not repeat keeps them so, and the
/// key is then present.
proof fn lemma_inserted_unique<V>(e: Seq<(Seq<char>, V)>, k: Seq<char>, v: V)
    requires
        entry_keys(e).no_duplicates(),
    ensures
        entry_keys(inserted(e, k, v)).no_duplicates(),
        entry_keys(inserted(e, k, v)).contains(k),
        forall|j: int| 0 <= j < e.len() && e[j].0 != k ==> #[trigger] inserted(e, k, v)[j] == e[j],
        inserted(e, k, v).len() >= e.len(),
        forall|j: int| 0 <= j < inserted(e, k, v).len() && inserted(e, k, v)[j].0 == k ==> #[trigger] inserted(e, k, v)[j] == (k, v),
{
    let r = inserted(e, k, v);
    if entry_keys(e).contains(k) {
        let i = entry_keys(e).index_of(k);
        assert(entry_keys(r) =~= entry_keys(e));
        assert(entry_keys(r)[i] == k);
        assert forall|j: int| 0 <= j < r.len() && r[j].0 == k implies #[trigger] r[j] == (k, v) by {
            if j != i {
                assert(entry_keys(e)[j] == k && entry_keys(e)[i] == k);
            }
        }
    } else {
        assert(entry_keys(r) =~= entry_keys(e).push(k));
        assert(entry_keys(r)[e.len() as int] == k);
        assert forall|a: int, b: int| 0 <= a < b < entry_keys(r).len() implies entry_keys(r)[a] != entry_keys(r)[b] by {
            if b == e.len() {
                assert(entry_keys(e)[a] == entry_keys(r)[a]);
            }
        }
        assert forall|j: int| 0 <= j < r.len() && r[j].0 == k implies #[trigger] r[j] == (k, v) by {
            if j < e.len() {
                assert(entry_keys(e)[j] == k);
            }
        }
    }
}

/// Whether every top-level entry of a tree catalog is a message: a flat catalog.
pub open spec fn flat_input(input: TreeInput) -> bool {
    forall|i: int| 0 <= i < input.inner@.len() ==> (#[trigger] input.inner@[i]).1 is LangMap
}

/// Whether each raw message's path is its key alone, and keys do not repeat.
pub open spec fn single_segment(raw: RawSpec) -> bool {
    &&& entry_keys(raw).no_duplicates()
    &&& forall|i: int| 0 <= i < raw.len() ==> (#[trigger] raw[i]).1.0 == seq![raw[i].0]
}

proof fn lemma_flat_tree_single_segment(d: Seq<(String, TreeNode)>, n: int, sep: Seq<char>, st: FlatState)
    requires
        0 <= n <= d.len(),
        forall|i: int| 0 <= i < d.len() ==> (#[trigger] d[i]).1 is LangMap,
        single_segment(st.result),
    ensures
        single_segment(flatten_children(d, n, Seq::empty(), sep, st).result),
    decreases n,
{
    if n > 0 {
        lemma_flat_tree_single_segment(d, n - 1, sep, st);
        let prev = flatten_children(d, n - 1, Seq::empty(), sep, st);
        let k = d[n - 1].0@;
        let keys = Seq::<Seq<char>>::empty().push(k);
        assert(keys =~= seq![k]);
        assert(flat_key(keys, sep) == k);
        let l = d[n - 1].1->LangMap_0;
        let v = (keys, crate::outside::texts_entries(l));
        lemma_inserted_unique(prev.result, k, v);
        let r = inserted(prev.result, k, v);
        assert(flatten_node(d[n - 1].1, keys, sep, prev).result == r);
        assert forall|i: int| 0 <= i < r.len() implies (#[trigger] r[i]).1.0 == seq![r[i].0] by {
            if r[i].0 != k {
                if !entry_keys(prev.result).contains(k) {
                    assert(r[i] == prev.result[i]);
                } else {
                    assert(r[i] == prev.result[i]);
                }
            }
        }
    }
}

proof fn lemma_texts_lines_unique(key: Seq<char>, values: TextEntries, n: int, names: Seq<Seq<char>>)
    requires
        0 <= n <= values.len(),
    ensures
        entry_keys(validate_texts(key, values, n, names).lines).no_duplicates(),
    decreases n,
{
    if n > 0 {
        lemma_texts_lines_unique(key, values, n - 1, names);
        let st = validate_texts(key, values, n - 1, names);
        if names.contains(values[n - 1].0) {
            lemma_inserted_unique(st.lines, values[n - 1].0, values[n - 1].1);
        }
    } else {
        assert(entry_keys(Seq::<(Seq<char>, Seq<char>)>::empty()) =~= Seq::<Seq<char>>::empty());
    }
}

proof fn lemma_validate_single_segment(raw: RawSpec, n: int, names: Seq<Seq<char>>)
    requires
        0 <= n <= raw.len(),
        single_segment(raw),
    ensures
        entry_keys(validate_upto(raw, n, names).messages).no_duplicates(),
        forall|i: int| 0 <= i < validate_upto(raw, n, names).messages.len()
            ==> (#[trigger] validate_upto(raw, n, names).messages[i]).1.0 == seq![validate_upto(raw, n, names).messages[i].0],
        forall|i: int| 0 <= i < validate_upto(raw, n, names).messages.len()
            ==> entry_keys((#[trigger] validate_upto(raw, n, names).messages[i]).1.2).no_duplicates(),
    decreases n,
{
    if n > 0 {
        lemma_validate_single_segment(raw, n - 1, names);
        let prev = validate_upto(raw, n - 1, names);
        let (key, (path, values)) = raw[n - 1];
        let st = validate_texts(key, values, values.len() as int, names);
        if st.lines.len() != 0 {
            lemma_texts_lines_unique(key, values, values.len() as int, names);
            let v = (path, st.params, st.lines);
            lemma_inserted_unique(prev.messages, key, v);
            let r = inserted(prev.messages, key, v);
            assert(path == seq![key]);
            assert forall|i: int| 0 <= i < r.len() implies (#[trigger] r[i]).1.0 == seq![r[i].0]
                && entry_keys(r[i].1.2).no_duplicates() by {
                if r[i].0 != key {
                    assert(r[i] == prev.messages[i]);
                }
            }
        }
    } else {
        assert(entry_keys(Seq::<(Seq<char>, MessageSpec)>::empty()) =~= Seq::<Seq<char>>::empty());
    }
}

/// Round trip of a flat tree catalog: compiling one whose every top-level
/// entry is a message gives messages whose nested tree is their flat tree,
/// so `as_tree` and `as_flat` write the same text.
pub proof fn lemma_flat_tree_catalog_round_trip(input: TreeInput, sep: Seq<char>, names: Seq<Seq<char>>)
    requires
        flat_input(input),
    ensures
        ({
            let raw = flatten_children(input.inner@, input.inner@.len() as int, Seq::empty(), sep,
                FlatState {
                    result: Seq::empty(),
                    problems: if input.version == 2 { Seq::empty() } else { seq![CatalogProblemView::BadVersion] },
                }).result;
            let msgs = validate_catalog(raw, names).messages;
            nested_upto(msgs, msgs.len() as int) == flat_upto(msgs, msgs.len() as int)
        }),
{
    let st0 = FlatState {
        result: Seq::empty(),
        problems: if input.version == 2 { Seq::empty() } else { seq![CatalogProblemView::BadVersion] },
    };
    assert(entry_keys(st0.result) =~= Seq::<Seq<char>>::empty());
    lemma_flat_tree_single_segment(input.inner@, input.inner@.len() as int, sep, st0);
    let raw = flatten_children(input.inner@, input.inner@.len() as int, Seq::empty(), sep, st0).result;
    lemma_validate_single_segment(raw, raw.len() as int, names);
    lemma_flat_catalog_round_trip(validate_catalog(raw, names).messages);
}

proof fn lemma_round_trip_upto(msgs: Seq<(Seq<char>, MessageSpec)>, n: int)
    requires
        0 <= n <= msgs.len(),
        forall|i: int| 0 <= i < msgs.len() ==> (#[trigger] msgs[i]).1.0 == seq![msgs[i].0],
        entry_keys(msgs).no_duplicates(),
        forall|i: int| 0 <= i < msgs.len() ==> entry_keys((#[trigger] msgs[i]).1.2).no_duplicates(),
    ensures
        nested_upto(msgs, n) == flat_upto(msgs, n),
    decreases n,
{
    if n > 0 {
        lemma_round_trip_upto(msgs, n - 1);
        lemma_flat_shape(msgs, n - 1);
        let prev = flat_upto(msgs, n - 1);
        let m = msgs[n - 1].1;
        let key = msgs[n - 1].0;
        assert(m.0 == seq![key]);
        assert forall|j: int| 0 <= j < prev.len() implies !(prev[j].0 == None::<int> && prev[j].1 == key) by {
            if prev[j].0 is None {
                let i = choose|i: int| 0 <= i < n - 1 && prev[j].1 == (#[trigger] msgs[i]).0;
                assert(entry_keys(msgs)[i] != entry_keys(msgs)[n - 1]);
            }
        }
        lemma_find_none(prev, None, key, prev.len() as int);
        let l = prev.len() as int;
        let base = prev.push((None, key, None));
        assert(walk_path(prev, None, m.0, 0) == (prev, None::<int>));
        assert(m.0[0] == key);
        assert(find_child(prev, None, key) is None);
        assert(enter(prev, None, key) == (base, Some(l)));
        assert(walk_path(prev, None, m.0, 1) == (base, Some(l)));
        assert forall|j: int| 0 <= j < base.len() && (#[trigger] base[j]).0 is Some implies base[j].0->0 < j by {
            assert(base[j] == prev[j]);
        }
        lemma_fresh_lines(base, l, m.2, m.2.len() as int);
        assert(m.2.subrange(0, m.2.len() as int) =~= m.2);
    }
}

} // verus!
