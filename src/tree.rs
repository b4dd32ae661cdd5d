//! The tree catalog format: nested mappings whose leaves map language names
//! to texts; the path of each leaf, joined by a separator, is its key.

use vstd::prelude::*;
use vstd::string::*;
use crate::lrc::TextEntries;
use crate::messages::{catalog_problem_views, CatalogProblem, CatalogProblemView, RawMessage};
use crate::outside::{entry_keys, inserted, raw_entries, raw_insert, raw_new, texts_clone, texts_entries};
use crate::text::str_views;
use indexmap::IndexMap;

verus! {

/// One node of a decoded tree catalog.
pub enum TreeNode {
    /// A message: text by language name.
    LangMap(IndexMap<String, String>),
    /// A path segment: named children, in order.
    Depth(Vec<(String, TreeNode)>),
}

/// A decoded tree catalog: its `_version` (2 when absent) and top-level entries.
pub struct TreeInput {
    pub version: usize,
    pub inner: Vec<(String, TreeNode)>,
}

/// The messages found so far, with their paths, and the problems.
pub struct FlatState {
    pub result: Seq<(Seq<char>, (Seq<Seq<char>>, TextEntries))>,
    pub problems: Seq<CatalogProblemView>,
}

/// The segments of `keys` joined by `sep`.
pub open spec fn joined_with(keys: Seq<Seq<char>>, sep: Seq<char>) -> Seq<char>
    decreases keys.len(),
{
    if keys.len() == 0 {
        Seq::empty()
    } else if keys.len() == 1 {
        keys[0]
    } else {
        joined_with(keys.drop_last(), sep) + sep + keys.last()
    }
}

/// The key of a leaf at path `keys`: a single segment as it is, else the
/// segments joined by `sep`.
pub open spec fn flat_key(keys: Seq<Seq<char>>, sep: Seq<char>) -> Seq<char> {
    if keys.len() == 1 { keys[0] } else { joined_with(keys, sep) }
}

/// Adds the leaf at path `keys`; a key made before is reported and takes
/// the new texts.
pub open spec fn add_leaf(st: FlatState, keys: Seq<Seq<char>>, sep: Seq<char>, l: TextEntries) -> FlatState {
    let key = flat_key(keys, sep);
    FlatState {
        result: inserted(st.result, key, (keys, l)),
        problems: if entry_keys(st.result).contains(key) {
            st.problems.push(CatalogProblemView::DuplicateFlattenedKey { key, path: keys })
        } else {
            st.problems
        },
    }
}

/// Adds every leaf under `node`, found at path `keys`, depth first in order.
pub open spec fn flatten_node(node: TreeNode, keys: Seq<Seq<char>>, sep: Seq<char>, st: FlatState) -> FlatState
    decreases node, 1int,
{
    match node {
        TreeNode::LangMap(l) => add_leaf(st, keys, sep, texts_entries(l)),
        TreeNode::Depth(d) => flatten_children(d@, d@.len() as int, keys, sep, st),
    }
}

/// Adds every leaf under the first `n` of `d`, found at path `keys`.
pub open spec fn flatten_children(d: Seq<(String, TreeNode)>, n: int, keys: Seq<Seq<char>>, sep: Seq<char>, st: FlatState) -> FlatState
    decreases d, 0int, n,
{
    if n <= 0 || n > d.len() {
        st
    } else {
        let prev = flatten_children(d, n - 1, keys, sep, st);
        flatten_node(d[n - 1].1, keys.push(d[n - 1].0@), sep, prev)
    }
}

/// The raw messages of a map with their paths and texts.
pub open spec fn raw_full(e: Seq<(Seq<char>, RawMessage)>) -> Seq<(Seq<char>, (Seq<Seq<char>>, TextEntries))> {
    e.map_values(|p: (Seq<char>, RawMessage)| (p.0, (str_views(p.1.path@), texts_entries(p.1.values))))
}

pub open spec fn flat_state(result: IndexMap<String, RawMessage>, problems: Seq<CatalogProblem>) -> FlatState {
    FlatState { result: raw_full(raw_entries(result)), problems: catalog_problem_views(problems) }
}

fn copy_strings(v: &Vec<String>) -> (r: Vec<String>)
    ensures
        str_views(r@) == str_views(v@),
{
    let mut r: Vec<String> = Vec::new();
    let mut i: usize = 0;
    while i < v.len()
        invariant
            i <= v@.len(),
            str_views(r@) == str_views(v@).subrange(0, i as int),
            r@.len() == i,
        decreases v.len() - i,
    {
        r.push(v[i].clone());
        assert(str_views(r@) =~= str_views(v@).subrange(0, i + 1));
        i = i + 1;
    }
    assert(str_views(v@).subrange(0, i as int) =~= str_views(v@));
    r
}

/// The key of a leaf at path `keys`.
fn make_key(keys: &Vec<String>, sep: &String) -> (r: String)
    requires
        keys@.len() > 0,
    ensures
        r@ == flat_key(str_views(keys@), sep@),
{
    if keys.len() == 1 {
        return keys[0].clone();
    }
    let mut r = keys[0].clone();
    let mut i: usize = 1;
    while i < keys.len()
        invariant
            1 <= i <= keys@.len(),
            r@ == joined_with(str_views(keys@).subrange(0, i as int), sep@),
        decreases keys.len() - i,
    {
        r.append(sep.as_str());
        r.append(keys[i].as_str());
        proof {
            let w = str_views(keys@);
            assert(w.subrange(0, i + 1).drop_last() =~= w.subrange(0, i as int));
            assert(w.subrange(0, i + 1).last() == keys@[i as int]@);
        }
        i = i + 1;
    }
    assert(str_views(keys@).subrange(0, i as int) =~= str_views(keys@));
    r
}

fn into_outer(
    node: &TreeNode,
    keys: &mut Vec<String>,
    sep: &String,
    result: &mut IndexMap<String, RawMessage>,
    problems: &mut Vec<CatalogProblem>,
)
    requires
        old(keys)@.len() > 0,
    ensures
        str_views(final(keys)@) == str_views(old(keys)@),
        flat_state(*final(result), final(problems)@)
            == flatten_node(*node, str_views(old(keys)@), sep@, flat_state(*old(result), old(problems)@)),
    decreases node,
{
    match node {
        TreeNode::LangMap(l) => {
            let key = make_key(keys, sep);
            let path = copy_strings(keys);
            let values = texts_clone(l);
            let ghost st = flat_state(*result, problems@);
            proof {
                assert(entry_keys(raw_full(raw_entries(*result))) =~= entry_keys(raw_entries(*result)));
            }
            let prev = raw_insert(result, key, RawMessage { path, values });
            if prev.is_some() {
                let k2 = make_key(keys, sep);
                let p2 = copy_strings(keys);
                problems.push(CatalogProblem::DuplicateFlattenedKey { key: k2, path: p2 });
            }
            proof {
                let want = add_leaf(st, str_views(keys@), sep@, texts_entries(*l));
                assert(catalog_problem_views(problems@) =~= want.problems);
                assert(raw_full(raw_entries(*result)) =~= want.result);
            }
        },
        TreeNode::Depth(d) => {
            let ghost start = flat_state(*result, problems@);
            let ghost kv = str_views(keys@);
            let mut i: usize = 0;
            while i < d.len()
                invariant
                    i <= d@.len(),
                    str_views(keys@) == kv,
                    kv.len() > 0,
                    *node == TreeNode::Depth(*d),
                    flat_state(*result, problems@) == flatten_children(d@, i as int, kv, sep@, start),
                decreases d.len() - i,
            {
                keys.push(d[i].0.clone());
                proof {
                    assert(str_views(keys@) =~= kv.push(d@[i as int].0@));
                    assert(decreases_to!(*node => d@[i as int].1)) by {
                        assert(decreases_to!(*node => node->Depth_0));
                        assert(decreases_to!(*d => d@));
                        assert(decreases_to!(d@ => d@[i as int]));
                        assert(decreases_to!(d@[i as int] => d@[i as int].1));
                    }
                }
                into_outer(&d[i].1, keys, sep, result, problems);
                let ghost before_pop = keys@;
                keys.pop();
                proof {
                    assert(before_pop.len() == kv.len() + 1);
                    assert forall|j: int| 0 <= j < kv.len() implies str_views(keys@)[j] == kv[j] by {
                        assert(keys@[j] == before_pop[j]);
                        assert(str_views(before_pop)[j] == before_pop[j]@);
                    }
                    assert(str_views(keys@) =~= kv);
                }
                i = i + 1;
            }
        },
    }
}

/// Flattens a decoded tree catalog: a `_version` other than 2 is reported
/// first, then the leaves are taken depth first, in order.
pub fn flatten_tree(input: &TreeInput, sep: &String) -> (r: (IndexMap<String, RawMessage>, Vec<CatalogProblem>))
    ensures
        flat_state(r.0, r.1@) == flatten_children(input.inner@, input.inner@.len() as int, Seq::empty(), sep@,
            FlatState {
                result: Seq::empty(),
                problems: if input.version == 2 { Seq::empty() } else { seq![CatalogProblemView::BadVersion] },
            }),
{
    let mut problems: Vec<CatalogProblem> = Vec::new();
    if input.version != 2 {
        problems.push(CatalogProblem::BadVersion);
    }
    let mut result = raw_new();
    let ghost start = flat_state(result, problems@);
    proof {
        assert(start.result =~= Seq::<(Seq<char>, (Seq<Seq<char>>, TextEntries))>::empty());
        assert(start.problems =~= if input.version == 2 { Seq::empty() } else { seq![CatalogProblemView::BadVersion] });
    }
    let d = &input.inner;
    let mut keys: Vec<String> = Vec::new();
    let mut i: usize = 0;
    while i < d.len()
        invariant
            i <= d@.len(),
            str_views(keys@) == Seq::<Seq<char>>::empty(),
            flat_state(result, problems@) == flatten_children(d@, i as int, Seq::empty(), sep@, start),
        decreases d.len() - i,
    {
        keys.push(d[i].0.clone());
        proof {
            assert(str_views(keys@) =~= Seq::<Seq<char>>::empty().push(d@[i as int].0@));
        }
        into_outer(&d[i].1, &mut keys, sep, &mut result, &mut problems);
        let ghost before_pop = keys@;
        keys.pop();
        assert(before_pop.len() == 1);
        proof {
            assert(str_views(keys@) =~= Seq::<Seq<char>>::empty());
        }
        i = i + 1;
    }
    (result, problems)
}

} // verus!
