//! The line catalog format.
//!
//! Blank lines and lines starting with `;` or `/` are comments; `#key` starts
//! a message; each following line is `<language> <text>`.

use vstd::prelude::*;
use vstd::string::*;
use crate::messages::{catalog_problem_views, CatalogProblem, CatalogProblemView, RawMessage};
use crate::outside::{entry_keys, inserted, raw_contains, raw_entries, raw_insert, raw_new, texts_entries, texts_insert, texts_new};
use crate::text::{char_views, chars_of, contains_str, find_char, identifier_ok, is_identifier, split_lines, str_views, string_of, text_lines, trim_chars, trimmed};
use indexmap::IndexMap;

verus! {

/// The texts of one message, by language, in order.
pub type TextEntries = Seq<(Seq<char>, Seq<char>)>;

/// State of the line parser after some lines.
pub struct LrcState {
    /// The open message: its key and the line of its `#`.
    pub current: Option<(Seq<char>, nat)>,
    /// The texts of the open message.
    pub values: TextEntries,
    /// The messages closed so far.
    pub result: Seq<(Seq<char>, TextEntries)>,
    pub problems: Seq<CatalogProblemView>,
}

pub open spec fn lrc_init() -> LrcState {
    LrcState { current: None, values: Seq::empty(), result: Seq::empty(), problems: Seq::empty() }
}

/// Closes the open message: a key seen before is reported and dropped, the
/// first message with a key is kept.
pub open spec fn lrc_flush(st: LrcState) -> LrcState {
    match st.current {
        None => LrcState { values: Seq::empty(), ..st },
        Some((cm, kp)) => if entry_keys(st.result).contains(cm) {
            LrcState {
                current: None,
                values: Seq::empty(),
                problems: st.problems.push(CatalogProblemView::DuplicateKey { key: cm, line: kp }),
                ..st
            }
        } else {
            LrcState { current: None, values: Seq::empty(), result: st.result.push((cm, st.values)), ..st }
        },
    }
}

/// The first position of `c` in `s`; meaningful when `s` contains it.
pub open spec fn first_index(s: Seq<char>, c: char) -> int {
    choose|p: int| 0 <= p < s.len() && s[p] == c && forall|j: int| 0 <= j < p ==> s[j] != c
}

/// A value line split at its first space into language and text.
pub open spec fn value_parts(t: Seq<char>) -> (Seq<char>, Seq<char>) {
    if t.contains(' ') {
        let p = first_index(t, ' ');
        (trimmed(t.subrange(0, p)), trimmed(t.subrange(p + 1, t.len() as int)))
    } else {
        (trimmed(t), Seq::empty())
    }
}

/// The parser after line `pos`, whose text is `raw`.
pub open spec fn lrc_line(st: LrcState, pos: nat, raw: Seq<char>, names: Seq<Seq<char>>) -> LrcState {
    let t = trimmed(raw);
    if t.len() == 0 || t[0] == ';' || t[0] == '/' {
        st
    } else if t[0] == '#' {
        let f = lrc_flush(st);
        let key = trimmed(t.drop_first());
        LrcState {
            current: Some((key, pos)),
            problems: if is_identifier(key) {
                f.problems
            } else {
                f.problems.push(CatalogProblemView::InvalidKey { key, line: pos })
            },
            ..f
        }
    } else if st.current is None {
        LrcState { problems: st.problems.push(CatalogProblemView::ValueWithoutKey { line: pos }), ..st }
    } else {
        let (a, b) = value_parts(t);
        if !names.contains(a) {
            LrcState { problems: st.problems.push(CatalogProblemView::UnknownLanguageAtLine { language: a, line: pos }), ..st }
        } else if entry_keys(st.values).contains(a) {
            LrcState {
                values: inserted(st.values, a, b),
                problems: st.problems.push(CatalogProblemView::DuplicateLanguage { language: a, line: pos }),
                ..st
            }
        } else {
            LrcState { values: inserted(st.values, a, b), ..st }
        }
    }
}

/// The parser after the first `n` lines.
pub open spec fn lrc_upto(lines: Seq<Seq<char>>, n: int, names: Seq<Seq<char>>) -> LrcState
    decreases n,
{
    if n <= 0 {
        lrc_init()
    } else {
        lrc_line(lrc_upto(lines, n - 1, names), (n - 1) as nat, lines[n - 1], names)
    }
}

/// The messages and problems of a line catalog, for languages named `names`.
pub open spec fn lrc_parse(content: Seq<char>, names: Seq<Seq<char>>) -> LrcState {
    let lines = text_lines(content);
    lrc_flush(lrc_upto(lines, lines.len() as int, names))
}

/// Closing a block whose key was closed before reports `DuplicateKey` with
/// the line of this block's `#` and keeps the earlier block; a new key is
/// added last with its texts, and nothing is reported.
pub proof fn lemma_duplicate_key_keeps_first(st: LrcState, key: Seq<char>, line: nat)
    requires
        st.current == Some((key, line)),
    ensures
        entry_keys(st.result).contains(key) ==> lrc_flush(st).result == st.result
            && lrc_flush(st).problems == st.problems.push(CatalogProblemView::DuplicateKey { key, line }),
        !entry_keys(st.result).contains(key) ==> lrc_flush(st).result == st.result.push((key, st.values))
            && lrc_flush(st).problems == st.problems,
{
}

proof fn lemma_flush_keeps_keys_unique(st: LrcState)
    requires
        entry_keys(st.result).no_duplicates(),
    ensures
        entry_keys(lrc_flush(st).result).no_duplicates(),
{
    if let Some((cm, kp)) = st.current {
        if !entry_keys(st.result).contains(cm) {
            let r = lrc_flush(st).result;
            assert(entry_keys(r) =~= entry_keys(st.result).push(cm));
            assert forall|a: int, b: int| 0 <= a < b < entry_keys(r).len() implies entry_keys(r)[a] != entry_keys(r)[b] by {
                if b == st.result.len() {
                    assert(entry_keys(st.result)[a] == entry_keys(r)[a]);
                }
            }
        }
    }
}

proof fn lemma_lrc_upto_keys_unique(lines: Seq<Seq<char>>, n: int, names: Seq<Seq<char>>)
    ensures
        entry_keys(lrc_upto(lines, n, names).result).no_duplicates(),
    decreases n,
{
    if n > 0 {
        lemma_lrc_upto_keys_unique(lines, n - 1, names);
        lemma_flush_keeps_keys_unique(lrc_upto(lines, n - 1, names));
    } else {
        assert(entry_keys(lrc_init().result) =~= Seq::<Seq<char>>::empty());
    }
}

/// A line catalog never yields two messages with one key.
pub proof fn lemma_lrc_keys_unique(content: Seq<char>, names: Seq<Seq<char>>)
    ensures
        entry_keys(lrc_parse(content, names).result).no_duplicates(),
{
    let lines = text_lines(content);
    lemma_lrc_upto_keys_unique(lines, lines.len() as int, names);
    lemma_flush_keeps_keys_unique(lrc_upto(lines, lines.len() as int, names));
}

/// The raw messages of a map, as keys and text entries.
pub open spec fn raw_texts(e: Seq<(Seq<char>, RawMessage)>) -> Seq<(Seq<char>, TextEntries)> {
    e.map_values(|p: (Seq<char>, RawMessage)| (p.0, texts_entries(p.1.values)))
}

pub open spec fn state_matches(
    st: LrcState,
    current: Option<(String, usize)>,
    values: IndexMap<String, String>,
    result: IndexMap<String, RawMessage>,
    problems: Seq<CatalogProblem>,
) -> bool {
    &&& st.current == match current { Some((k, p)) => Some((k@, p as nat)), None => None::<(Seq<char>, nat)> }
    &&& st.values == texts_entries(values)
    &&& st.result == raw_texts(raw_entries(result))
    &&& forall|i: int| 0 <= i < raw_entries(result).len() ==> (#[trigger] raw_entries(result)[i]).1.path@.len() == 0
    &&& st.problems == catalog_problem_views(problems)
}

fn flush(
    current: Option<(String, usize)>,
    values: IndexMap<String, String>,
    result: &mut IndexMap<String, RawMessage>,
    problems: &mut Vec<CatalogProblem>,
    Ghost(st): Ghost<LrcState>,
)
    requires
        state_matches(st, current, values, *old(result), old(problems)@),
    ensures
        lrc_flush(st).result == raw_texts(raw_entries(*final(result))),
        forall|i: int| 0 <= i < raw_entries(*final(result)).len() ==> (#[trigger] raw_entries(*final(result))[i]).1.path@.len() == 0,
        lrc_flush(st).problems == catalog_problem_views(final(problems)@),
{
    match current {
        None => {},
        Some((cm, kp)) => {
            proof {
                assert(entry_keys(raw_texts(raw_entries(*result))) =~= entry_keys(raw_entries(*result)));
            }
            if raw_contains(result, &cm) {
                problems.push(CatalogProblem::DuplicateKey { key: cm, line: kp });
                assert(catalog_problem_views(problems@) =~= lrc_flush(st).problems);
            } else {
                let ghost old_entries = raw_entries(*result);
                let _ = raw_insert(result, cm, RawMessage { path: Vec::new(), values });
                assert(raw_texts(raw_entries(*result)) =~= lrc_flush(st).result);
                assert forall|i: int| 0 <= i < raw_entries(*result).len() implies (#[trigger] raw_entries(*result)[i]).1.path@.len() == 0 by {
                    if i < old_entries.len() {
                        assert(raw_entries(*result)[i] == old_entries[i]);
                    }
                }
            }
        },
    }
}

/// Parses a line catalog for the languages named `names`: the messages in
/// order, each with an empty path, and the problems, as [`lrc_parse`] states.
pub fn parse_lrc_text(content: &str, names: &Vec<String>) -> (r: (IndexMap<String, RawMessage>, Vec<CatalogProblem>))
    ensures
        raw_texts(raw_entries(r.0)) == lrc_parse(content@, str_views(names@)).result,
        forall|i: int| 0 <= i < raw_entries(r.0).len() ==> (#[trigger] raw_entries(r.0)[i]).1.path@.len() == 0,
        catalog_problem_views(r.1@) == lrc_parse(content@, str_views(names@)).problems,
{
    let cs = chars_of(content);
    let lines = split_lines(&cs);
    let ghost lv = char_views(lines@);
    let ghost nv = str_views(names@);
    let mut current: Option<(String, usize)> = None;
    let mut values = texts_new();
    let mut result = raw_new();
    let mut problems: Vec<CatalogProblem> = Vec::new();
    proof {
        assert(raw_texts(raw_entries(result)) =~= Seq::<(Seq<char>, TextEntries)>::empty());
        assert(texts_entries(values) =~= Seq::<(Seq<char>, Seq<char>)>::empty());
        assert(catalog_problem_views(problems@) =~= Seq::<CatalogProblemView>::empty());
    }
    let mut pos: usize = 0;
    while pos < lines.len()
        invariant
            pos <= lines@.len(),
            lv == char_views(lines@),
            lv == text_lines(content@),
            nv == str_views(names@),
            state_matches(lrc_upto(lv, pos as int, nv), current, values, result, problems@),
        decreases lines.len() - pos,
    {
        let ghost st = lrc_upto(lv, pos as int, nv);
        let ghost raw = lv[pos as int];
        let t = trim_chars(&lines[pos], 0, lines[pos].len());
        proof {
            assert(lines@[pos as int]@.subrange(0, lines@[pos as int]@.len() as int) =~= raw);
        }
        if t.len() == 0 || t[0] == ';' || t[0] == '/' {
        } else if t[0] == '#' {
            let cur = current;
            current = None;
            let old_values = values;
            values = texts_new();
            flush(cur, old_values, &mut result, &mut problems, Ghost(st));
            let key_chars = trim_chars(&t, 1, t.len());
            assert(t@.subrange(1, t@.len() as int) =~= t@.drop_first());
            let key = string_of(&key_chars);
            if !identifier_ok(key.as_str()) {
                problems.push(CatalogProblem::InvalidKey { key: key.clone(), line: pos });
            }
            current = Some((key, pos));
            proof {
                assert(texts_entries(values) =~= Seq::<(Seq<char>, Seq<char>)>::empty());
                assert(catalog_problem_views(problems@) =~= lrc_line(st, pos as nat, raw, nv).problems);
            }
        } else if current.is_none() {
            problems.push(CatalogProblem::ValueWithoutKey { line: pos });
            assert(catalog_problem_views(problems@) =~= lrc_line(st, pos as nat, raw, nv).problems);
        } else {
            let (ac, bc) = match find_char(&t, ' ') {
                Some(p) => {
                    proof {
                        let q = first_index(t@, ' ');
                        assert(0 <= p < t@.len() && t@[p as int] == ' ' && forall|j: int| 0 <= j < p ==> t@[j] != ' ');
                        if q < p {
                            assert(t@[q] != ' ');
                        }
                        if q > p {
                            assert(t@[p as int] != ' ');
                        }
                    }
                    (trim_chars(&t, 0, p), trim_chars(&t, p + 1, t.len()))
                },
                None => {
                    assert(t@.subrange(0, t@.len() as int) =~= t@);
                    (trim_chars(&t, 0, t.len()), Vec::new())
                },
            };
            let a = string_of(&ac);
            let b = string_of(&bc);
            proof {
                assert(value_parts(t@) == (a@, b@));
            }
            if !contains_str(names, &a) {
                problems.push(CatalogProblem::UnknownLanguageAtLine { language: a, line: pos });
                assert(catalog_problem_views(problems@) =~= lrc_line(st, pos as nat, raw, nv).problems);
            } else {
                let prev = texts_insert(&mut values, a.clone(), b);
                if prev.is_some() {
                    problems.push(CatalogProblem::DuplicateLanguage { language: a, line: pos });
                    assert(catalog_problem_views(problems@) =~= lrc_line(st, pos as nat, raw, nv).problems);
                }
            }
        }
        pos = pos + 1;
    }
    let ghost st = lrc_upto(lv, pos as int, nv);
    flush(current, values, &mut result, &mut problems, Ghost(st));
    (result, problems)
}

} // verus!
