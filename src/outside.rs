//! The outside crates' types that this library carries, and the calls into
//! them that it relies on, each with the contract it is trusted to meet.

use vstd::prelude::*;

verus! {

/// A source location of `proc_macro2`, carried through to the diagnostics.
#[verifier::external_type_specification]
#[verifier::external_body]
pub struct ExSpan(proc_macro2::Span);

/// Relies on `proc_macro2::Span::call_site`: a location, nothing more is known.
#[verifier::external_body]
pub fn call_site() -> proc_macro2::Span {
    proc_macro2::Span::call_site()
}

/// Relies on `<proc_macro2::Span as Debug>::fmt`: some text naming the
/// location; it differs inside and outside a macro expansion, so nothing
/// more is stated.
#[verifier::external_body]
pub fn span_label(span: proc_macro2::Span) -> String {
    format!("{span:?}")
}

/// An insertion-ordered map of `indexmap`.
#[verifier::external_type_specification]
#[verifier::external_body]
#[verifier::reject_recursive_types(K)]
#[verifier::reject_recursive_types(V)]
#[verifier::reject_recursive_types(S)]
pub struct ExIndexMap<K, V, S>(indexmap::IndexMap<K, V, S>);

/// The keys of map entries, in order.
pub open spec fn entry_keys<V>(e: Seq<(Seq<char>, V)>) -> Seq<Seq<char>> {
    e.map_values(|p: (Seq<char>, V)| p.0)
}

/// The entries after inserting `k` with `v`: an existing key keeps its place
/// and takes the new value, a new key goes last.
pub open spec fn inserted<V>(e: Seq<(Seq<char>, V)>, k: Seq<char>, v: V) -> Seq<(Seq<char>, V)> {
    if entry_keys(e).contains(k) {
        e.update(entry_keys(e).index_of(k), (k, v))
    } else {
        e.push((k, v))
    }
}

/// The entries of a map of catalog texts of one message, by language, in insertion order.
pub uninterp spec fn texts_entries(m: indexmap::IndexMap<String, String>) -> Seq<(Seq<char>, Seq<char>)>;

/// Relies on `IndexMap::new`: an empty map.
#[verifier::external_body]
pub fn texts_new() -> (r: indexmap::IndexMap<String, String>)
    ensures
        texts_entries(r).len() == 0,
{
    indexmap::IndexMap::new()
}

/// Relies on `IndexMap::len`: the number of entries.
#[verifier::external_body]
pub fn texts_len(m: &indexmap::IndexMap<String, String>) -> (r: usize)
    ensures
        r == texts_entries(*m).len(),
{
    m.len()
}

/// Relies on `IndexMap::get_index`: the entry at position `i`.
#[verifier::external_body]
pub fn texts_get_index(m: &indexmap::IndexMap<String, String>, i: usize) -> (r: Option<(&String, &String)>)
    ensures
        r is Some == (i < texts_entries(*m).len()),
        r is Some ==> (r->0).0@ == texts_entries(*m)[i as int].0 && (r->0).1@ == texts_entries(*m)[i as int].1,
{
    m.get_index(i)
}

/// Relies on `IndexMap::insert`: an existing key keeps its place and gets
/// the new value, which is returned in `Some`; a new key goes last.
#[verifier::external_body]
pub fn texts_insert(m: &mut indexmap::IndexMap<String, String>, k: String, v: String) -> (r: Option<String>)
    ensures
        texts_entries(*final(m)) == inserted(texts_entries(*old(m)), k@, v@),
        r is Some == entry_keys(texts_entries(*old(m))).contains(k@),
{
    m.insert(k, v)
}

/// The entries of a map of raw messages, by key, in insertion order.
pub uninterp spec fn raw_entries(m: indexmap::IndexMap<String, crate::messages::RawMessage>) -> Seq<(Seq<char>, crate::messages::RawMessage)>;

/// Relies on `IndexMap::new`: an empty map.
#[verifier::external_body]
pub fn raw_new() -> (r: indexmap::IndexMap<String, crate::messages::RawMessage>)
    ensures
        raw_entries(r).len() == 0,
{
    indexmap::IndexMap::new()
}

/// Relies on `IndexMap::len`: the number of entries.
#[verifier::external_body]
pub fn raw_len(m: &indexmap::IndexMap<String, crate::messages::RawMessage>) -> (r: usize)
    ensures
        r == raw_entries(*m).len(),
{
    m.len()
}

/// Relies on `IndexMap::get_index`: the entry at position `i`.
#[verifier::external_body]
pub fn raw_get_index(m: &indexmap::IndexMap<String, crate::messages::RawMessage>, i: usize) -> (r: Option<(&String, &crate::messages::RawMessage)>)
    ensures
        r is Some == (i < raw_entries(*m).len()),
        r is Some ==> (r->0).0@ == raw_entries(*m)[i as int].0 && *(r->0).1 == raw_entries(*m)[i as int].1,
{
    m.get_index(i)
}

/// Relies on `IndexMap::insert`: an existing key keeps its place and gets
/// the new value, which is returned in `Some`; a new key goes last.
#[verifier::external_body]
pub fn raw_insert(m: &mut indexmap::IndexMap<String, crate::messages::RawMessage>, k: String, v: crate::messages::RawMessage) -> (r: Option<crate::messages::RawMessage>)
    ensures
        raw_entries(*final(m)) == inserted(raw_entries(*old(m)), k@, v),
        r is Some == entry_keys(raw_entries(*old(m))).contains(k@),
{
    m.insert(k, v)
}

/// The entries of a map of message lines, by language, in insertion order.
pub uninterp spec fn lines_entries(m: indexmap::IndexMap<String, crate::messages::MessageLine>) -> Seq<(Seq<char>, crate::messages::MessageLine)>;

/// Relies on `IndexMap::new`: an empty map.
#[verifier::external_body]
pub fn lines_new() -> (r: indexmap::IndexMap<String, crate::messages::MessageLine>)
    ensures
        lines_entries(r).len() == 0,
{
    indexmap::IndexMap::new()
}

/// Relies on `IndexMap::len`: the number of entries.
#[verifier::external_body]
pub fn lines_len(m: &indexmap::IndexMap<String, crate::messages::MessageLine>) -> (r: usize)
    ensures
        r == lines_entries(*m).len(),
{
    m.len()
}

/// Relies on `IndexMap::get_index`: the entry at position `i`.
#[verifier::external_body]
pub fn lines_get_index(m: &indexmap::IndexMap<String, crate::messages::MessageLine>, i: usize) -> (r: Option<(&String, &crate::messages::MessageLine)>)
    ensures
        r is Some == (i < lines_entries(*m).len()),
        r is Some ==> (r->0).0@ == lines_entries(*m)[i as int].0 && *(r->0).1 == lines_entries(*m)[i as int].1,
{
    m.get_index(i)
}

/// Relies on `IndexMap::insert`: an existing key keeps its place and gets
/// the new value, which is returned in `Some`; a new key goes last.
#[verifier::external_body]
pub fn lines_insert(m: &mut indexmap::IndexMap<String, crate::messages::MessageLine>, k: String, v: crate::messages::MessageLine) -> (r: Option<crate::messages::MessageLine>)
    ensures
        lines_entries(*final(m)) == inserted(lines_entries(*old(m)), k@, v),
        r is Some == entry_keys(lines_entries(*old(m))).contains(k@),
{
    m.insert(k, v)
}

/// The entries of a map of compiled messages, by key, in insertion order.
pub uninterp spec fn messages_entries(m: indexmap::IndexMap<String, crate::messages::Message>) -> Seq<(Seq<char>, crate::messages::Message)>;

/// Relies on `IndexMap::new`: an empty map.
#[verifier::external_body]
pub fn messages_new() -> (r: indexmap::IndexMap<String, crate::messages::Message>)
    ensures
        messages_entries(r).len() == 0,
{
    indexmap::IndexMap::new()
}

/// Relies on `IndexMap::len`: the number of entries.
#[verifier::external_body]
pub fn messages_len(m: &indexmap::IndexMap<String, crate::messages::Message>) -> (r: usize)
    ensures
        r == messages_entries(*m).len(),
{
    m.len()
}

/// Relies on `IndexMap::get_index`: the entry at position `i`.
#[verifier::external_body]
pub fn messages_get_index(m: &indexmap::IndexMap<String, crate::messages::Message>, i: usize) -> (r: Option<(&String, &crate::messages::Message)>)
    ensures
        r is Some == (i < messages_entries(*m).len()),
        r is Some ==> (r->0).0@ == messages_entries(*m)[i as int].0 && *(r->0).1 == messages_entries(*m)[i as int].1,
{
    m.get_index(i)
}

/// Relies on `IndexMap::insert`: an existing key keeps its place and gets
/// the new value, which is returned in `Some`; a new key goes last.
#[verifier::external_body]
pub fn messages_insert(m: &mut indexmap::IndexMap<String, crate::messages::Message>, k: String, v: crate::messages::Message) -> (r: Option<crate::messages::Message>)
    ensures
        messages_entries(*final(m)) == inserted(messages_entries(*old(m)), k@, v),
        r is Some == entry_keys(messages_entries(*old(m))).contains(k@),
{
    m.insert(k, v)
}

/// Relies on `IndexMap::get`: the value stored under `k`, the only entry
/// with that key.
#[verifier::external_body]
pub fn lines_get<'a>(m: &'a indexmap::IndexMap<String, crate::messages::MessageLine>, k: &String) -> (r: Option<&'a crate::messages::MessageLine>)
    ensures
        r is Some == entry_keys(lines_entries(*m)).contains(k@),
        r is Some ==> forall|i: int| 0 <= i < lines_entries(*m).len() && (#[trigger] lines_entries(*m)[i]).0 == k@
            ==> lines_entries(*m)[i].1 == *(r->0),
{
    m.get(k)
}

/// The extension of a file name, as `std::path::Path::extension` finds it.
pub uninterp spec fn extension_of(name: Seq<char>) -> Option<Seq<char>>;

/// Relies on `Path::extension`: the part after the last `.` of the last
/// component, when there is one and the component does not start with it;
/// a function of the text alone.
#[verifier::external_body]
pub fn file_extension(name: &str) -> (r: Option<String>)
    ensures
        r matches Some(e) ==> extension_of(name@) == Some(e@),
        r is None ==> extension_of(name@) is None,
{
    match std::path::Path::new(name).extension() {
        Some(e) => Some(e.to_string_lossy().into_owned()),
        None => None,
    }
}

/// Relies on `Clone for IndexMap`: the same entries in the same order.
#[verifier::external_body]
pub fn texts_clone(m: &indexmap::IndexMap<String, String>) -> (r: indexmap::IndexMap<String, String>)
    ensures
        texts_entries(r) == texts_entries(*m),
{
    m.clone()
}

/// Relies on `IndexMap::contains_key`: whether `k` is a key.
#[verifier::external_body]
pub fn raw_contains(m: &indexmap::IndexMap<String, crate::messages::RawMessage>, k: &String) -> (r: bool)
    ensures
        r == entry_keys(raw_entries(*m)).contains(k@),
{
    m.contains_key(k)
}

} // verus!
