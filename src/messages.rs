//! The compiled catalog: messages, their lines per language, and the
//! problems found while building it.

use vstd::prelude::*;
use vstd::string::*;
use crate::outside::{entry_keys, inserted, messages_get_index, lines_entries, lines_get_index, lines_insert, lines_len, lines_new, messages_entries, messages_insert, messages_len, messages_new, raw_entries, raw_get_index, raw_len, texts_entries, texts_get_index, texts_len};
use crate::lrc::TextEntries;
use crate::tokenizer::{PieceView, TokenProblemView};
use crate::text::contains_str;
use crate::attribute::Parameters;
use crate::diagnostic::{labelled, lemma_labelled_push, Diagnostic, Simulated};
use crate::languages::Languages;
use crate::lrc::{lrc_parse, parse_lrc_text, raw_texts};
use crate::outside::{call_site, extension_of, file_extension, raw_new};
use crate::tree::{flatten_children, flatten_tree, raw_full, FlatState, TreeInput};
use proc_macro2::Span;
use crate::languages::{language_views, names_of};
use crate::text::{debug_str, debug_text, decimal, decimal_of, str_views};
use crate::tokenizer::{piece_views, tokenize, tokens, token_problem_views, token_problems, ParamType, Piece, TokenProblem};
use indexmap::IndexMap;

verus! {

/// The text of one language for one message, with its pieces.
pub struct MessageLine {
    line: String,
    pieces: Vec<Piece>,
}

impl MessageLine {
    #[verifier::type_invariant]
    spec fn inv(&self) -> bool {
        piece_views(self.pieces@) == tokens(self.line@)
    }

    /// The template text.
    pub closed spec fn text(&self) -> Seq<char> {
        self.line@
    }

    /// Tokenizes `line`; the problems are those of the tokenizer.
    pub fn build(line: String) -> (r: (MessageLine, Vec<TokenProblem>))
        ensures
            r.0.text() == line@,
            token_problem_views(r.1@) == token_problems(line@),
    {
        let (pieces, problems) = tokenize(line.as_str());
        (MessageLine { line, pieces }, problems)
    }

    /// The template text.
    pub fn line(&self) -> (r: &String)
        ensures
            r@ == self.text(),
    {
        &self.line
    }

    /// The pieces of the template.
    pub fn pieces(&self) -> (r: &Vec<Piece>)
        ensures
            piece_views(r@) == tokens(self.text()),
    {
        proof {
            use_type_invariant(self);
        }
        &self.pieces
    }
}

/// One message before validation: its path in a tree catalog and its text
/// per language name.
pub struct RawMessage {
    pub path: Vec<String>,
    pub values: IndexMap<String, String>,
}

/// One validated message.
pub struct Message {
    /// The path segments of the key in a tree catalog; empty for a line catalog.
    pub path: Vec<String>,
    /// Every parameter, first-seen order across languages.
    pub params: Vec<(String, ParamType)>,
    /// The line of each language that has one.
    pub message_lines: IndexMap<String, MessageLine>,
}

pub open spec fn param_views(v: Seq<(String, ParamType)>) -> Seq<(Seq<char>, ParamType)> {
    v.map_values(|p: (String, ParamType)| (p.0@, p.1))
}

impl Message {
    /// The path segments of the key.
    pub fn path(&self) -> (r: &Vec<String>)
        ensures
            r@ == self.path@,
    {
        &self.path
    }

    /// The languages and texts of the message, in catalog order.
    pub fn iter(&self) -> (r: Vec<(String, String)>)
        ensures
            r@.len() == lines_entries(self.message_lines).len(),
            forall|i: int| 0 <= i < r@.len() ==> (#[trigger] r@[i]).0@ == lines_entries(self.message_lines)[i].0
                && r@[i].1@ == lines_entries(self.message_lines)[i].1.text(),
    {
        let mut r: Vec<(String, String)> = Vec::new();
        let n = crate::outside::lines_len(&self.message_lines);
        let mut i: usize = 0;
        while i < n
            invariant
                i <= n == lines_entries(self.message_lines).len(),
                r@.len() == i,
                forall|j: int| 0 <= j < i ==> (#[trigger] r@[j]).0@ == lines_entries(self.message_lines)[j].0
                    && r@[j].1@ == lines_entries(self.message_lines)[j].1.text(),
            decreases n - i,
        {
            if let Some((k, v)) = crate::outside::lines_get_index(&self.message_lines, i) {
                r.push((k.clone(), v.line().clone()));
            }
            i = i + 1;
        }
        r
    }
}

/// A problem found while reading a catalog or validating its messages.
#[derive(Clone, Debug)]
pub enum CatalogProblem {
    /// Line format: the text after `#` on the given line is no identifier.
    InvalidKey { key: String, line: usize },
    /// Line format: a value line comes before any key.
    ValueWithoutKey { line: usize },
    /// Line format: a key block repeats an earlier key; the first one is kept.
    DuplicateKey { key: String, line: usize },
    /// Line format: a value line names an unknown language (a warning).
    UnknownLanguageAtLine { language: String, line: usize },
    /// Line format: a key block has two lines for one language.
    DuplicateLanguage { language: String, line: usize },
    /// Tree format: `_version` is present and not 2.
    BadVersion,
    /// Tree format: two paths join to the same key.
    DuplicateFlattenedKey { key: String, path: Vec<String> },
    /// The file name has an extension that names no format.
    UnsupportedExtension(String),
    /// The file name has no extension.
    NoExtension(String),
    /// The content could not be decoded; `yaml` tells the format.
    InvalidFormat { yaml: bool, detail: String },
    /// A message has a text for an unknown language (a warning).
    UnknownLanguage { language: String, key: String },
    /// A parameter name is no identifier.
    InvalidParameterName { name: String, key: String, language: String },
    /// A typed parameter occurs twice in one text.
    DuplicateTypedParameter { name: String, key: String, language: String },
    /// A malformed `%{`, `*{` or `}` in one text.
    TokenizeError { key: String, language: String },
    /// A parameter is used with both kinds; `language` is where the second kind appears.
    MismatchedParameterType { name: String, language: String },
    /// No usable text is left for a message; it is dropped.
    KeyHasNoValues(String),
    /// The catalog holds no message.
    NoMessagesFound,
}

pub enum CatalogProblemView {
    InvalidKey { key: Seq<char>, line: nat },
    ValueWithoutKey { line: nat },
    DuplicateKey { key: Seq<char>, line: nat },
    UnknownLanguageAtLine { language: Seq<char>, line: nat },
    DuplicateLanguage { language: Seq<char>, line: nat },
    BadVersion,
    DuplicateFlattenedKey { key: Seq<char>, path: Seq<Seq<char>> },
    UnsupportedExtension(Seq<char>),
    NoExtension(Seq<char>),
    InvalidFormat { yaml: bool, detail: Seq<char> },
    UnknownLanguage { language: Seq<char>, key: Seq<char> },
    InvalidParameterName { name: Seq<char>, key: Seq<char>, language: Seq<char> },
    DuplicateTypedParameter { name: Seq<char>, key: Seq<char>, language: Seq<char> },
    TokenizeError { key: Seq<char>, language: Seq<char> },
    MismatchedParameterType { name: Seq<char>, language: Seq<char> },
    KeyHasNoValues(Seq<char>),
    NoMessagesFound,
}

impl View for CatalogProblem {
    type V = CatalogProblemView;

    open spec fn view(&self) -> CatalogProblemView {
        match self {
            CatalogProblem::InvalidKey { key, line } => CatalogProblemView::InvalidKey { key: key@, line: *line as nat },
            CatalogProblem::ValueWithoutKey { line } => CatalogProblemView::ValueWithoutKey { line: *line as nat },
            CatalogProblem::DuplicateKey { key, line } => CatalogProblemView::DuplicateKey { key: key@, line: *line as nat },
            CatalogProblem::UnknownLanguageAtLine { language, line } => CatalogProblemView::UnknownLanguageAtLine { language: language@, line: *line as nat },
            CatalogProblem::DuplicateLanguage { language, line } => CatalogProblemView::DuplicateLanguage { language: language@, line: *line as nat },
            CatalogProblem::BadVersion => CatalogProblemView::BadVersion,
            CatalogProblem::DuplicateFlattenedKey { key, path } => CatalogProblemView::DuplicateFlattenedKey { key: key@, path: str_views(path@) },
            CatalogProblem::UnsupportedExtension(e) => CatalogProblemView::UnsupportedExtension(e@),
            CatalogProblem::NoExtension(f) => CatalogProblemView::NoExtension(f@),
            CatalogProblem::InvalidFormat { yaml, detail } => CatalogProblemView::InvalidFormat { yaml: *yaml, detail: detail@ },
            CatalogProblem::UnknownLanguage { language, key } => CatalogProblemView::UnknownLanguage { language: language@, key: key@ },
            CatalogProblem::InvalidParameterName { name, key, language } => CatalogProblemView::InvalidParameterName { name: name@, key: key@, language: language@ },
            CatalogProblem::DuplicateTypedParameter { name, key, language } => CatalogProblemView::DuplicateTypedParameter { name: name@, key: key@, language: language@ },
            CatalogProblem::TokenizeError { key, language } => CatalogProblemView::TokenizeError { key: key@, language: language@ },
            CatalogProblem::MismatchedParameterType { name, language } => CatalogProblemView::MismatchedParameterType { name: name@, language: language@ },
            CatalogProblem::KeyHasNoValues(k) => CatalogProblemView::KeyHasNoValues(k@),
            CatalogProblem::NoMessagesFound => CatalogProblemView::NoMessagesFound,
        }
    }
}

pub open spec fn catalog_problem_views(v: Seq<CatalogProblem>) -> Seq<CatalogProblemView> {
    v.map_values(|p: CatalogProblem| p@)
}

/// `Debug` text of a list of strings: `["a", "b"]`.
pub open spec fn debug_list_items(v: Seq<Seq<char>>) -> Seq<char>
    decreases v.len(),
{
    if v.len() == 0 {
        Seq::empty()
    } else if v.len() == 1 {
        debug_text(v[0])
    } else {
        debug_list_items(v.drop_last()) + ", "@ + debug_text(v.last())
    }
}

pub open spec fn debug_list(v: Seq<Seq<char>>) -> Seq<char> {
    "["@ + debug_list_items(v) + "]"@
}

fn debug_strings(v: &Vec<String>) -> (r: String)
    ensures
        r@ == debug_list(str_views(v@)),
{
    let mut items = String::new();
    let mut i: usize = 0;
    while i < v.len()
        invariant
            i <= v@.len(),
            items@ == debug_list_items(str_views(v@).subrange(0, i as int)),
        decreases v.len() - i,
    {
        if i > 0 {
            items.append(", ");
        }
        let d = debug_str(v[i].as_str());
        items.append(d.as_str());
        proof {
            let w = str_views(v@);
            assert(w.subrange(0, i + 1).drop_last() =~= w.subrange(0, i as int));
            assert(w.subrange(0, i + 1).last() == v@[i as int]@);
            if i == 0 {
                assert(items@ =~= debug_list_items(w.subrange(0, i + 1)));
            } else {
                assert(items@ =~= debug_list_items(w.subrange(0, i + 1)));
            }
        }
        i = i + 1;
    }
    assert(str_views(v@).subrange(0, i as int) =~= str_views(v@));
    let mut r = "[".to_owned();
    r.append(items.as_str());
    r.append("]");
    r
}

/// Whether a problem is only a warning.
pub open spec fn is_warning(p: CatalogProblemView) -> bool {
    p is UnknownLanguageAtLine || p is UnknownLanguage
}

/// The text reported for a problem.
pub open spec fn catalog_problem_text(p: CatalogProblemView) -> Seq<char> {
    match p {
        CatalogProblemView::InvalidKey { key, line } => "invalid key "@ + key + " at line "@ + decimal_of(line),
        CatalogProblemView::ValueWithoutKey { line } => "value without key at line "@ + decimal_of(line),
        CatalogProblemView::DuplicateKey { key, line } => "duplicate key "@ + key + " at line "@ + decimal_of(line),
        CatalogProblemView::UnknownLanguageAtLine { language, line } => "language "@ + language + " at line "@ + decimal_of(line) + " is not known"@,
        CatalogProblemView::DuplicateLanguage { language, line } => "duplicate language "@ + language + " at line "@ + decimal_of(line),
        CatalogProblemView::BadVersion => "_version is not 2"@,
        CatalogProblemView::DuplicateFlattenedKey { key, path } => "duplicate key \""@ + key + "\", created from "@ + debug_list(path),
        CatalogProblemView::UnsupportedExtension(e) => "Unsupported file extension "@ + debug_text(e),
        CatalogProblemView::NoExtension(f) => "No file extension on "@ + debug_text(f),
        CatalogProblemView::InvalidFormat { yaml, detail } => (if yaml { "Invalid YAML format, "@ } else { "Invalid JSON format, "@ }) + detail,
        CatalogProblemView::UnknownLanguage { language, key } => "language "@ + language + " key "@ + key + " is not known"@,
        CatalogProblemView::InvalidParameterName { name, key, language } => "invalid parameter name \""@ + name + "\" in "@ + key + "."@ + language,
        CatalogProblemView::DuplicateTypedParameter { name, key, language } => "duplicate use of a typed parameter: \""@ + name + "\" in key "@ + key + "."@ + language,
        CatalogProblemView::TokenizeError { key, language } => "parse error in "@ + key + "."@ + language,
        CatalogProblemView::MismatchedParameterType { name, language } => "mismatching types for parameter "@ + name + " in key "@ + language,
        CatalogProblemView::KeyHasNoValues(k) => "key "@ + k + " has no values"@,
        CatalogProblemView::NoMessagesFound => "no messages found"@,
    }
}

fn join(parts: &[&str]) -> (r: String)
    ensures
        r@ == joined(parts@),
{
    let mut r = String::new();
    let mut i: usize = 0;
    while i < parts.len()
        invariant
            i <= parts@.len(),
            r@ == joined(parts@.subrange(0, i as int)),
        decreases parts.len() - i,
    {
        r.append(parts[i]);
        assert(parts@.subrange(0, i + 1).drop_last() =~= parts@.subrange(0, i as int));
        i = i + 1;
    }
    assert(parts@.subrange(0, i as int) =~= parts@);
    r
}

/// The texts of `parts`, one after the other.
pub open spec fn joined(parts: Seq<&str>) -> Seq<char>
    decreases parts.len(),
{
    if parts.len() == 0 {
        Seq::empty()
    } else {
        joined(parts.drop_last()) + parts.last()@
    }
}

impl CatalogProblem {
    /// Whether this is only a warning.
    pub fn is_warning(&self) -> (r: bool)
        ensures
            r == is_warning(self@),
    {
        match self {
            CatalogProblem::UnknownLanguageAtLine { .. } => true,
            CatalogProblem::UnknownLanguage { .. } => true,
            _ => false,
        }
    }

    /// The text reported for this problem.
    pub fn message(&self) -> (r: String)
        ensures
            r@ == catalog_problem_text(self@),
    {
        let r = match self {
            CatalogProblem::InvalidKey { key, line } => {
                let n = decimal(*line);
                join(&["invalid key ", key.as_str(), " at line ", n.as_str()])
            },
            CatalogProblem::ValueWithoutKey { line } => {
                let n = decimal(*line);
                join(&["value without key at line ", n.as_str()])
            },
            CatalogProblem::DuplicateKey { key, line } => {
                let n = decimal(*line);
                join(&["duplicate key ", key.as_str(), " at line ", n.as_str()])
            },
            CatalogProblem::UnknownLanguageAtLine { language, line } => {
                let n = decimal(*line);
                join(&["language ", language.as_str(), " at line ", n.as_str(), " is not known"])
            },
            CatalogProblem::DuplicateLanguage { language, line } => {
                let n = decimal(*line);
                join(&["duplicate language ", language.as_str(), " at line ", n.as_str()])
            },
            CatalogProblem::BadVersion => join(&["_version is not 2"]),
            CatalogProblem::DuplicateFlattenedKey { key, path } => {
                let l = debug_strings(path);
                join(&["duplicate key \"", key.as_str(), "\", created from ", l.as_str()])
            },
            CatalogProblem::UnsupportedExtension(e) => {
                let d = debug_str(e.as_str());
                join(&["Unsupported file extension ", d.as_str()])
            },
            CatalogProblem::NoExtension(f) => {
                let d = debug_str(f.as_str());
                join(&["No file extension on ", d.as_str()])
            },
            CatalogProblem::InvalidFormat { yaml, detail } => {
                if *yaml {
                    join(&["Invalid YAML format, ", detail.as_str()])
                } else {
                    join(&["Invalid JSON format, ", detail.as_str()])
                }
            },
            CatalogProblem::UnknownLanguage { language, key } => join(&["language ", language.as_str(), " key ", key.as_str(), " is not known"]),
            CatalogProblem::InvalidParameterName { name, key, language } => join(&["invalid parameter name \"", name.as_str(), "\" in ", key.as_str(), ".", language.as_str()]),
            CatalogProblem::DuplicateTypedParameter { name, key, language } => join(&["duplicate use of a typed parameter: \"", name.as_str(), "\" in key ", key.as_str(), ".", language.as_str()]),
            CatalogProblem::TokenizeError { key, language } => join(&["parse error in ", key.as_str(), ".", language.as_str()]),
            CatalogProblem::MismatchedParameterType { name, language } => join(&["mismatching types for parameter ", name.as_str(), " in key ", language.as_str()]),
            CatalogProblem::KeyHasNoValues(k) => join(&["key ", k.as_str(), " has no values"]),
            CatalogProblem::NoMessagesFound => join(&["no messages found"]),
        };
        proof {
            reveal_with_fuel(joined, 7);
            assert(r@ =~= catalog_problem_text(self@));
        }
        r
    }
}

/// A tokenizer problem of the text of `language` for `key`, as a catalog problem.
pub open spec fn lift_token_problem(p: TokenProblemView, key: Seq<char>, language: Seq<char>) -> CatalogProblemView {
    match p {
        TokenProblemView::InvalidName(name) => CatalogProblemView::InvalidParameterName { name, key, language },
        TokenProblemView::DuplicateTyped(name) => CatalogProblemView::DuplicateTypedParameter { name, key, language },
        TokenProblemView::Malformed => CatalogProblemView::TokenizeError { key, language },
    }
}

/// The kind first recorded for parameter `name`, if any.
pub open spec fn kind_of(params: Seq<(Seq<char>, ParamType)>, name: Seq<char>) -> Option<ParamType>
    decreases params.len(),
{
    if params.len() == 0 {
        None
    } else if params[0].0 == name {
        Some(params[0].1)
    } else {
        kind_of(params.drop_first(), name)
    }
}

/// The parameters after the first `n` pieces of one language's text, and
/// the kind mismatches found there, in order.
pub open spec fn params_after(
    params: Seq<(Seq<char>, ParamType)>,
    pieces: Seq<PieceView>,
    n: int,
    language: Seq<char>,
) -> (Seq<(Seq<char>, ParamType)>, Seq<CatalogProblemView>)
    decreases n,
{
    if n <= 0 {
        (params, Seq::empty())
    } else {
        let (ps, probs) = params_after(params, pieces, n - 1, language);
        match pieces[n - 1] {
            PieceView::Text(_) => (ps, probs),
            PieceView::Param(name, kind) => match kind_of(ps, name) {
                Some(k) => if k != kind {
                    (ps, probs.push(CatalogProblemView::MismatchedParameterType { name, language }))
                } else {
                    (ps, probs)
                },
                None => (ps.push((name, kind)), probs),
            },
        }
    }
}

pub open spec fn param_names(params: Seq<(Seq<char>, ParamType)>) -> Seq<Seq<char>> {
    params.map_values(|p: (Seq<char>, ParamType)| p.0)
}

proof fn lemma_kind_of_none(params: Seq<(Seq<char>, ParamType)>, name: Seq<char>)
    ensures
        kind_of(params, name) is None <==> !param_names(params).contains(name),
    decreases params.len(),
{
    if params.len() > 0 {
        lemma_kind_of_none(params.drop_first(), name);
        assert(param_names(params.drop_first()) =~= param_names(params).drop_first());
        if param_names(params).contains(name) && params[0].0 != name {
            let k = choose|k: int| 0 <= k < param_names(params).len() && param_names(params)[k] == name;
            assert(param_names(params.drop_first())[k - 1] == name);
        }
        if param_names(params.drop_first()).contains(name) {
            let k = choose|k: int| 0 <= k < param_names(params.drop_first()).len() && param_names(params.drop_first())[k] == name;
            assert(param_names(params)[k + 1] == name);
        }
        if params[0].0 == name {
            assert(param_names(params)[0] == name);
        }
    }
}

/// A message's parameter list names each parameter once: a piece adds its
/// parameter only when the name is new.
pub proof fn lemma_params_named_once(
    params: Seq<(Seq<char>, ParamType)>,
    pieces: Seq<PieceView>,
    n: int,
    language: Seq<char>,
)
    requires
        param_names(params).no_duplicates(),
        0 <= n <= pieces.len(),
    ensures
        param_names(params_after(params, pieces, n, language).0).no_duplicates(),
    decreases n,
{
    if n > 0 {
        lemma_params_named_once(params, pieces, n - 1, language);
        let ps = params_after(params, pieces, n - 1, language).0;
        if let PieceView::Param(name, kind) = pieces[n - 1] {
            lemma_kind_of_none(ps, name);
            if kind_of(ps, name) is None {
                let next = ps.push((name, kind));
                assert(param_names(next) =~= param_names(ps).push(name));
                assert forall|a: int, b: int| 0 <= a < b < param_names(next).len() implies param_names(next)[a] != param_names(next)[b] by {
                    if b == ps.len() {
                        assert(param_names(ps)[a] == param_names(next)[a]);
                    }
                }
            }
        }
    }
}

/// What validating one message has produced so far: its lines (language,
/// text), its parameters, and the problems.
pub struct MessageState {
    pub lines: Seq<(Seq<char>, Seq<char>)>,
    pub params: Seq<(Seq<char>, ParamType)>,
    pub problems: Seq<CatalogProblemView>,
}

/// Validation of one text `(language, text)` of message `key`: an unknown
/// language is a warning and the text is left out; otherwise the tokenizer's
/// problems, then each parameter whose kind differs from the one recorded.
pub open spec fn validate_text(st: MessageState, key: Seq<char>, language: Seq<char>, text: Seq<char>, names: Seq<Seq<char>>) -> MessageState {
    if !names.contains(language) {
        MessageState { problems: st.problems.push(CatalogProblemView::UnknownLanguage { language, key }), ..st }
    } else {
        let pieces = tokens(text);
        let (ps, mismatches) = params_after(st.params, pieces, pieces.len() as int, language);
        MessageState {
            lines: inserted(st.lines, language, text),
            params: ps,
            problems: st.problems
                + token_problems(text).map_values(|p: TokenProblemView| lift_token_problem(p, key, language))
                + mismatches,
        }
    }
}

/// Validation of the first `n` texts of message `key`.
pub open spec fn validate_texts(key: Seq<char>, values: TextEntries, n: int, names: Seq<Seq<char>>) -> MessageState
    decreases n,
{
    if n <= 0 {
        MessageState { lines: Seq::empty(), params: Seq::empty(), problems: Seq::empty() }
    } else {
        validate_text(validate_texts(key, values, n - 1, names), key, values[n - 1].0, values[n - 1].1, names)
    }
}

/// The languages and texts of a map of lines.
pub open spec fn line_texts(e: Seq<(Seq<char>, MessageLine)>) -> Seq<(Seq<char>, Seq<char>)> {
    e.map_values(|p: (Seq<char>, MessageLine)| (p.0, p.1.text()))
}

fn lift_problems(
    problems: &mut Vec<CatalogProblem>,
    found: Vec<TokenProblem>,
    key: &String,
    language: &String,
)
    ensures
        catalog_problem_views(final(problems)@) == catalog_problem_views(old(problems)@)
            + token_problem_views(found@).map_values(|p: TokenProblemView| lift_token_problem(p, key@, language@)),
{
    let ghost start = catalog_problem_views(problems@);
    let ghost lifted = token_problem_views(found@).map_values(|p: TokenProblemView| lift_token_problem(p, key@, language@));
    let mut i: usize = 0;
    while i < found.len()
        invariant
            i <= found@.len(),
            lifted == token_problem_views(found@).map_values(|p: TokenProblemView| lift_token_problem(p, key@, language@)),
            lifted.len() == found@.len(),
            catalog_problem_views(problems@) == start + lifted.subrange(0, i as int),
        decreases found.len() - i,
    {
        let p = match &found[i] {
            TokenProblem::InvalidName(n) => CatalogProblem::InvalidParameterName { name: n.clone(), key: key.clone(), language: language.clone() },
            TokenProblem::DuplicateTyped(n) => CatalogProblem::DuplicateTypedParameter { name: n.clone(), key: key.clone(), language: language.clone() },
            TokenProblem::Malformed => CatalogProblem::TokenizeError { key: key.clone(), language: language.clone() },
        };
        assert(p@ == lift_token_problem(found@[i as int]@, key@, language@));
        assert(lifted[i as int] == p@);
        let ghost pv = p@;
        let ghost before = problems@;
        problems.push(p);
        assert(problems@ == before.push(p));
        assert(catalog_problem_views(problems@) =~= catalog_problem_views(before).push(pv));
        assert(lifted.subrange(0, i + 1) =~= lifted.subrange(0, i as int).push(pv));
        assert(catalog_problem_views(problems@) =~= start + lifted.subrange(0, i + 1));
        i = i + 1;
    }
    assert(lifted.subrange(0, i as int) =~= lifted);
}

fn find_kind(params: &Vec<(String, ParamType)>, name: &String) -> (r: Option<ParamType>)
    ensures
        r == kind_of(param_views(params@), name@),
{
    let mut i: usize = 0;
    assert(param_views(params@).subrange(0, params@.len() as int) =~= param_views(params@));
    while i < params.len()
        invariant
            i <= params@.len(),
            kind_of(param_views(params@), name@) == kind_of(param_views(params@).subrange(i as int, params@.len() as int), name@),
        decreases params.len() - i,
    {
        let ghost rest = param_views(params@).subrange(i as int, params@.len() as int);
        assert(rest.drop_first() =~= param_views(params@).subrange(i + 1, params@.len() as int));
        if params[i].0 == *name {
            return Some(params[i].1);
        }
        i = i + 1;
    }
    None
}

fn check_params(
    params: &mut Vec<(String, ParamType)>,
    problems: &mut Vec<CatalogProblem>,
    pieces: &Vec<Piece>,
    language: &String,
)
    ensures
        (param_views(final(params)@), catalog_problem_views(final(problems)@).subrange(old(problems)@.len() as int, final(problems)@.len() as int))
            == params_after(param_views(old(params)@), piece_views(pieces@), pieces@.len() as int, language@),
        catalog_problem_views(final(problems)@).subrange(0, old(problems)@.len() as int) == catalog_problem_views(old(problems)@),
        final(problems)@.len() >= old(problems)@.len(),
{
    let ghost p0 = param_views(params@);
    let ghost start = catalog_problem_views(problems@);
    let ghost pv = piece_views(pieces@);
    let mut i: usize = 0;
    while i < pieces.len()
        invariant
            i <= pieces@.len(),
            pv == piece_views(pieces@),
            start.len() <= problems@.len(),
            catalog_problem_views(problems@).subrange(0, start.len() as int) == start,
            (param_views(params@), catalog_problem_views(problems@).subrange(start.len() as int, problems@.len() as int))
                == params_after(p0, pv, i as int, language@),
        decreases pieces.len() - i,
    {
        let ghost before = catalog_problem_views(problems@);
        match &pieces[i] {
            Piece::Text(_) => {},
            Piece::Param(name, kind) => {
                match find_kind(params, name) {
                    Some(k) => {
                        if k != *kind {
                            problems.push(CatalogProblem::MismatchedParameterType { name: name.clone(), language: language.clone() });
                        }
                    },
                    None => {
                        params.push((name.clone(), *kind));
                    },
                }
            },
        }
        proof {
            let (ps, probs) = params_after(p0, pv, i as int, language@);
            assert(catalog_problem_views(problems@).subrange(0, start.len() as int) =~= start);
            assert(param_views(params@) =~= params_after(p0, pv, i + 1, language@).0);
            assert(catalog_problem_views(problems@).subrange(start.len() as int, problems@.len() as int)
                =~= params_after(p0, pv, i + 1, language@).1);
        }
        i = i + 1;
    }
}

/// Validates message `key`: `None` when no text is left, with
/// `KeyHasNoValues` as the last problem; else the message with its path, its
/// parameters and its lines, as [`validate_texts`] states.
pub fn parse_message(key: &String, raw: &RawMessage, names: &Vec<String>) -> (r: (Option<Message>, Vec<CatalogProblem>))
    ensures
        ({
            let st = validate_texts(key@, texts_entries(raw.values), texts_entries(raw.values).len() as int, str_views(names@));
            &&& r.0 is None <==> st.lines.len() == 0
            &&& r.0 matches Some(m) ==> str_views(m.path@) == str_views(raw.path@) && param_views(m.params@) == st.params
                && line_texts(lines_entries(m.message_lines)) == st.lines
            &&& catalog_problem_views(r.1@) == if st.lines.len() == 0 {
                st.problems.push(CatalogProblemView::KeyHasNoValues(key@))
            } else {
                st.problems
            }
        }),
{
    let ghost vals = texts_entries(raw.values);
    let ghost nv = str_views(names@);
    let mut lines = lines_new();
    let mut params: Vec<(String, ParamType)> = Vec::new();
    let mut problems: Vec<CatalogProblem> = Vec::new();
    let n = texts_len(&raw.values);
    let mut i: usize = 0;
    proof {
        assert(line_texts(lines_entries(lines)) =~= Seq::<(Seq<char>, Seq<char>)>::empty());
        assert(param_views(params@) =~= Seq::<(Seq<char>, ParamType)>::empty());
        assert(catalog_problem_views(problems@) =~= Seq::<CatalogProblemView>::empty());
    }
    while i < n
        invariant
            i <= n == vals.len(),
            vals == texts_entries(raw.values),
            nv == str_views(names@),
            ({
                let st = validate_texts(key@, vals, i as int, nv);
                &&& line_texts(lines_entries(lines)) == st.lines
                &&& param_views(params@) == st.params
                &&& catalog_problem_views(problems@) == st.problems
            }),
        decreases n - i,
    {
        let ghost st = validate_texts(key@, vals, i as int, nv);
        if let Some((lang, text)) = texts_get_index(&raw.values, i) {
            if !contains_str(names, lang) {
                problems.push(CatalogProblem::UnknownLanguage { language: lang.clone(), key: key.clone() });
                assert(catalog_problem_views(problems@) =~= validate_texts(key@, vals, i + 1, nv).problems);
            } else {
                let (line, found) = MessageLine::build(text.clone());
                lift_problems(&mut problems, found, key, lang);
                let ghost p_lifted = catalog_problem_views(problems@);
                let ghost params_before = param_views(params@);
                check_params(&mut params, &mut problems, line.pieces(), lang);
                proof {
                    let pieces = tokens(text@);
                    let (ps, mm) = params_after(params_before, pieces, pieces.len() as int, lang@);
                    let a = catalog_problem_views(problems@);
                    assert(a =~= a.subrange(0, p_lifted.len() as int) + a.subrange(p_lifted.len() as int, a.len() as int));
                    assert(catalog_problem_views(problems@) =~= p_lifted + mm);
                }
                let ghost lines_before = lines_entries(lines);
                let _ = lines_insert(&mut lines, lang.clone(), line);
                proof {
                    assert(entry_keys(line_texts(lines_before)) =~= entry_keys(lines_before));
                    assert(line_texts(lines_entries(lines)) =~= inserted(line_texts(lines_before), lang@, text@));
                }
            }
        }
        i = i + 1;
    }
    if lines_len(&lines) == 0 {
        problems.push(CatalogProblem::KeyHasNoValues(key.clone()));
        return (None, problems);
    }
    let mut path: Vec<String> = Vec::new();
    let mut j: usize = 0;
    while j < raw.path.len()
        invariant
            j <= raw.path@.len(),
            str_views(path@) == str_views(raw.path@).subrange(0, j as int),
            path@.len() == j,
        decreases raw.path.len() - j,
    {
        path.push(raw.path[j].clone());
        assert(str_views(path@) =~= str_views(raw.path@).subrange(0, j + 1));
        j = j + 1;
    }
    assert(str_views(raw.path@).subrange(0, j as int) =~= str_views(raw.path@));
    (Some(Message { path, params, message_lines: lines }), problems)
}

/// A validated message as values: path, parameters, and (language, text) lines.
pub type MessageSpec = (Seq<Seq<char>>, Seq<(Seq<char>, ParamType)>, Seq<(Seq<char>, Seq<char>)>);

/// Raw messages as values: key, path and texts.
pub type RawSpec = Seq<(Seq<char>, (Seq<Seq<char>>, TextEntries))>;

/// The validated messages and the problems after some raw messages.
pub struct CatalogState {
    pub messages: Seq<(Seq<char>, MessageSpec)>,
    pub problems: Seq<CatalogProblemView>,
}

/// Validation of the first `n` raw messages: each message's problems in turn,
/// and each message that keeps a text.
pub open spec fn validate_upto(raw: RawSpec, n: int, names: Seq<Seq<char>>) -> CatalogState
    decreases n,
{
    if n <= 0 {
        CatalogState { messages: Seq::empty(), problems: Seq::empty() }
    } else {
        let prev = validate_upto(raw, n - 1, names);
        let (key, (path, values)) = raw[n - 1];
        let st = validate_texts(key, values, values.len() as int, names);
        if st.lines.len() == 0 {
            CatalogState { problems: prev.problems + st.problems.push(CatalogProblemView::KeyHasNoValues(key)), ..prev }
        } else {
            CatalogState {
                messages: inserted(prev.messages, key, (path, st.params, st.lines)),
                problems: prev.problems + st.problems,
            }
        }
    }
}

/// Validation of a whole catalog; an empty result is a problem of its own.
pub open spec fn validate_catalog(raw: RawSpec, names: Seq<Seq<char>>) -> CatalogState {
    let st = validate_upto(raw, raw.len() as int, names);
    if st.messages.len() == 0 {
        CatalogState { problems: st.problems.push(CatalogProblemView::NoMessagesFound), ..st }
    } else {
        st
    }
}

pub open spec fn message_views(e: Seq<(Seq<char>, Message)>) -> Seq<(Seq<char>, MessageSpec)> {
    e.map_values(|p: (Seq<char>, Message)| (p.0, (str_views(p.1.path@), param_views(p.1.params@), line_texts(lines_entries(p.1.message_lines)))))
}

/// The compiled catalog, in catalog order.
pub struct Messages {
    pub inner: IndexMap<String, Message>,
}

/// The format of a catalog file, named by its extension.
#[derive(Clone, Copy, Debug, PartialEq, Eq, Structural)]
pub enum CatalogFormat {
    /// `lrc`: the line format.
    Lrc,
    /// `yaml`: a tree.
    Yaml,
    /// `json`: a tree.
    Json,
}

/// The format for a file with extension `ext`, or the problem.
pub open spec fn format_for(ext: Option<Seq<char>>, filename: Seq<char>) -> Result<CatalogFormat, CatalogProblemView> {
    match ext {
        Some(e) => if e == "lrc"@ {
            Ok(CatalogFormat::Lrc)
        } else if e == "yaml"@ {
            Ok(CatalogFormat::Yaml)
        } else if e == "json"@ {
            Ok(CatalogFormat::Json)
        } else {
            Err(CatalogProblemView::UnsupportedExtension(e))
        },
        None => Err(CatalogProblemView::NoExtension(filename)),
    }
}

impl CatalogFormat {
    /// The format named by the extension of `filename`.
    pub fn of_filename(filename: &str) -> (r: Result<CatalogFormat, CatalogProblem>)
        ensures
            match r {
                Ok(f) => format_for(extension_of(filename@), filename@) == Ok::<CatalogFormat, CatalogProblemView>(f),
                Err(p) => format_for(extension_of(filename@), filename@) == Err::<CatalogFormat, CatalogProblemView>(p@),
            },
    {
        match file_extension(filename) {
            Some(e) => {
                let lrc = "lrc".to_owned();
                let yaml = "yaml".to_owned();
                let json = "json".to_owned();
                if e == lrc {
                    Ok(CatalogFormat::Lrc)
                } else if e == yaml {
                    Ok(CatalogFormat::Yaml)
                } else if e == json {
                    Ok(CatalogFormat::Json)
                } else {
                    Err(CatalogProblem::UnsupportedExtension(e))
                }
            },
            None => Err(CatalogProblem::NoExtension(filename.to_owned())),
        }
    }
}

/// The raw messages and problems read from a catalog of format `format`
/// holding `content`; `decoded` is what decoding a tree format gave.
pub open spec fn raw_outcome(
    format: Result<CatalogFormat, CatalogProblemView>,
    content: Seq<char>,
    sep: Seq<char>,
    names: Seq<Seq<char>>,
    decoded: Result<TreeInput, String>,
) -> (RawSpec, Seq<CatalogProblemView>) {
    match format {
        Err(p) => (Seq::empty(), seq![p]),
        Ok(CatalogFormat::Lrc) => {
            let st = lrc_parse(content, names);
            (st.result.map_values(|e: (Seq<char>, TextEntries)| (e.0, (Seq::<Seq<char>>::empty(), e.1))), st.problems)
        },
        Ok(f) => match decoded {
            Err(detail) => (Seq::empty(), seq![CatalogProblemView::InvalidFormat { yaml: f == CatalogFormat::Yaml, detail: detail@ }]),
            Ok(t) => {
                let st = flatten_children(t.inner@, t.inner@.len() as int, Seq::empty(), sep,
                    FlatState {
                        result: Seq::empty(),
                        problems: if t.version == 2 { Seq::empty() } else { seq![CatalogProblemView::BadVersion] },
                    });
                (st.result, st.problems)
            },
        },
    }
}

/// The names of the languages, in order.
pub fn language_names(languages: &Languages) -> (r: Vec<String>)
    ensures
        str_views(r@) == names_of(language_views(languages.0@)),
{
    let ls = languages.as_vec();
    let mut r: Vec<String> = Vec::new();
    let mut i: usize = 0;
    while i < ls.len()
        invariant
            i <= ls@.len(),
            ls@ == languages.0@,
            str_views(r@) == names_of(language_views(ls@)).subrange(0, i as int),
            r@.len() == i,
        decreases ls.len() - i,
    {
        r.push(ls[i].name.clone());
        assert(language_views(ls@)[i as int] == ls@[i as int]@);
        assert(str_views(r@) =~= names_of(language_views(ls@)).subrange(0, i + 1));
        i = i + 1;
    }
    assert(names_of(language_views(ls@)).subrange(0, i as int) =~= names_of(language_views(ls@)));
    r
}

/// Reads the raw messages of a catalog: detects the format from the file
/// name, parses the line format, or flattens the tree that `decode` gives
/// (it is told whether the format is YAML and returns the tree or the
/// decoder's message).
pub fn read_raw<F: Fn(bool, &str) -> Result<TreeInput, String>>(
    filename: &str,
    separator: &String,
    names: &Vec<String>,
    content: &str,
    decode: F,
) -> (r: (IndexMap<String, RawMessage>, Vec<CatalogProblem>))
    requires
        forall|yaml: bool, c: &str| #[trigger] decode.requires((yaml, c)),
    ensures
        exists|d: Result<TreeInput, String>|
            (format_for(extension_of(filename@), filename@) is Ok
                && format_for(extension_of(filename@), filename@)->Ok_0 != CatalogFormat::Lrc
                ==> decode.ensures((format_for(extension_of(filename@), filename@)->Ok_0 == CatalogFormat::Yaml, content), d))
            && raw_full(raw_entries(r.0)) == (#[trigger] raw_outcome(format_for(extension_of(filename@), filename@), content@, separator@, str_views(names@), d)).0
            && catalog_problem_views(r.1@) == raw_outcome(format_for(extension_of(filename@), filename@), content@, separator@, str_views(names@), d).1,
{
    let ghost format = format_for(extension_of(filename@), filename@);
    match CatalogFormat::of_filename(filename) {
        Err(p) => {
            let raw = raw_new();
            let mut problems: Vec<CatalogProblem> = Vec::new();
            problems.push(p);
            proof {
                let d: Result<TreeInput, String> = vstd::pervasive::arbitrary();
                assert(raw_full(raw_entries(raw)) =~= raw_outcome(format, content@, separator@, str_views(names@), d).0);
                assert(catalog_problem_views(problems@) =~= raw_outcome(format, content@, separator@, str_views(names@), d).1);
            }
            (raw, problems)
        },
        Ok(CatalogFormat::Lrc) => {
            let (raw, problems) = parse_lrc_text(content, names);
            proof {
                let d: Result<TreeInput, String> = vstd::pervasive::arbitrary();
                assert(raw_full(raw_entries(raw)) =~= raw_outcome(format, content@, separator@, str_views(names@), d).0) by {
                    assert(raw_texts(raw_entries(raw)) == lrc_parse(content@, str_views(names@)).result);
                    assert forall|i: int| 0 <= i < raw_entries(raw).len() implies
                        #[trigger] raw_full(raw_entries(raw))[i] == raw_outcome(format, content@, separator@, str_views(names@), d).0[i] by {
                        assert(raw_texts(raw_entries(raw))[i] == lrc_parse(content@, str_views(names@)).result[i]);
                        assert(str_views(raw_entries(raw)[i].1.path@) =~= Seq::<Seq<char>>::empty());
                    }
                }
            }
            (raw, problems)
        },
        Ok(f) => {
            let yaml = match f {
                CatalogFormat::Yaml => true,
                _ => false,
            };
            let d = decode(yaml, content);
            match d {
                Ok(t) => {
                    let (raw, problems) = flatten_tree(&t, separator);
                    proof {
                        let dd: Result<TreeInput, String> = Ok(t);
                        assert(raw_full(raw_entries(raw)) == raw_outcome(format, content@, separator@, str_views(names@), dd).0);
                    }
                    (raw, problems)
                },
                Err(e) => {
                    let raw = raw_new();
                    let ghost dd: Result<TreeInput, String> = Err(e);
                    let mut problems: Vec<CatalogProblem> = Vec::new();
                    problems.push(CatalogProblem::InvalidFormat { yaml, detail: e });
                    proof {
                        assert(raw_full(raw_entries(raw)) =~= raw_outcome(format, content@, separator@, str_views(names@), dd).0);
                        assert(catalog_problem_views(problems@) =~= raw_outcome(format, content@, separator@, str_views(names@), dd).1);
                    }
                    (raw, problems)
                },
            }
        },
    }
}

/// Reports each problem at `span`: warnings as warnings, the rest as errors.
fn emit_all<D: Diagnostic>(diagnostic: &mut D, span: Span, problems: &Vec<CatalogProblem>) {
    let mut i: usize = 0;
    while i < problems.len()
        decreases problems.len() - i,
    {
        if problems[i].is_warning() {
            diagnostic.emit_warning(span, problems[i].message());
        } else {
            diagnostic.emit_error(span, problems[i].message());
        }
        i = i + 1;
    }
}

/// The texts of the warnings among `ps`, in order.
pub open spec fn warning_texts(ps: Seq<CatalogProblemView>) -> Seq<Seq<char>>
    decreases ps.len(),
{
    if ps.len() == 0 {
        Seq::empty()
    } else if is_warning(ps.last()) {
        warning_texts(ps.drop_last()).push(catalog_problem_text(ps.last()))
    } else {
        warning_texts(ps.drop_last())
    }
}

/// The texts of the errors among `ps`, in order.
pub open spec fn error_texts(ps: Seq<CatalogProblemView>) -> Seq<Seq<char>>
    decreases ps.len(),
{
    if ps.len() == 0 {
        Seq::empty()
    } else if is_warning(ps.last()) {
        error_texts(ps.drop_last())
    } else {
        error_texts(ps.drop_last()).push(catalog_problem_text(ps.last()))
    }
}

pub open spec fn has_error(ps: Seq<CatalogProblemView>) -> bool {
    exists|i: int| 0 <= i < ps.len() && !is_warning(#[trigger] ps[i])
}

/// What reading and validating report: the reading problems, then the
/// validation problems unless reading found an error (a checkpoint stops there).
pub open spec fn reported(read: Seq<CatalogProblemView>, validated: Seq<CatalogProblemView>) -> Seq<CatalogProblemView> {
    if has_error(read) { read } else { read + validated }
}

/// The outcome of `run_parse` for the raw outcome `out`.
pub open spec fn run_outcome(r: Result<Messages, Simulated>, out: (RawSpec, Seq<CatalogProblemView>), names: Seq<Seq<char>>) -> bool {
    let v = validate_catalog(out.0, names);
    &&& (r is Ok <==> out.1.len() == 0 && v.problems.len() == 0)
    &&& (r matches Ok(m) ==> m.view_entries() == v.messages)
    &&& (r matches Err(s) ==> labelled(s.warnings_view(), warning_texts(reported(out.1, v.problems)))
        && labelled(s.errors_view(), error_texts(reported(out.1, v.problems))))
}

fn any_error(ps: &Vec<CatalogProblem>) -> (r: bool)
    ensures
        r == has_error(catalog_problem_views(ps@)),
{
    let mut i: usize = 0;
    while i < ps.len()
        invariant
            i <= ps@.len(),
            forall|j: int| 0 <= j < i ==> is_warning(#[trigger] catalog_problem_views(ps@)[j]),
        decreases ps.len() - i,
    {
        if !ps[i].is_warning() {
            assert(!is_warning(catalog_problem_views(ps@)[i as int]));
            return true;
        }
        i = i + 1;
    }
    false
}

/// Records each of `ps` in turn, as a warning or an error; `before` are the
/// problems recorded already.
fn record_problems(recorder: &mut Simulated, ps: &Vec<CatalogProblem>, Ghost(before): Ghost<Seq<CatalogProblemView>>)
    requires
        !old(recorder).is_aborted(),
        labelled(old(recorder).warnings_view(), warning_texts(before)),
        labelled(old(recorder).errors_view(), error_texts(before)),
    ensures
        !final(recorder).is_aborted(),
        labelled(final(recorder).warnings_view(), warning_texts(before + catalog_problem_views(ps@))),
        labelled(final(recorder).errors_view(), error_texts(before + catalog_problem_views(ps@))),
{
    let ghost pv = catalog_problem_views(ps@);
    let mut i: usize = 0;
    assert(before + pv.subrange(0, 0) =~= before);
    while i < ps.len()
        invariant
            i <= ps@.len(),
            pv == catalog_problem_views(ps@),
            !recorder.is_aborted(),
            labelled(recorder.warnings_view(), warning_texts(before + pv.subrange(0, i as int))),
            labelled(recorder.errors_view(), error_texts(before + pv.subrange(0, i as int))),
        decreases ps.len() - i,
    {
        let ghost all = before + pv.subrange(0, i + 1);
        assert(all.drop_last() =~= before + pv.subrange(0, i as int));
        assert(all.last() == pv[i as int]);
        let message = ps[i].message();
        if ps[i].is_warning() {
            let ghost w = recorder.warnings_view();
            recorder.record_warning(call_site(), message);
            proof {
                lemma_labelled_push(w, warning_texts(before + pv.subrange(0, i as int)), recorder.warnings_view(), message@);
            }
        } else {
            let ghost e = recorder.errors_view();
            recorder.record_error(call_site(), message);
            proof {
                lemma_labelled_push(e, error_texts(before + pv.subrange(0, i as int)), recorder.errors_view(), message@);
            }
        }
        i = i + 1;
    }
    assert(pv.subrange(0, i as int) =~= pv);
}

impl Messages {
    /// Reads and validates a catalog and reports every problem, with a
    /// checkpoint after reading and after finding no message. `decode` turns
    /// the content of a tree format into a tree (see [`read_raw`]).
    pub fn parse<D: Diagnostic, F: Fn(bool, &str) -> Result<TreeInput, String>>(
        diagnostic: &mut D,
        span: Span,
        parameters: &Parameters,
        languages: &Languages,
        content: &str,
        decode: F,
    ) -> (r: Messages)
        requires
            forall|yaml: bool, c: &str| #[trigger] decode.requires((yaml, c)),
        ensures
            exists|d: Result<TreeInput, String>|
                (format_for(extension_of(parameters.filename@), parameters.filename@) is Ok
                    && format_for(extension_of(parameters.filename@), parameters.filename@)->Ok_0 != CatalogFormat::Lrc
                    ==> decode.ensures((format_for(extension_of(parameters.filename@), parameters.filename@)->Ok_0 == CatalogFormat::Yaml, content), d))
                && r.view_entries() == validate_catalog((#[trigger] raw_outcome(format_for(extension_of(parameters.filename@), parameters.filename@),
                    content@, parameters.separator@, names_of(language_views(languages.0@)), d)).0, names_of(language_views(languages.0@))).messages,
    {
        let names = language_names(languages);
        let (raw, problems) = read_raw(parameters.filename.as_str(), &parameters.separator, &names, content, decode);
        emit_all(diagnostic, span, &problems);
        diagnostic.should_abort_if_dirty();
        let (messages, problems) = Messages::parse_values(&raw, &names);
        emit_all(diagnostic, span, &problems);
        if messages_len(&messages.inner) == 0 {
            diagnostic.should_abort_if_dirty();
        }
        messages
    }

    /// Reads and validates a catalog: `Ok` when no problem at all was found,
    /// else a recorder holding, as `parse` reports them, the warnings and the
    /// errors (the problems of reading, then, unless reading found an error,
    /// those of validating).
    pub fn run_parse<F: Fn(bool, &str) -> Result<TreeInput, String>>(
        parameters: &Parameters,
        languages: &Languages,
        content: &str,
        decode: F,
    ) -> (r: Result<Messages, Simulated>)
        requires
            forall|yaml: bool, c: &str| #[trigger] decode.requires((yaml, c)),
        ensures
            exists|d: Result<TreeInput, String>| {
                &&& (format_for(extension_of(parameters.filename@), parameters.filename@) is Ok
                    && format_for(extension_of(parameters.filename@), parameters.filename@)->Ok_0 != CatalogFormat::Lrc
                    ==> decode.ensures((format_for(extension_of(parameters.filename@), parameters.filename@)->Ok_0 == CatalogFormat::Yaml, content), d))
                &&& run_outcome(r, #[trigger] raw_outcome(format_for(extension_of(parameters.filename@), parameters.filename@),
                    content@, parameters.separator@, names_of(language_views(languages.0@)), d), names_of(language_views(languages.0@)))
            },
    {
        let names = language_names(languages);
        let ghost nv = str_views(names@);
        let (raw, problems) = read_raw(parameters.filename.as_str(), &parameters.separator, &names, content, decode);
        let ghost format = format_for(extension_of(parameters.filename@), parameters.filename@);
        let ghost d = choose|d: Result<TreeInput, String>|
            (format is Ok && format->Ok_0 != CatalogFormat::Lrc ==> decode.ensures((format->Ok_0 == CatalogFormat::Yaml, content), d))
            && raw_full(raw_entries(raw)) == (#[trigger] raw_outcome(format, content@, parameters.separator@, nv, d)).0
            && catalog_problem_views(problems@) == raw_outcome(format, content@, parameters.separator@, nv, d).1;
        let (messages, found) = Messages::parse_values(&raw, &names);
        let ghost pv = catalog_problem_views(problems@);
        let ghost fv = catalog_problem_views(found@);
        if problems.len() == 0 && found.len() == 0 {
            let r: Result<Messages, Simulated> = Ok(messages);
            assert(run_outcome(r, raw_outcome(format, content@, parameters.separator@, nv, d), nv));
            return r;
        }
        let mut recorder = Simulated::new();
        proof {
            assert(recorder.warnings_view() =~= warning_texts(Seq::empty()));
            assert(recorder.errors_view() =~= error_texts(Seq::empty()));
        }
        record_problems(&mut recorder, &problems, Ghost(Seq::empty()));
        assert(Seq::<CatalogProblemView>::empty() + pv =~= pv);
        if !any_error(&problems) {
            record_problems(&mut recorder, &found, Ghost(pv));
        }
        let r: Result<Messages, Simulated> = Err(recorder);
        assert(run_outcome(r, raw_outcome(format, content@, parameters.separator@, nv, d), nv));
        r
    }

    /// The keys and messages, in catalog order.
    pub fn iter(&self) -> (r: Vec<(&String, &Message)>)
        ensures
            r@.len() == messages_entries(self.inner).len(),
            forall|i: int| 0 <= i < r@.len() ==> (#[trigger] r@[i]).0@ == messages_entries(self.inner)[i].0
                && *r@[i].1 == messages_entries(self.inner)[i].1,
    {
        let n = messages_len(&self.inner);
        let mut r: Vec<(&String, &Message)> = Vec::new();
        let mut i: usize = 0;
        while i < n
            invariant
                i <= n == messages_entries(self.inner).len(),
                r@.len() == i,
                forall|j: int| 0 <= j < i ==> (#[trigger] r@[j]).0@ == messages_entries(self.inner)[j].0
                    && *r@[j].1 == messages_entries(self.inner)[j].1,
            decreases n - i,
        {
            match messages_get_index(&self.inner, i) {
                Some(e) => r.push(e),
                None => {},
            }
            i = i + 1;
        }
        r
    }

    pub open spec fn view_entries(&self) -> Seq<(Seq<char>, MessageSpec)> {
        message_views(messages_entries(self.inner))
    }

    /// Validates the raw messages for the languages named `names`.
    pub fn parse_values(raw: &IndexMap<String, RawMessage>, names: &Vec<String>) -> (r: (Messages, Vec<CatalogProblem>))
        ensures
            r.0.view_entries() == validate_catalog(raw_full(raw_entries(*raw)), str_views(names@)).messages,
            catalog_problem_views(r.1@) == validate_catalog(raw_full(raw_entries(*raw)), str_views(names@)).problems,
    {
        let ghost rv = raw_full(raw_entries(*raw));
        let ghost nv = str_views(names@);
        let mut inner = messages_new();
        let mut problems: Vec<CatalogProblem> = Vec::new();
        proof {
            assert(message_views(messages_entries(inner)) =~= Seq::<(Seq<char>, MessageSpec)>::empty());
            assert(catalog_problem_views(problems@) =~= Seq::<CatalogProblemView>::empty());
        }
        let n = raw_len(raw);
        let mut i: usize = 0;
        while i < n
            invariant
                i <= n == rv.len(),
                rv == raw_full(raw_entries(*raw)),
                nv == str_views(names@),
                message_views(messages_entries(inner)) == validate_upto(rv, i as int, nv).messages,
                catalog_problem_views(problems@) == validate_upto(rv, i as int, nv).problems,
            decreases n - i,
        {
            if let Some((key, rm)) = raw_get_index(raw, i) {
                let (m, found) = parse_message(key, rm, names);
                let ghost p0 = catalog_problem_views(problems@);
                let ghost fv = catalog_problem_views(found@);
                let mut found = found;
                problems.append(&mut found);
                assert(catalog_problem_views(problems@) =~= p0 + fv);
                match m {
                    Some(m) => {
                        let ghost before = messages_entries(inner);
                        let _ = messages_insert(&mut inner, key.clone(), m);
                        proof {
                            assert(entry_keys(message_views(before)) =~= entry_keys(before));
                            assert(message_views(messages_entries(inner)) =~= validate_upto(rv, i + 1, nv).messages);
                        }
                    },
                    None => {},
                }
            }
            i = i + 1;
        }
        if messages_len(&inner) == 0 {
            problems.push(CatalogProblem::NoMessagesFound);
            assert(catalog_problem_views(problems@) =~= validate_catalog(rv, nv).problems);
        }
        (Messages { inner }, problems)
    }
}

} // verus!
