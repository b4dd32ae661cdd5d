//! Resolution of the declared languages: names, defaults and fallback chains.

use vstd::prelude::*;
use proc_macro2::Span;
use vstd::string::*;
use crate::diagnostic::{labelled, lemma_labelled_push, Diagnostic};
use crate::outside::call_site;
use crate::text::{contains_str, pascal_case, pascal_case_of, snake_case, snake_case_of, split_name_list, split_names, str_views};

verus! {

/// One language, as declared and, once resolved, with its full fallback chain.
pub struct Language {
    /// Identifier of the enum variant.
    pub ident: String,
    /// Where the variant was declared.
    pub span: Span,
    /// Name of the language in the catalog.
    pub name: String,
    /// Declared fallback names; after resolution the whole chain, itself first.
    pub fallback: Vec<String>,
    /// Whether this is the default language.
    pub default: bool,
}

pub struct LanguageView {
    pub ident: Seq<char>,
    pub name: Seq<char>,
    pub fallback: Seq<Seq<char>>,
    pub default: bool,
}

impl View for Language {
    type V = LanguageView;

    open spec fn view(&self) -> LanguageView {
        LanguageView {
            ident: self.ident@,
            name: self.name@,
            fallback: str_views(self.fallback@),
            default: self.default,
        }
    }
}

pub open spec fn language_views(v: Seq<Language>) -> Seq<LanguageView> {
    v.map_values(|l: Language| l@)
}

/// The names of the languages, in declaration order.
pub open spec fn names_of(ls: Seq<LanguageView>) -> Seq<Seq<char>> {
    ls.map_values(|l: LanguageView| l.name)
}

/// `chain` extended by each of `cands`, in order, that `known` holds and that
/// is not in it yet.
pub open spec fn append_new(chain: Seq<Seq<char>>, cands: Seq<Seq<char>>, known: Seq<Seq<char>>) -> Seq<Seq<char>>
    decreases cands.len(),
{
    if cands.len() == 0 {
        chain
    } else {
        let prev = append_new(chain, cands.drop_last(), known);
        let c = cands.last();
        if known.contains(c) && !prev.contains(c) {
            prev.push(c)
        } else {
            prev
        }
    }
}

/// The fallback chain of a language: itself, its known declared fallbacks in
/// order, then every other language in declaration order.
pub open spec fn fallback_chain(name: Seq<char>, declared: Seq<Seq<char>>, names: Seq<Seq<char>>) -> Seq<Seq<char>> {
    append_new(append_new(seq![name], declared, names), names, names)
}

/// How many languages are declared default.
pub open spec fn default_count(ls: Seq<LanguageView>) -> nat
    decreases ls.len(),
{
    if ls.len() == 0 {
        0
    } else {
        default_count(ls.drop_last()) + if ls.last().default { 1nat } else { 0nat }
    }
}

/// Whether language `i` is default after resolution: the first one when none
/// is declared default.
pub open spec fn resolved_default(ls: Seq<LanguageView>, i: int) -> bool {
    if default_count(ls) == 0 {
        i == 0
    } else {
        ls[i].default
    }
}

/// The resolved form of language `i`.
pub open spec fn resolved(ls: Seq<LanguageView>, i: int) -> LanguageView {
    LanguageView {
        ident: ls[i].ident,
        name: ls[i].name,
        fallback: fallback_chain(ls[i].name, ls[i].fallback, names_of(ls)),
        default: resolved_default(ls, i),
    }
}

/// A problem found among the declared languages.
#[derive(Clone, Debug)]
pub enum LanguageProblem {
    /// Nothing was declared.
    NoLanguages,
    /// More than one language is declared default.
    MultipleDefaults,
    /// Language `i` has the name of an earlier one.
    Duplicate(usize),
    /// Language `i` lists itself as a fallback.
    SelfFallback(usize),
    /// Language `i` lists a fallback that no language has as its name.
    UnknownFallback(usize, String),
}

pub enum LanguageProblemView {
    NoLanguages,
    MultipleDefaults,
    Duplicate(int),
    SelfFallback(int),
    UnknownFallback(int, Seq<char>),
}

impl View for LanguageProblem {
    type V = LanguageProblemView;

    open spec fn view(&self) -> LanguageProblemView {
        match self {
            LanguageProblem::NoLanguages => LanguageProblemView::NoLanguages,
            LanguageProblem::MultipleDefaults => LanguageProblemView::MultipleDefaults,
            LanguageProblem::Duplicate(i) => LanguageProblemView::Duplicate(*i as int),
            LanguageProblem::SelfFallback(i) => LanguageProblemView::SelfFallback(*i as int),
            LanguageProblem::UnknownFallback(i, n) => LanguageProblemView::UnknownFallback(*i as int, n@),
        }
    }
}

pub open spec fn language_problem_views(v: Seq<LanguageProblem>) -> Seq<LanguageProblemView> {
    v.map_values(|p: LanguageProblem| p@)
}

/// The declared fallbacks of a language that are neither its own name nor
/// the name of any language.
pub open spec fn unknown_fallbacks(i: int, declared: Seq<Seq<char>>, own: Seq<char>, names: Seq<Seq<char>>) -> Seq<LanguageProblemView>
    decreases declared.len(),
{
    if declared.len() == 0 {
        Seq::empty()
    } else {
        let prev = unknown_fallbacks(i, declared.drop_last(), own, names);
        let f = declared.last();
        if f != own && !names.contains(f) {
            prev.push(LanguageProblemView::UnknownFallback(i, f))
        } else {
            prev
        }
    }
}

/// The problems of language `i`: a repeated name, itself as a fallback, and
/// each unknown fallback.
pub open spec fn problems_of(ls: Seq<LanguageView>, i: int) -> Seq<LanguageProblemView> {
    let names = names_of(ls);
    let dup: Seq<LanguageProblemView> = if names.subrange(0, i).contains(ls[i].name) {
        seq![LanguageProblemView::Duplicate(i)]
    } else {
        Seq::empty()
    };
    let own: Seq<LanguageProblemView> = if ls[i].fallback.contains(ls[i].name) {
        seq![LanguageProblemView::SelfFallback(i)]
    } else {
        Seq::empty()
    };
    dup + own + unknown_fallbacks(i, ls[i].fallback, ls[i].name, names)
}

/// The problems of the first `n` languages, in order.
pub open spec fn problems_upto(ls: Seq<LanguageView>, n: int) -> Seq<LanguageProblemView>
    decreases n,
{
    if n <= 0 {
        Seq::empty()
    } else {
        problems_upto(ls, n - 1) + problems_of(ls, n - 1)
    }
}

/// All problems of a declaration list, in the order they are reported.
pub open spec fn language_problems(ls: Seq<LanguageView>) -> Seq<LanguageProblemView> {
    let none: Seq<LanguageProblemView> = if ls.len() == 0 {
        seq![LanguageProblemView::NoLanguages]
    } else {
        Seq::empty()
    };
    let multi: Seq<LanguageProblemView> = if default_count(ls) > 1 {
        seq![LanguageProblemView::MultipleDefaults]
    } else {
        Seq::empty()
    };
    none + multi + problems_upto(ls, ls.len() as int)
}

/// The text reported for a problem.
pub open spec fn language_problem_text(p: LanguageProblemView) -> Seq<char> {
    match p {
        LanguageProblemView::NoLanguages => "no languages found"@,
        LanguageProblemView::MultipleDefaults => "found more than one default language"@,
        LanguageProblemView::Duplicate(_) => "language defined twice"@,
        LanguageProblemView::SelfFallback(_) => "fallback of itself"@,
        LanguageProblemView::UnknownFallback(_, n) => "unknown fallback: "@ + n,
    }
}

impl LanguageProblem {
    /// The text reported for this problem.
    pub fn message(&self) -> (r: String)
        ensures
            r@ == language_problem_text(self@),
    {
        match self {
            LanguageProblem::NoLanguages => "no languages found".to_owned(),
            LanguageProblem::MultipleDefaults => "found more than one default language".to_owned(),
            LanguageProblem::Duplicate(_) => "language defined twice".to_owned(),
            LanguageProblem::SelfFallback(_) => "fallback of itself".to_owned(),
            LanguageProblem::UnknownFallback(_, n) => {
                let mut r = "unknown fallback: ".to_owned();
                r.append(n.as_str());
                r
            },
        }
    }

    /// The language a problem is about, if it is about one.
    pub fn language(&self) -> (r: Option<usize>)
        ensures
            r == match self {
                LanguageProblem::Duplicate(i) => Some(*i),
                LanguageProblem::SelfFallback(i) => Some(*i),
                LanguageProblem::UnknownFallback(i, _) => Some(*i),
                _ => None::<usize>,
            },
    {
        match self {
            LanguageProblem::Duplicate(i) => Some(*i),
            LanguageProblem::SelfFallback(i) => Some(*i),
            LanguageProblem::UnknownFallback(i, _) => Some(*i),
            _ => None,
        }
    }
}

/// Appends to `chain` each of `cands` that `known` holds and `chain` lacks.
fn extend_new(chain: &mut Vec<String>, cands: &Vec<String>, known: &Vec<String>)
    ensures
        str_views(final(chain)@) == append_new(str_views(old(chain)@), str_views(cands@), str_views(known@)),
{
    let ghost start = str_views(chain@);
    let mut i: usize = 0;
    while i < cands.len()
        invariant
            i <= cands.len(),
            str_views(chain@) == append_new(start, str_views(cands@).subrange(0, i as int), str_views(known@)),
        decreases cands.len() - i,
    {
        if contains_str(known, &cands[i]) && !contains_str(chain, &cands[i]) {
            chain.push(cands[i].clone());
        }
        proof {
            let c = str_views(cands@);
            assert(c.subrange(0, i + 1).drop_last() =~= c.subrange(0, i as int));
            assert(str_views(chain@) =~= append_new(start, c.subrange(0, i + 1), str_views(known@)));
        }
        i = i + 1;
    }
    assert(str_views(cands@).subrange(0, i as int) =~= str_views(cands@));
}

/// Appends the declared fallbacks of language `i` that are unknown, as problems.
fn push_unknown(problems: &mut Vec<LanguageProblem>, i: usize, declared: &Vec<String>, own: &String, names: &Vec<String>)
    ensures
        language_problem_views(final(problems)@) == language_problem_views(old(problems)@)
            + unknown_fallbacks(i as int, str_views(declared@), own@, str_views(names@)),
{
    let ghost start = language_problem_views(problems@);
    let mut j: usize = 0;
    while j < declared.len()
        invariant
            j <= declared.len(),
            language_problem_views(problems@) == start + unknown_fallbacks(i as int, str_views(declared@).subrange(0, j as int), own@, str_views(names@)),
        decreases declared.len() - j,
    {
        let ghost before = language_problem_views(problems@);
        let unknown = !(declared[j] == *own) && !contains_str(names, &declared[j]);
        if unknown {
            let f = declared[j].clone();
            problems.push(LanguageProblem::UnknownFallback(i, f));
            assert(language_problem_views(problems@) =~= before.push(LanguageProblemView::UnknownFallback(i as int, declared@[j as int]@)));
        }
        proof {
            let d = str_views(declared@);
            assert(d[j as int] == declared@[j as int]@);
            assert(d.subrange(0, j + 1).last() == d[j as int]);
            assert(d.subrange(0, j + 1).drop_last() =~= d.subrange(0, j as int));
            assert(language_problem_views(problems@) =~= start + unknown_fallbacks(i as int, d.subrange(0, j + 1), own@, str_views(names@)));
        }
        j = j + 1;
    }
    assert(str_views(declared@).subrange(0, j as int) =~= str_views(declared@));
}

/// What `append_new` keeps and adds: `chain` stays a prefix, no name is
/// repeated when `chain` repeats none, and a name is in the result exactly
/// when it is in `chain` or is a candidate that `known` holds.
pub proof fn lemma_append_new(chain: Seq<Seq<char>>, cands: Seq<Seq<char>>, known: Seq<Seq<char>>)
    ensures
        append_new(chain, cands, known).len() >= chain.len(),
        append_new(chain, cands, known).subrange(0, chain.len() as int) == chain,
        chain.no_duplicates() ==> append_new(chain, cands, known).no_duplicates(),
        forall|x: Seq<char>| #[trigger] append_new(chain, cands, known).contains(x)
            <==> (chain.contains(x) || (cands.contains(x) && known.contains(x))),
    decreases cands.len(),
{
    if cands.len() > 0 {
        let prev = append_new(chain, cands.drop_last(), known);
        lemma_append_new(chain, cands.drop_last(), known);
        let c = cands.last();
        assert forall|x: Seq<char>| cands.contains(x) <==> (cands.drop_last().contains(x) || x == c) by {
            if cands.contains(x) {
                let k = choose|k: int| 0 <= k < cands.len() && cands[k] == x;
                if k < cands.len() - 1 {
                    assert(cands.drop_last()[k] == x);
                }
            }
            if cands.drop_last().contains(x) {
                let k = choose|k: int| 0 <= k < cands.drop_last().len() && cands.drop_last()[k] == x;
                assert(cands[k] == x);
            }
            if x == c {
                assert(cands[cands.len() - 1] == x);
            }
        }
        if known.contains(c) && !prev.contains(c) {
            let next = prev.push(c);
            assert(next.subrange(0, chain.len() as int) =~= prev.subrange(0, chain.len() as int));
            assert forall|x: Seq<char>| next.contains(x) <==> (prev.contains(x) || x == c) by {
                if next.contains(x) {
                    let k = choose|k: int| 0 <= k < next.len() && next[k] == x;
                    if k < prev.len() {
                        assert(prev[k] == x);
                    }
                }
                if prev.contains(x) {
                    let k = choose|k: int| 0 <= k < prev.len() && prev[k] == x;
                    assert(next[k] == x);
                }
                if x == c {
                    assert(next[prev.len() as int] == x);
                }
            }
            if chain.no_duplicates() {
                assert forall|a: int, b: int| 0 <= a < b < next.len() implies next[a] != next[b] by {
                    if b == prev.len() {
                        assert(prev[a] == next[a]);
                    }
                }
            }
        }
    }
}

/// For declarations with distinct names, the fallback chain of every
/// language starts with its own name, repeats no name, and holds exactly the
/// names of all languages: it is a permutation of them.
pub proof fn lemma_fallback_chain_is_permutation(ls: Seq<LanguageView>, i: int)
    requires
        0 <= i < ls.len(),
        names_of(ls).no_duplicates(),
    ensures
        resolved(ls, i).fallback[0] == ls[i].name,
        resolved(ls, i).fallback.no_duplicates(),
        resolved(ls, i).fallback.to_set() == names_of(ls).to_set(),
        resolved(ls, i).fallback.len() == ls.len(),
{
    let names = names_of(ls);
    let name = ls[i].name;
    let first = append_new(seq![name], ls[i].fallback, names);
    let chain = append_new(first, names, names);
    lemma_append_new(seq![name], ls[i].fallback, names);
    lemma_append_new(first, names, names);
    assert(seq![name].no_duplicates());
    assert(chain.subrange(0, first.len() as int)[0] == chain[0]);
    assert(first.subrange(0, 1)[0] == first[0]);
    assert(names[i] == name);
    assert forall|x: Seq<char>| chain.to_set().contains(x) <==> names.to_set().contains(x) by {
        if first.contains(x) {
            if seq![name].contains(x) {
                let k = choose|k: int| 0 <= k < 1 && seq![name][k] == x;
            }
        }
    }
    assert(chain.to_set() =~= names.to_set());
    chain.unique_seq_to_set();
    names.unique_seq_to_set();
}

/// With no language declared default the first one is the default and no
/// other is; with two or more declared default, `MultipleDefaults` is reported.
pub proof fn lemma_default_language(ls: Seq<LanguageView>)
    ensures
        ls.len() > 0 && default_count(ls) == 0 ==> resolved(ls, 0).default
            && forall|i: int| 0 < i < ls.len() ==> !(#[trigger] resolved(ls, i)).default,
        default_count(ls) >= 2 ==> language_problems(ls).contains(LanguageProblemView::MultipleDefaults),
{
    if default_count(ls) >= 2 {
        let none: Seq<LanguageProblemView> = if ls.len() == 0 {
            seq![LanguageProblemView::NoLanguages]
        } else {
            Seq::empty()
        };
        assert(language_problems(ls)[none.len() as int] == LanguageProblemView::MultipleDefaults);
    }
}

/// The declared languages, in declaration order.
pub struct RawLanguages(pub Vec<Language>);

/// The resolved languages: one default, each with a complete fallback chain.
pub struct Languages(pub Vec<Language>);

/// The language name derived from a variant identifier.
pub open spec fn derived_name(ident: Seq<char>, declared: Option<Seq<char>>) -> Seq<char> {
    match declared {
        Some(n) => n,
        None => snake_case_of(ident),
    }
}

/// How a variant's `default` option reads.
pub open spec fn default_flag(value: Option<Seq<char>>) -> Option<bool> {
    match value {
        None => Some(false),
        Some(v) => if v == "true"@ { Some(true) } else if v == "false"@ { Some(false) } else { None },
    }
}

impl Language {
    /// A language named `name`, with the given fallbacks, not default; its
    /// identifier is the name in `PascalCase`.
    pub fn run_new(name: &str, fallback: &[&str]) -> (r: Language)
        ensures
            r@.ident == pascal_case_of(name@),
            r@.name == name@,
            r@.fallback.len() == fallback@.len(),
            forall|i: int| 0 <= i < fallback@.len() ==> r@.fallback[i] == (#[trigger] fallback@[i])@,
            !r@.default,
    {
        let mut fb: Vec<String> = Vec::new();
        let mut i: usize = 0;
        while i < fallback.len()
            invariant
                i <= fallback@.len(),
                fb@.len() == i,
                forall|j: int| 0 <= j < i ==> (#[trigger] fb@[j])@ == fallback@[j]@,
            decreases fallback.len() - i,
        {
            fb.push(fallback[i].to_owned());
            i = i + 1;
        }
        Language { ident: pascal_case(name), span: call_site(), name: name.to_owned(), fallback: fb, default: false }
    }

    /// A language from an enum variant and its options: `name` (default: the
    /// identifier in `snake_case`), `fallback` (names separated by white space
    /// or commas) and `default` (`"true"` or `"false"`). The flag is `false`
    /// when `default` holds anything else; the language is then not default.
    pub fn declare(ident: &str, span: Span, name: Option<String>, fallback: Option<&str>, default: Option<&str>) -> (r: (Language, bool))
        ensures
            r.0@.ident == ident@,
            r.0.span == span,
            r.0@.name == derived_name(ident@, match name { Some(n) => Some(n@), None => None }),
            r.0@.fallback == match fallback { Some(f) => split_names(f@), None => Seq::empty() },
            r.1 == (default_flag(match default { Some(d) => Some(d@), None => None }) is Some),
            r.0@.default == (default_flag(match default { Some(d) => Some(d@), None => None }) == Some(true)),
    {
        let name = match name {
            Some(n) => n,
            None => snake_case(ident),
        };
        let names = match fallback {
            Some(f) => split_name_list(f),
            None => Vec::new(),
        };
        let (default, known) = match default {
            None => (false, true),
            Some(d) => {
                let d = d.to_owned();
                let t = "true".to_owned();
                let f = "false".to_owned();
                if d == t {
                    (true, true)
                } else if d == f {
                    (false, true)
                } else {
                    (false, false)
                }
            },
        };
        proof {
            assert(str_views(names@) =~= match fallback { Some(f) => split_names(f@), None => Seq::empty() });
        }
        (Language { ident: ident.to_owned(), span, name, fallback: names, default }, known)
    }
}

impl Languages {
    /// The languages, in declaration order.
    pub fn iter(&self) -> (r: std::slice::Iter<'_, Language>)
        ensures
            vstd::std_specs::slice::into_iter_elts(r) == self.0@,
    {
        self.0.as_slice().iter()
    }

    /// The languages, in declaration order.
    pub fn as_vec(&self) -> (r: &Vec<Language>)
        ensures
            r@ == self.0@,
    {
        &self.0
    }
}

impl RawLanguages {
    /// The declared languages, in order.
    pub fn iter(&self) -> (r: std::slice::Iter<'_, Language>)
        ensures
            vstd::std_specs::slice::into_iter_elts(r) == self.0@,
    {
        self.0.as_slice().iter()
    }

    /// Resolves the declarations and reports each problem as an error, the
    /// ones about a single language at that language's location.
    pub fn into<D: Diagnostic>(self, diagnostic: &mut D, span: Span) -> (r: Languages)
        ensures
            r.0@.len() == self.0@.len(),
            forall|i: int| 0 <= i < self.0@.len() ==> (#[trigger] r.0@[i])@ == resolved(language_views(self.0@), i),
    {
        let (languages, problems) = self.resolve();
        let mut k: usize = 0;
        while k < problems.len()
            decreases problems.len() - k,
        {
            let at = match problems[k].language() {
                Some(i) => if i < self.0.len() { self.0[i].span } else { span },
                None => span,
            };
            diagnostic.emit_error(at, problems[k].message());
            if let LanguageProblem::NoLanguages = problems[k] {
                diagnostic.should_abort_if_dirty();
            }
            k = k + 1;
        }
        languages
    }

    /// Resolves the declarations: `Ok` when no problem was found, else the
    /// recorder holding the reported errors.
    pub fn run_into(self) -> (r: Result<Languages, crate::diagnostic::Simulated>)
        ensures
            r is Ok <==> language_problems(language_views(self.0@)).len() == 0,
            r matches Ok(ls) ==> ls.0@.len() == self.0@.len() && forall|i: int| 0 <= i < self.0@.len()
                ==> (#[trigger] ls.0@[i])@ == resolved(language_views(self.0@), i),
            r matches Err(s) ==> s.warnings_view().len() == 0 && labelled(s.errors_view(),
                language_problems(language_views(self.0@)).map_values(|p: LanguageProblemView| language_problem_text(p))),
    {
        let (languages, problems) = self.resolve();
        if problems.len() == 0 {
            return Ok(languages);
        }
        let ghost texts = language_problem_views(problems@).map_values(|p: LanguageProblemView| language_problem_text(p));
        let mut recorder = crate::diagnostic::Simulated::new();
        proof {
            assert(recorder.errors_view() =~= texts.subrange(0, 0));
        }
        let mut k: usize = 0;
        while k < problems.len()
            invariant
                k <= problems@.len(),
                texts == language_problem_views(problems@).map_values(|p: LanguageProblemView| language_problem_text(p)),
                !recorder.is_aborted(),
                recorder.warnings_view().len() == 0,
                labelled(recorder.errors_view(), texts.subrange(0, k as int)),
            decreases problems.len() - k,
        {
            let at = match problems[k].language() {
                Some(i) => if i < self.0.len() { self.0[i].span } else { call_site() },
                None => call_site(),
            };
            let ghost before = recorder.errors_view();
            let message = problems[k].message();
            recorder.record_error(at, message);
            proof {
                lemma_labelled_push(before, texts.subrange(0, k as int), recorder.errors_view(), message@);
                assert(texts.subrange(0, k as int).push(message@) =~= texts.subrange(0, k + 1));
            }
            k = k + 1;
        }
        assert(texts.subrange(0, k as int) =~= texts);
        Err(recorder)
    }

    /// Resolves the declarations: the languages with their defaults and
    /// fallback chains, and every problem found, in order.
    pub fn resolve(&self) -> (r: (Languages, Vec<LanguageProblem>))
        ensures
            (r.0).0@.len() == self.0@.len(),
            forall|i: int| 0 <= i < self.0@.len() ==> (#[trigger] (r.0).0@[i])@ == resolved(language_views(self.0@), i),
            forall|i: int| 0 <= i < self.0@.len() ==> (#[trigger] (r.0).0@[i]).span == self.0@[i].span,
            language_problem_views(r.1@) == language_problems(language_views(self.0@)),
    {
        let ls = &self.0;
        let ghost lv = language_views(ls@);
        let mut problems: Vec<LanguageProblem> = Vec::new();
        if ls.len() == 0 {
            problems.push(LanguageProblem::NoLanguages);
        }
        let mut defaults: usize = 0;
        let mut i: usize = 0;
        while i < ls.len()
            invariant
                i <= ls.len(),
                lv == language_views(ls@),
                defaults as nat == default_count(lv.subrange(0, i as int)),
                defaults <= i,
            decreases ls.len() - i,
        {
            assert(lv.subrange(0, i + 1).drop_last() =~= lv.subrange(0, i as int));
            if ls[i].default {
                defaults = defaults + 1;
            }
            i = i + 1;
        }
        assert(lv.subrange(0, i as int) =~= lv);
        if defaults > 1 {
            problems.push(LanguageProblem::MultipleDefaults);
        }
        let mut names: Vec<String> = Vec::new();
        let mut i: usize = 0;
        while i < ls.len()
            invariant
                i <= ls.len(),
                lv == language_views(ls@),
                str_views(names@) == names_of(lv).subrange(0, i as int),
                names@.len() == i,
            decreases ls.len() - i,
        {
            let nm = ls[i].name.clone();
            assert(nm@ == ls@[i as int].name@);
            names.push(nm);
            proof {
                assert(lv[i as int] == ls@[i as int]@);
                assert(names_of(lv)[i as int] == lv[i as int].name);
                assert(str_views(names@)[i as int] == nm@);
                assert(str_views(names@) =~= names_of(lv).subrange(0, i + 1));
            }
            i = i + 1;
        }
        assert(str_views(names@) =~= names_of(lv));
        assert(names@.len() == ls@.len());
        let ghost head = language_problem_views(problems@);
        let mut out: Vec<Language> = Vec::new();
        let mut prior: Vec<String> = Vec::new();
        let mut i: usize = 0;
        while i < ls.len()
            invariant
                i <= ls.len(),
                lv == language_views(ls@),
                str_views(names@) == names_of(lv),
                names@.len() == ls@.len(),
                str_views(prior@) == names_of(lv).subrange(0, i as int),
                defaults as nat == default_count(lv),
                language_problem_views(problems@) == head + problems_upto(lv, i as int),
                head == language_problems(lv).subrange(0, head.len() as int),
                head.len() + problems_upto(lv, lv.len() as int).len() == language_problems(lv).len(),
                out@.len() == i,
                forall|j: int| 0 <= j < i ==> (#[trigger] out@[j])@ == resolved(lv, j),
                forall|j: int| 0 <= j < i ==> (#[trigger] out@[j]).span == ls@[j].span,
            decreases ls.len() - i,
        {
            let l = &ls[i];
            assert(lv[i as int] == ls@[i as int]@);
            let ghost before = language_problem_views(problems@);
            let seen = contains_str(&prior, &l.name);
            if seen {
                problems.push(LanguageProblem::Duplicate(i));
            }
            if contains_str(&l.fallback, &l.name) {
                problems.push(LanguageProblem::SelfFallback(i));
            }
            let ghost mid = language_problem_views(problems@);
            push_unknown(&mut problems, i, &l.fallback, &l.name, &names);
            let mut chain: Vec<String> = Vec::new();
            chain.push(l.name.clone());
            proof {
                assert(str_views(chain@) =~= seq![lv[i as int].name]);
            }
            extend_new(&mut chain, &l.fallback, &names);
            extend_new(&mut chain, &names, &names);
            let default = if defaults == 0 { i == 0 } else { l.default };
            out.push(Language { ident: l.ident.clone(), span: l.span, name: l.name.clone(), fallback: chain, default });
            prior.push(l.name.clone());
            assert(str_views(prior@) =~= names_of(lv).subrange(0, i + 1));
            proof {
                let u = unknown_fallbacks(i as int, lv[i as int].fallback, lv[i as int].name, names_of(lv));
                assert(ls@[i as int]@ == lv[i as int]);
                let dup: Seq<LanguageProblemView> = if names_of(lv).subrange(0, i as int).contains(lv[i as int].name) {
                    seq![LanguageProblemView::Duplicate(i as int)]
                } else {
                    Seq::empty()
                };
                let own: Seq<LanguageProblemView> = if lv[i as int].fallback.contains(lv[i as int].name) {
                    seq![LanguageProblemView::SelfFallback(i as int)]
                } else {
                    Seq::empty()
                };
                assert(mid =~= before + dup + own);
                assert(problems_of(lv, i as int) == dup + own + u);
                assert(language_problem_views(problems@) =~= head + problems_upto(lv, i + 1));
                assert(out@[i as int]@ == resolved(lv, i as int));
            }
            i = i + 1;
        }
        proof {
            assert(head + problems_upto(lv, lv.len() as int) =~= language_problems(lv));
        }
        (Languages(out), problems)
    }
}

} // verus!
