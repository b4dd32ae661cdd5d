//! The options of the derive: where the catalog is, and how its keys join.

use vstd::prelude::*;
use vstd::string::*;
use proc_macro2::Span;
use crate::outside::call_site;
use crate::languages::{language_views, Languages, LanguageView};
use crate::text::{upper_snake_case, upper_snake_case_of, chars_of, identifier_ok, is_identifier, is_type, is_xid_continue, type_ok, xid_continue};

verus! {

/// The process-wide current-language cell that may be generated.
#[derive(Clone, Copy, Debug, PartialEq, Eq, Structural)]
pub enum Global {
    /// An atomic integer holding the language's position.
    Atomic,
}

/// What the current-language cell needs: its name, whether a byte is too
/// narrow for the positions, how many languages there are, and the default's
/// position.
pub struct GlobalPlan {
    pub static_name: String,
    pub wide: bool,
    pub count: usize,
    pub default_index: usize,
}

/// The position of the first default language among the first `n`.
pub open spec fn first_default(ls: Seq<LanguageView>, n: int) -> Option<int>
    decreases n,
{
    if n <= 0 {
        None
    } else {
        match first_default(ls, n - 1) {
            Some(i) => Some(i),
            None => if ls[n - 1].default { Some(n - 1) } else { None },
        }
    }
}

impl Global {
    /// The cell for the enum `enum_ident`: named `STATIC_` and the enum in
    /// upper snake case, wide when there are more than 256 languages, seeded
    /// with the first default language; `None` when no language is default.
    pub fn plan(self, enum_ident: &str, languages: &Languages) -> (r: Option<GlobalPlan>)
        ensures
            first_default(language_views(languages.0@), languages.0@.len() as int) is None <==> r is None,
            r matches Some(p) ==> p.static_name@ == "STATIC_"@ + upper_snake_case_of(enum_ident@)
                && p.count == languages.0@.len()
                && p.wide == (languages.0@.len() > 256)
                && first_default(language_views(languages.0@), languages.0@.len() as int) == Some(p.default_index as int),
    {
        let ls = languages.as_vec();
        let ghost lv = language_views(ls@);
        let mut found: Option<usize> = None;
        let mut i: usize = 0;
        while i < ls.len()
            invariant
                i <= ls@.len(),
                ls@ == languages.0@,
                lv == language_views(ls@),
                match found {
                    Some(k) => first_default(lv, i as int) == Some(k as int),
                    None => first_default(lv, i as int) is None,
                },
            decreases ls.len() - i,
        {
            assert(lv[i as int] == ls@[i as int]@);
            if found.is_none() && ls[i].default {
                found = Some(i);
            }
            i = i + 1;
        }
        match found {
            None => None,
            Some(d) => {
                let mut name = "STATIC_".to_owned();
                let upper = upper_snake_case(enum_ident);
                name.append(upper.as_str());
                Some(GlobalPlan { static_name: name, wide: ls.len() > 256, count: ls.len(), default_index: d })
            },
        }
    }
}

/// Where the catalog is and how tree paths join into keys.
pub struct Parameters {
    pub span: Span,
    /// Path of the catalog file; its extension names the format.
    pub filename: String,
    /// Joins the path segments of a tree catalog into a key.
    pub separator: String,
    pub global: Option<Global>,
}

/// A problem in the options.
#[derive(Clone, Copy, Debug, PartialEq, Eq, Structural)]
pub enum ParameterProblem {
    /// The separator holds a character that cannot continue an identifier; `_` is used.
    InvalidSeparator,
    /// The `global` option names no known kind; none is generated.
    UnknownGlobal,
}

impl ParameterProblem {
    /// The text reported for this problem.
    pub fn message(&self) -> (r: String)
        ensures
            r@ == match self {
                ParameterProblem::InvalidSeparator => "the separator contains invalid characters"@,
                ParameterProblem::UnknownGlobal => "the global is not known"@,
            },
    {
        match self {
            ParameterProblem::InvalidSeparator => "the separator contains invalid characters".to_owned(),
            ParameterProblem::UnknownGlobal => "the global is not known".to_owned(),
        }
    }
}

/// Whether every character of `s` may continue an identifier.
pub open spec fn separator_ok(s: Seq<char>) -> bool {
    forall|i: int| 0 <= i < s.len() ==> xid_continue(#[trigger] s[i])
}

impl Parameters {
    /// Parameters for `filename` and `separator`, located at the call site.
    pub fn run_new(filename: &str, separator: &str) -> (r: Parameters)
        ensures
            r.filename@ == filename@,
            r.separator@ == separator@,
            r.global is None,
    {
        Parameters { span: call_site(), filename: filename.to_owned(), separator: separator.to_owned(), global: None }
    }

    /// Parameters from the options: `separator` (default `_`, which also
    /// replaces a separator with a character that cannot continue an
    /// identifier) and `global` (`atomic`, or nothing).
    pub fn from_options(span: Span, filename: String, separator: Option<String>, global: Option<String>) -> (r: (Parameters, Vec<ParameterProblem>))
        ensures
            r.0.filename@ == filename@,
            r.0.span == span,
            r.0.separator@ == match separator {
                Some(s) => if separator_ok(s@) { s@ } else { "_"@ },
                None => "_"@,
            },
            r.0.global == match global {
                Some(g) => if g@ == "atomic"@ { Some(Global::Atomic) } else { None },
                None => None::<Global>,
            },
            r.1@ == {
                let a: Seq<ParameterProblem> = match separator {
                    Some(s) => if separator_ok(s@) { Seq::empty() } else { seq![ParameterProblem::InvalidSeparator] },
                    None => Seq::empty(),
                };
                let b: Seq<ParameterProblem> = match global {
                    Some(g) => if g@ == "atomic"@ { Seq::empty() } else { seq![ParameterProblem::UnknownGlobal] },
                    None => Seq::empty(),
                };
                a + b
            },
    {
        let mut problems: Vec<ParameterProblem> = Vec::new();
        let separator = match separator {
            Some(s) => {
                let cs = chars_of(s.as_str());
                let mut ok = true;
                let mut i: usize = 0;
                while i < cs.len()
                    invariant
                        i <= cs@.len(),
                        cs@ == s@,
                        ok == forall|j: int| 0 <= j < i ==> xid_continue(#[trigger] cs@[j]),
                    decreases cs.len() - i,
                {
                    if !is_xid_continue(cs[i]) {
                        ok = false;
                    }
                    i = i + 1;
                }
                if ok {
                    s
                } else {
                    problems.push(ParameterProblem::InvalidSeparator);
                    "_".to_owned()
                }
            },
            None => "_".to_owned(),
        };
        let global = match global {
            Some(g) => {
                let atomic = "atomic".to_owned();
                if g == atomic {
                    Some(Global::Atomic)
                } else {
                    problems.push(ParameterProblem::UnknownGlobal);
                    None
                }
            },
            None => None,
        };
        (Parameters { span, filename, separator, global }, problems)
    }
}

/// What a builder produces.
#[derive(Clone, Copy, Debug, PartialEq, Eq, Structural)]
pub enum BuilderVariant {
    /// `static_str`: only messages without parameters, as `&'static str`.
    StaticStr,
    /// `mixed_str`: `&'static str` without parameters, `String` with.
    MixedStr,
    /// `_`: generic over the builder type.
    Generic,
    /// A named type implementing the assembly protocol.
    Named,
}

/// How string parameters are taken.
#[derive(Clone, Copy, Debug, PartialEq, Eq, Structural)]
pub enum StrConversion {
    /// `&str`.
    Ref,
    /// Anything that is `AsRef<str>`.
    AsRef,
}

/// The type of typed parameters.
#[derive(Clone, Copy, Debug, PartialEq, Eq, Structural)]
pub enum InputVariant {
    /// No input: messages with typed parameters are skipped.
    Absent,
    /// `_`: generic.
    Generic,
    /// A named type.
    Named,
}

/// How typed parameters are taken and pushed.
#[derive(Clone, Copy, Debug, PartialEq, Eq, Structural)]
pub enum InputConversion {
    /// By value, pushed by value.
    Value,
    /// Anything `Into` the input type, pushed by value.
    Into,
    /// By reference, pushed by reference.
    Ref,
    /// Anything `AsRef` of the input type, pushed by reference.
    AsRef,
}

/// One builder specification: one family of render functions.
pub struct Builder {
    pub span: Span,
    pub builder_variant: BuilderVariant,
    /// The builder type, as source text.
    pub builder_type: String,
    pub prefix: Option<String>,
    pub str_conversion: StrConversion,
    /// The input type's identifier (`I` unless named).
    pub input_ident: String,
    pub input_variant: InputVariant,
    pub input_conversion: InputConversion,
}

/// A problem in a builder specification.
pub enum BuilderProblem {
    /// `mixed_str` without string allocation; `static_str` is used.
    MixedStrUnavailable,
    /// The builder is no type; `T` is used.
    InvalidBuilderType(String),
    /// An unknown `str_conversion`; `ref` is used.
    UnsupportedStrConversion(String),
    /// The input is neither `_` nor an identifier; no input is used.
    InvalidInputType(String),
    /// An unknown `input_conversion`; `into` is used.
    UnsupportedInputConversion(String),
    /// `static_str` or `mixed_str` with an input.
    SpecialBuilderWithInput,
}

impl BuilderProblem {
    /// The text reported for this problem.
    pub fn message(&self) -> (r: String)
        ensures
            r@ == match self {
                BuilderProblem::MixedStrUnavailable => "builder mixed_str is only available with the feature alloc"@,
                BuilderProblem::InvalidBuilderType(t) => "invalid builder type: "@ + t@,
                BuilderProblem::UnsupportedStrConversion(c) => "unsupported str conversion: "@ + c@,
                BuilderProblem::InvalidInputType(t) => "invalid input type: "@ + t@,
                BuilderProblem::UnsupportedInputConversion(c) => "unsupported input conversion: "@ + c@,
                BuilderProblem::SpecialBuilderWithInput => "special builder can't have an input"@,
            },
    {
        match self {
            BuilderProblem::MixedStrUnavailable => "builder mixed_str is only available with the feature alloc".to_owned(),
            BuilderProblem::InvalidBuilderType(t) => {
                let mut r = "invalid builder type: ".to_owned();
                r.append(t.as_str());
                r
            },
            BuilderProblem::UnsupportedStrConversion(c) => {
                let mut r = "unsupported str conversion: ".to_owned();
                r.append(c.as_str());
                r
            },
            BuilderProblem::InvalidInputType(t) => {
                let mut r = "invalid input type: ".to_owned();
                r.append(t.as_str());
                r
            },
            BuilderProblem::UnsupportedInputConversion(c) => {
                let mut r = "unsupported input conversion: ".to_owned();
                r.append(c.as_str());
                r
            },
            BuilderProblem::SpecialBuilderWithInput => "special builder can't have an input".to_owned(),
        }
    }
}

pub enum BuilderProblemView {
    MixedStrUnavailable,
    InvalidBuilderType(Seq<char>),
    UnsupportedStrConversion(Seq<char>),
    InvalidInputType(Seq<char>),
    UnsupportedInputConversion(Seq<char>),
    SpecialBuilderWithInput,
}

impl View for BuilderProblem {
    type V = BuilderProblemView;

    open spec fn view(&self) -> BuilderProblemView {
        match self {
            BuilderProblem::MixedStrUnavailable => BuilderProblemView::MixedStrUnavailable,
            BuilderProblem::InvalidBuilderType(t) => BuilderProblemView::InvalidBuilderType(t@),
            BuilderProblem::UnsupportedStrConversion(c) => BuilderProblemView::UnsupportedStrConversion(c@),
            BuilderProblem::InvalidInputType(t) => BuilderProblemView::InvalidInputType(t@),
            BuilderProblem::UnsupportedInputConversion(c) => BuilderProblemView::UnsupportedInputConversion(c@),
            BuilderProblem::SpecialBuilderWithInput => BuilderProblemView::SpecialBuilderWithInput,
        }
    }
}

pub open spec fn builder_problem_views(v: Seq<BuilderProblem>) -> Seq<BuilderProblemView> {
    v.map_values(|p: BuilderProblem| p@)
}

/// The problems of the builder options, in the order the options are read.
pub open spec fn builder_problems(
    builder: Seq<char>,
    str_conversion: Option<String>,
    input: Option<String>,
    input_conversion: Option<String>,
    with_mixed_str: bool,
) -> Seq<BuilderProblemView> {
    let a: Seq<BuilderProblemView> = if builder == "mixed_str"@ && !with_mixed_str { seq![BuilderProblemView::MixedStrUnavailable] } else { Seq::empty() };
    let text = type_text_of(builder, with_mixed_str);
    let b: Seq<BuilderProblemView> = if is_type(text) { Seq::empty() } else { seq![BuilderProblemView::InvalidBuilderType(text)] };
    let c: Seq<BuilderProblemView> = match str_conversion {
        Some(c) => if str_conversion_of(Some(c@)) is Some { Seq::empty() } else { seq![BuilderProblemView::UnsupportedStrConversion(c@)] },
        None => Seq::empty(),
    };
    let d: Seq<BuilderProblemView> = match input {
        Some(s) => if input_variant_of(Some(s@)) == InputVariant::Absent { seq![BuilderProblemView::InvalidInputType(s@)] } else { Seq::empty() },
        None => Seq::empty(),
    };
    let e: Seq<BuilderProblemView> = match input_conversion {
        Some(c) => if input_conversion_of(Some(c@)) is Some { Seq::empty() } else { seq![BuilderProblemView::UnsupportedInputConversion(c@)] },
        None => Seq::empty(),
    };
    a + b + c + d + e
}

/// The variant named by the `builder` option.
pub open spec fn variant_of(builder: Seq<char>, with_mixed_str: bool) -> BuilderVariant {
    if builder == "static_str"@ {
        BuilderVariant::StaticStr
    } else if builder == "mixed_str"@ {
        if with_mixed_str { BuilderVariant::MixedStr } else { BuilderVariant::StaticStr }
    } else if builder == "_"@ {
        BuilderVariant::Generic
    } else {
        BuilderVariant::Named
    }
}

/// The builder type's text before it is checked.
pub open spec fn type_text_of(builder: Seq<char>, with_mixed_str: bool) -> Seq<char> {
    match variant_of(builder, with_mixed_str) {
        BuilderVariant::StaticStr => "String"@,
        BuilderVariant::MixedStr => "String"@,
        BuilderVariant::Generic => "T"@,
        BuilderVariant::Named => builder,
    }
}

pub open spec fn str_conversion_of(c: Option<Seq<char>>) -> Option<StrConversion> {
    match c {
        None => Some(StrConversion::Ref),
        Some(c) => if c == "ref"@ { Some(StrConversion::Ref) } else if c == "as_ref"@ { Some(StrConversion::AsRef) } else { None },
    }
}

pub open spec fn input_conversion_of(c: Option<Seq<char>>) -> Option<InputConversion> {
    match c {
        None => Some(InputConversion::Into),
        Some(c) => if c == "value"@ {
            Some(InputConversion::Value)
        } else if c == "into"@ {
            Some(InputConversion::Into)
        } else if c == "ref"@ {
            Some(InputConversion::Ref)
        } else if c == "as_ref"@ {
            Some(InputConversion::AsRef)
        } else {
            None
        },
    }
}

pub open spec fn input_variant_of(input: Option<Seq<char>>) -> InputVariant {
    match input {
        None => InputVariant::Absent,
        Some(s) => if s == "_"@ { InputVariant::Generic } else if is_identifier(s) { InputVariant::Named } else { InputVariant::Absent },
    }
}

pub open spec fn opt_view(o: Option<String>) -> Option<Seq<char>> {
    match o {
        Some(s) => Some(s@),
        None => None,
    }
}

fn same(a: &String, b: &str) -> (r: bool)
    ensures
        r == (a@ == b@),
{
    let b = b.to_owned();
    *a == b
}

fn variant_option(builder: &String, with_mixed_str: bool, problems: &mut Vec<BuilderProblem>) -> (r: BuilderVariant)
    requires
        old(problems)@.len() == 0,
    ensures
        r == variant_of(builder@, with_mixed_str),
        builder_problem_views(final(problems)@) == if builder@ == "mixed_str"@ && !with_mixed_str {
            seq![BuilderProblemView::MixedStrUnavailable]
        } else {
            Seq::empty()
        },
{
    proof {
        reveal_strlit("static_str");
        reveal_strlit("mixed_str");
        assert("static_str"@.len() == 10);
        assert("mixed_str"@.len() == 9);
    }
    let r = if same(builder, "static_str") {
        BuilderVariant::StaticStr
    } else if same(builder, "mixed_str") {
        if with_mixed_str {
            BuilderVariant::MixedStr
        } else {
            problems.push(BuilderProblem::MixedStrUnavailable);
            BuilderVariant::StaticStr
        }
    } else if same(builder, "_") {
        BuilderVariant::Generic
    } else {
        BuilderVariant::Named
    };
    assert(builder_problem_views(problems@) =~= if builder@ == "mixed_str"@ && !with_mixed_str {
        seq![BuilderProblemView::MixedStrUnavailable]
    } else {
        Seq::empty()
    });
    r
}

fn str_conversion_option(c: Option<String>, problems: &mut Vec<BuilderProblem>) -> (r: StrConversion)
    ensures
        r == match str_conversion_of(opt_view(c)) { Some(x) => x, None => StrConversion::Ref },
        builder_problem_views(final(problems)@) == builder_problem_views(old(problems)@) + match c {
            Some(c) => if str_conversion_of(Some(c@)) is Some { Seq::empty() } else { seq![BuilderProblemView::UnsupportedStrConversion(c@)] },
            None => Seq::<BuilderProblemView>::empty(),
        },
{
    let ghost start = builder_problem_views(problems@);
    let r = match c {
        None => StrConversion::Ref,
        Some(c) => if same(&c, "ref") {
            StrConversion::Ref
        } else if same(&c, "as_ref") {
            StrConversion::AsRef
        } else {
            problems.push(BuilderProblem::UnsupportedStrConversion(c));
            StrConversion::Ref
        },
    };
    assert(builder_problem_views(problems@) =~= start + match c {
        Some(c) => if str_conversion_of(Some(c@)) is Some { Seq::empty() } else { seq![BuilderProblemView::UnsupportedStrConversion(c@)] },
        None => Seq::<BuilderProblemView>::empty(),
    });
    r
}

fn input_option(input: Option<String>, problems: &mut Vec<BuilderProblem>) -> (r: (InputVariant, String))
    ensures
        r.0 == input_variant_of(opt_view(input)),
        r.1@ == if r.0 == InputVariant::Named { opt_view(input)->Some_0 } else { "I"@ },
        builder_problem_views(final(problems)@) == builder_problem_views(old(problems)@) + match input {
            Some(s) => if input_variant_of(Some(s@)) == InputVariant::Absent { seq![BuilderProblemView::InvalidInputType(s@)] } else { Seq::empty() },
            None => Seq::<BuilderProblemView>::empty(),
        },
{
    let ghost start = builder_problem_views(problems@);
    let ghost iv = input;
    let r = match input {
        None => (InputVariant::Absent, "I".to_owned()),
        Some(s) => if same(&s, "_") {
            (InputVariant::Generic, "I".to_owned())
        } else if identifier_ok(s.as_str()) {
            (InputVariant::Named, s)
        } else {
            problems.push(BuilderProblem::InvalidInputType(s));
            (InputVariant::Absent, "I".to_owned())
        },
    };
    assert(builder_problem_views(problems@) =~= start + match iv {
        Some(s) => if input_variant_of(Some(s@)) == InputVariant::Absent { seq![BuilderProblemView::InvalidInputType(s@)] } else { Seq::empty() },
        None => Seq::<BuilderProblemView>::empty(),
    });
    r
}

fn input_conversion_option(c: Option<String>, problems: &mut Vec<BuilderProblem>) -> (r: InputConversion)
    ensures
        r == match input_conversion_of(opt_view(c)) { Some(x) => x, None => InputConversion::Into },
        builder_problem_views(final(problems)@) == builder_problem_views(old(problems)@) + match c {
            Some(c) => if input_conversion_of(Some(c@)) is Some { Seq::empty() } else { seq![BuilderProblemView::UnsupportedInputConversion(c@)] },
            None => Seq::<BuilderProblemView>::empty(),
        },
{
    let ghost start = builder_problem_views(problems@);
    let ghost cv = c;
    let r = match c {
        None => InputConversion::Into,
        Some(c) => if same(&c, "value") {
            InputConversion::Value
        } else if same(&c, "into") {
            InputConversion::Into
        } else if same(&c, "ref") {
            InputConversion::Ref
        } else if same(&c, "as_ref") {
            InputConversion::AsRef
        } else {
            problems.push(BuilderProblem::UnsupportedInputConversion(c));
            InputConversion::Into
        },
    };
    assert(builder_problem_views(problems@) =~= start + match cv {
        Some(c) => if input_conversion_of(Some(c@)) is Some { Seq::empty() } else { seq![BuilderProblemView::UnsupportedInputConversion(c@)] },
        None => Seq::<BuilderProblemView>::empty(),
    });
    r
}

impl Builder {
    /// A builder specification from its options: `builder` (`static_str`,
    /// `mixed_str`, `_` or a type), `prefix`, `str_conversion` (`ref`,
    /// `as_ref`), `input` (`_` or an identifier) and `input_conversion`
    /// (`value`, `into`, `ref`, `as_ref`). Each option that is not understood
    /// is reported and its default is used.
    pub fn from_options(
        span: Span,
        builder: String,
        prefix: Option<String>,
        str_conversion: Option<String>,
        input: Option<String>,
        input_conversion: Option<String>,
        with_mixed_str: bool,
    ) -> (r: (Builder, Vec<BuilderProblem>))
        ensures
            r.0.builder_variant == variant_of(builder@, with_mixed_str),
            r.0.builder_type@ == if is_type(type_text_of(builder@, with_mixed_str)) { type_text_of(builder@, with_mixed_str) } else { "T"@ },
            opt_view(r.0.prefix) == opt_view(prefix),
            r.0.str_conversion == match str_conversion_of(opt_view(str_conversion)) { Some(c) => c, None => StrConversion::Ref },
            r.0.input_variant == input_variant_of(opt_view(input)),
            r.0.input_ident@ == if r.0.input_variant == InputVariant::Named { opt_view(input)->Some_0 } else { "I"@ },
            r.0.input_conversion == match input_conversion_of(opt_view(input_conversion)) { Some(c) => c, None => InputConversion::Into },
            builder_problem_views(r.1@) == builder_problems(builder@, str_conversion, input, input_conversion, with_mixed_str),
    {
        let mut problems: Vec<BuilderProblem> = Vec::new();
        let ghost builder_text = builder@;
        let ghost str_conversion_in = str_conversion;
        let ghost input_in = input;
        let ghost input_conversion_in = input_conversion;
        let variant = variant_option(&builder, with_mixed_str, &mut problems);
        let ghost pa = builder_problem_views(problems@);
        let text = match variant {
            BuilderVariant::StaticStr => "String".to_owned(),
            BuilderVariant::MixedStr => "String".to_owned(),
            BuilderVariant::Generic => "T".to_owned(),
            BuilderVariant::Named => builder,
        };
        let builder_type = if type_ok(text.as_str()) {
            text
        } else {
            problems.push(BuilderProblem::InvalidBuilderType(text));
            "T".to_owned()
        };
        let ghost ttext = type_text_of(builder_text, with_mixed_str);
        let ghost pb: Seq<BuilderProblemView> = if is_type(ttext) { Seq::empty() } else { seq![BuilderProblemView::InvalidBuilderType(ttext)] };
        assert(builder_problem_views(problems@) =~= pa + pb);
        let sc = str_conversion_option(str_conversion, &mut problems);
        let (input_variant, input_ident) = input_option(input, &mut problems);
        let ic = input_conversion_option(input_conversion, &mut problems);
        proof {
            assert(builder_problem_views(problems@) =~= builder_problems(builder_text, str_conversion_in, input_in, input_conversion_in, with_mixed_str));
        }
        (Builder {
            span,
            builder_variant: variant,
            builder_type,
            prefix,
            str_conversion: sc,
            input_ident,
            input_variant,
            input_conversion: ic,
        }, problems)
    }
}

} // verus!
