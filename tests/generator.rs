use indexmap::IndexMap;
use proc_macro2::Span;
use std::borrow::Cow;
use typed_i18n::attribute::{Builder, BuilderProblem, Global, InputConversion, InputVariant, Parameters, StrConversion};
use typed_i18n::diagnostic::Simulated;
use typed_i18n::generator::{ArgType, Body, Bound, GenericParam, Op, ReturnType};
use typed_i18n::languages::{Language, Languages, RawLanguages};
use typed_i18n::messages::Messages;
use typed_i18n::render::Builder as Assemble;
use typed_i18n::text::{decimal, split_name_list};
use typed_i18n::tokenizer::{tokenize, ParamType, Piece, TokenProblem};
use typed_i18n::tree::{TreeInput, TreeNode};

fn languages_en_de() -> Languages {
    RawLanguages(vec![
        Language::run_new("en", &[]),
        Language::run_new("de", &[]),
    ])
    .run_into()
    .expect("languages")
}

fn leaf(pairs: &[(&str, &str)]) -> TreeNode {
    let mut l = IndexMap::new();
    for (k, v) in pairs {
        l.insert(k.to_string(), v.to_string());
    }
    TreeNode::LangMap(l)
}

fn catalog() -> Messages {
    let inner = vec![
        ("hello_world".to_string(), leaf(&[("en", "Hello world"), ("de", "Hallo Welt")])),
        ("hello_you".to_string(), leaf(&[("en", "Hello %{name}")])),
        ("with_icon".to_string(), leaf(&[("en", "Hello %{name}*{icon}")])),
        ("nothing".to_string(), leaf(&[("en", "")])),
    ];
    Messages::run_parse(
        &Parameters::run_new("x.json", "_"),
        &languages_en_de(),
        "",
        move |_: bool, _: &str| -> Result<TreeInput, String> {
            Ok(TreeInput { version: 2, inner: inner.iter().map(|(k, n)| (k.clone(), copy(n))).collect() })
        },
    )
    .expect("no problems")
}

fn copy(n: &TreeNode) -> TreeNode {
    match n {
        TreeNode::LangMap(l) => TreeNode::LangMap(l.clone()),
        TreeNode::Depth(d) => TreeNode::Depth(d.iter().map(|(k, c)| (k.clone(), copy(c))).collect()),
    }
}

fn builder(name: &str, input: Option<&str>, conversion: Option<&str>) -> Builder {
    let (b, problems) = Builder::from_options(
        Span::call_site(),
        name.to_string(),
        Some("p_".to_string()),
        None,
        input.map(|s| s.to_string()),
        conversion.map(|s| s.to_string()),
        true,
    );
    assert!(problems.is_empty());
    b
}

#[test]
fn tokenize_string_parameter() {
    let (pieces, problems) = tokenize("Hello %{name}");
    assert_eq!(pieces, vec![Piece::Text("Hello ".to_string()), Piece::Param("name".to_string(), ParamType::Str)]);
    assert!(problems.is_empty());
}

#[test]
fn tokenize_duplicate_typed_parameter() {
    let (pieces, problems) = tokenize("Hi *{name}/*{name}");
    assert_eq!(problems, vec![TokenProblem::DuplicateTyped("name".to_string())]);
    assert_eq!(
        pieces,
        vec![
            Piece::Text("Hi ".to_string()),
            Piece::Param("name".to_string(), ParamType::Typed),
            Piece::Text("/".to_string())
        ]
    );
}

#[test]
fn tokenize_merges_text_around_dropped_parameter() {
    let (pieces, problems) = tokenize("*{x}a*{x}b");
    assert_eq!(problems, vec![TokenProblem::DuplicateTyped("x".to_string())]);
    assert_eq!(pieces, vec![Piece::Param("x".to_string(), ParamType::Typed), Piece::Text("ab".to_string())]);
    let (pieces, problems) = tokenize("a%{-}b");
    assert_eq!(problems, vec![TokenProblem::InvalidName("-".to_string())]);
    assert_eq!(pieces, vec![Piece::Text("ab".to_string())]);
}

#[test]
fn tokenize_repeated_string_parameter_and_errors() {
    let (pieces, problems) = tokenize("%{a}%{a}");
    assert_eq!(pieces.len(), 2);
    assert!(problems.is_empty());
    let (pieces, problems) = tokenize("a}b %{1x} %{");
    assert_eq!(problems, vec![TokenProblem::InvalidName("1x".to_string()), TokenProblem::Malformed]);
    assert_eq!(pieces, vec![Piece::Text("a}b  ".to_string())]);
    let (pieces, problems) = tokenize("");
    assert!(pieces.is_empty() && problems.is_empty());
    let (pieces, _) = tokenize("Grüße *{x}");
    assert_eq!(pieces[0], Piece::Text("Grüße ".to_string()));
}

#[test]
fn no_input_builder_skips_typed_messages() {
    let messages = catalog();
    let diagnostic = &mut Simulated::new();
    let plans = builder("String", None, None).generate(diagnostic, &languages_en_de(), &messages);
    assert!(diagnostic.assert_empty());
    let names: Vec<&str> = plans.iter().map(|f| f.name.as_str()).collect();
    assert_eq!(names, vec!["p_hello_world", "p_hello_you", "p_nothing"]);
    let keys: Vec<&str> = messages.iter().iter().map(|(k, _)| k.as_str()).collect();
    assert_eq!(keys, vec!["hello_world", "hello_you", "with_icon", "nothing"]);
}

#[test]
fn input_builder_includes_typed_messages() {
    let messages = catalog();
    let plans = builder("HtmlBuilder", Some("Html"), None).plan(&languages_en_de(), &messages).ok().expect("plans");
    let f = plans.iter().find(|f| f.name == "p_with_icon").expect("with_icon is generated");
    assert_eq!(f.args, vec![("name".to_string(), ArgType::StrRef), ("icon".to_string(), ArgType::InputGeneric(1))]);
    assert_eq!(f.generics, vec![GenericParam::Typed(1)]);
    assert_eq!(f.bounds, vec![Bound::BuilderFromValue, Bound::IntoInput(1)]);
    assert_eq!(f.ret, ReturnType::BuilderOutput);
    assert!(f.single);
    assert_eq!(
        f.bodies,
        vec![Body::Build(vec![
            Op::PushConstStr("Hello ".to_string()),
            Op::PushStr { name: "name".to_string(), as_ref: false },
            Op::PushTyped { name: "icon".to_string(), conversion: InputConversion::Into },
        ])]
    );
}

#[test]
fn bodies_follow_fallback_chains() {
    let messages = catalog();
    let plans = builder("String", None, None).plan(&languages_en_de(), &messages).ok().expect("plans");
    assert!(!plans[0].single);
    assert_eq!(
        plans[0].bodies,
        vec![Body::ConstStr("Hello world".to_string()), Body::ConstStr("Hallo Welt".to_string())]
    );
    assert_eq!(plans[2].bodies, vec![Body::Empty]);
}

#[test]
fn static_and_mixed_builders() {
    let messages = catalog();
    let plans = builder("static_str", None, None).plan(&languages_en_de(), &messages).ok().expect("plans");
    let names: Vec<&str> = plans.iter().map(|f| f.name.as_str()).collect();
    assert_eq!(names, vec!["p_hello_world", "p_nothing"]);
    assert_eq!(plans[0].ret, ReturnType::StaticStr);
    assert_eq!(plans[0].bodies, vec![Body::Literal("Hello world".to_string()), Body::Literal("Hallo Welt".to_string())]);
    let plans = builder("mixed_str", None, None).plan(&languages_en_de(), &messages).ok().expect("plans");
    assert_eq!(plans[1].ret, ReturnType::String);
    let diagnostic = &mut Simulated::new();
    let plans = builder("static_str", Some("Html"), None).generate(diagnostic, &languages_en_de(), &messages);
    assert!(plans.is_empty());
    assert!(diagnostic.assert_errors(&["Span: special builder can't have an input"]));
}

#[test]
fn generic_builder_and_conversions() {
    let messages = catalog();
    let (b, problems) = Builder::from_options(
        Span::call_site(),
        "_".to_string(),
        None,
        Some("as_ref".to_string()),
        Some("_".to_string()),
        Some("as_ref".to_string()),
        true,
    );
    assert!(problems.is_empty());
    assert_eq!(b.str_conversion, StrConversion::AsRef);
    assert_eq!(b.input_variant, InputVariant::Generic);
    let plans = b.plan(&languages_en_de(), &messages).ok().expect("plans");
    let f = plans.iter().find(|f| f.name == "with_icon").expect("with_icon");
    assert_eq!(f.generics, vec![GenericParam::Builder, GenericParam::Input, GenericParam::Str(1), GenericParam::Typed(2)]);
    assert_eq!(f.bounds, vec![Bound::BuilderFromRef, Bound::AsRefStr(1), Bound::AsRefInput(2)]);
    assert_eq!(f.ret, ReturnType::GenericOutput);
    let g = plans.iter().find(|f| f.name == "hello_world").expect("hello_world");
    assert_eq!(g.generics, vec![GenericParam::Builder]);
    assert_eq!(g.bounds, vec![Bound::Builder]);
}

#[test]
fn builder_option_problems() {
    let (b, problems) = Builder::from_options(
        Span::call_site(),
        "mixed_str".to_string(),
        None,
        Some("weird".to_string()),
        Some("not a type".to_string()),
        Some("copy".to_string()),
        false,
    );
    let texts: Vec<String> = problems.iter().map(|p| p.message()).collect();
    assert_eq!(
        texts,
        vec![
            "builder mixed_str is only available with the feature alloc",
            "unsupported str conversion: weird",
            "invalid input type: not a type",
            "unsupported input conversion: copy",
        ]
    );
    assert_eq!(b.input_conversion, InputConversion::Into);
    assert_eq!(BuilderProblem::InvalidBuilderType("1".to_string()).message(), "invalid builder type: 1");
    let (b, problems) = Builder::from_options(Span::call_site(), "Vec<".to_string(), None, None, None, None, true);
    assert_eq!(problems.len(), 1);
    assert_eq!(problems[0].message(), "invalid builder type: Vec<");
    assert_eq!(b.builder_type, "T");
    let (b, problems) = Builder::from_options(Span::call_site(), "Cow<'static, str>".to_string(), None, None, None, None, true);
    assert!(problems.is_empty());
    assert_eq!(b.builder_type, "Cow<'static, str>");
}

#[test]
fn global_cell_plan() {
    let plan = Global::Atomic.plan("MyLanguage", &languages_en_de()).expect("a default exists");
    assert_eq!(plan.static_name, "STATIC_MY_LANGUAGE");
    assert!(!plan.wide);
    assert_eq!(plan.count, 2);
    assert_eq!(plan.default_index, 0);
}

#[test]
fn separator_and_global_options() {
    let (p, problems) = Parameters::from_options(Span::call_site(), "a.yaml".to_string(), Some("-".to_string()), Some("other".to_string()));
    assert_eq!(p.separator, "_");
    assert_eq!(p.global, None);
    assert_eq!(problems.len(), 2);
    assert_eq!(problems[0].message(), "the separator contains invalid characters");
    let (p, problems) = Parameters::from_options(Span::call_site(), "a.yaml".to_string(), Some("·".to_string()), Some("atomic".to_string()));
    assert_eq!(p.separator, "·");
    assert_eq!(p.global, Some(Global::Atomic));
    assert!(problems.is_empty());
}

#[test]
fn string_and_cow_builders() {
    let s = <String as Assemble>::new().push_const_str("Hello ").push_str("you").finish();
    assert_eq!(s, "Hello you");
    assert_eq!(<String as Assemble>::empty(), "");
    assert_eq!(<String as Assemble>::const_str("Hinweis"), "Hinweis");
    let c = <Cow<'static, str> as Assemble>::const_str("Hallo Welt");
    assert!(matches!(c, Cow::Borrowed("Hallo Welt")));
    let c = <Cow<'static, str> as Assemble>::new().push_const_str("Hello ").push_str("you").finish();
    assert_eq!(c, "Hello you");
    assert_eq!(<Cow<'static, str> as Assemble>::empty(), "");
}

#[test]
fn decimal_and_name_lists() {
    assert_eq!(decimal(0), "0");
    assert_eq!(decimal(1207), "1207");
    assert_eq!(split_name_list("en, de\tfr"), vec!["en".to_string(), "de".to_string(), "fr".to_string()]);
    assert!(split_name_list(" , ").is_empty());
}
