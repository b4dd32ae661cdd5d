use indexmap::IndexMap;
use proc_macro2::Span;
use typed_i18n::attribute::Parameters;
use typed_i18n::diagnostic::Simulated;
use typed_i18n::languages::{Language, Languages, RawLanguages};
use typed_i18n::messages::{CatalogFormat, Messages};
use typed_i18n::output::MessagesAsTree;
use typed_i18n::tree::{TreeInput, TreeNode};

fn languages_en_de() -> Languages {
    RawLanguages(vec![
        Language::run_new("en", &[]),
        Language::run_new("de", &[]),
    ])
    .run_into()
    .expect("languages")
}

fn node(v: &serde_yaml::Value) -> Result<TreeNode, String> {
    let m = v.as_mapping().ok_or_else(|| "not a mapping".to_string())?;
    if m.values().all(|x| x.is_string()) {
        let mut l = IndexMap::new();
        for (k, x) in m {
            l.insert(k.as_str().unwrap_or_default().to_string(), x.as_str().unwrap_or_default().to_string());
        }
        Ok(TreeNode::LangMap(l))
    } else {
        let mut d = Vec::new();
        for (k, x) in m {
            d.push((k.as_str().unwrap_or_default().to_string(), node(x)?));
        }
        Ok(TreeNode::Depth(d))
    }
}

// JSON is read through the YAML reader, which keeps the order of members.
fn decode(_yaml: bool, content: &str) -> Result<TreeInput, String> {
    let v: serde_yaml::Value = serde_yaml::from_str(content).map_err(|e| e.to_string())?;
    let m = v.as_mapping().ok_or_else(|| "not a mapping".to_string())?;
    let mut version = 2;
    let mut inner = Vec::new();
    for (k, x) in m {
        let k = k.as_str().unwrap_or_default().to_string();
        if k == "_version" {
            version = x.as_u64().unwrap_or(0) as usize;
        } else {
            inner.push((k, node(x)?));
        }
    }
    Ok(TreeInput { version, inner })
}

fn parse(diagnostic: &mut Simulated, filename: &str, content: &str) -> Messages {
    Messages::parse(
        diagnostic,
        Span::call_site(),
        &Parameters::run_new(filename, "_"),
        &languages_en_de(),
        content,
        decode,
    )
}

fn object(t: &MessagesAsTree, parent: Option<usize>) -> String {
    let mut members = Vec::new();
    for (i, n) in t.nodes.iter().enumerate() {
        if n.parent == parent {
            let value = match &n.text {
                Some(text) => serde_json::to_string(text).unwrap(),
                None => object(t, Some(i)),
            };
            members.push(format!("{}:{}", serde_json::to_string(&n.key).unwrap(), value));
        }
    }
    format!("{{{}}}", members.join(","))
}

fn serialize(t: &MessagesAsTree) -> String {
    let inner = object(t, None);
    format!("{{\"_version\":{},{}", t.version, &inner[1..])
}

#[test]
fn no_extension() {
    let diagnostic = &mut Simulated::new();
    let _messages = parse(diagnostic, "_", "");
    assert!(diagnostic.assert_errors(&["Span: No file extension on \"_\""]));
}

#[test]
fn unknown_extension() {
    let diagnostic = &mut Simulated::new();
    let _messages = parse(diagnostic, "_._", "");
    assert!(diagnostic.assert_errors(&["Span: Unsupported file extension \"_\""]));
}

#[test]
fn raw_no_messages() {
    let diagnostic = &mut Simulated::new();
    let _messages = parse(diagnostic, "_.json", r#"{}"#);
    assert!(diagnostic.assert_errors(&["Span: no messages found"]));
}

#[test]
fn basic_no_messages() {
    let diagnostic = &mut Simulated::new();
    let _messages = parse(diagnostic, "_.json", r#"{}"#);
    assert!(diagnostic.assert_errors(&["Span: no messages found"]));
}

#[test]
fn raw_language_warning() {
    let diagnostic = &mut Simulated::new();
    let _messages = parse(diagnostic, "_.json", r#"{"hello": {"en": "Hello", "unk": "Hello"} }"#);
    assert!(diagnostic.assert_warnings(&["Span: language unk key hello is not known"]));
}

#[test]
fn basic_language_warning() {
    let diagnostic = &mut Simulated::new();
    let messages = parse(diagnostic, "_.json", r#"{"hello": {"en": "Hello", "unk": "Hello"} }"#);
    assert!(diagnostic.assert_warnings(&["Span: language unk key hello is not known"]));
    let m = messages.inner.get("hello").expect("hello is compiled");
    assert_eq!(m.iter(), vec![("en".to_string(), "Hello".to_string())]);
}

#[test]
fn mismatching_types() {
    let diagnostic = &mut Simulated::new();
    let _messages = parse(
        diagnostic,
        "_.json",
        r#"{"hello": {"en": "Hello %{name}", "de": "Hallo *{name}"} }"#,
    );
    assert!(diagnostic.assert_errors(&["Span: mismatching types for parameter name in key de"]));
}

#[test]
fn duplicate_typed_parameter() {
    let diagnostic = &mut Simulated::new();
    let _messages = parse(diagnostic, "_.json", r#"{"hello": {"en": "Hello *{name}/*{name}"} }"#);
    assert!(diagnostic.assert_errors(&["Span: duplicate use of a typed parameter: \"name\" in key hello.en"]));
}

#[test]
fn key_without_values() {
    let diagnostic = &mut Simulated::new();
    let _messages = parse(diagnostic, "_.json", r#"{"hello": {"en": "Hello"}, "world": {} }"#);
    assert!(diagnostic.assert_errors(&["Span: key world has no values"]));
}

#[test]
fn parse_error1() {
    let diagnostic = &mut Simulated::new();
    let _messages = parse(diagnostic, "_.json", r#"{"hello": {"en": "Hello %{"} }"#);
    assert!(diagnostic.assert_errors(&["Span: parse error in hello.en"]));
}

#[test]
fn parse_error2() {
    let diagnostic = &mut Simulated::new();
    let _messages = parse(diagnostic, "_.json", r#"{"hello": {"en": "Hello %{ %{"} }"#);
    assert!(diagnostic.assert_errors(&["Span: parse error in hello.en"]));
}

#[test]
fn bad_version() {
    let diagnostic = &mut Simulated::new();
    let _messages = parse(diagnostic, "_.json", r#"{"_version": 3, "hello": {"en": "Hello"} }"#);
    assert!(diagnostic.assert_errors(&["Span: _version is not 2"]));
}

#[test]
fn undecodable_content() {
    let diagnostic = &mut Simulated::new();
    let _messages = Messages::parse(
        diagnostic,
        Span::call_site(),
        &Parameters::run_new("x.yaml", "_"),
        &languages_en_de(),
        "",
        |yaml: bool, _c: &str| -> Result<TreeInput, String> {
            assert!(yaml);
            Err("broken".to_string())
        },
    );
    assert!(diagnostic.assert_errors(&["Span: Invalid YAML format, broken"]));
}

#[test]
fn nested_keys_join_with_separator() {
    let messages = Messages::run_parse(
        &Parameters::run_new("x.yaml", "_"),
        &languages_en_de(),
        "hello:\n  world:\n    en: Hello World\n  you:\n    en: Hello %{name}\n",
        decode,
    )
    .expect("no problems");
    let keys: Vec<&str> = messages.inner.keys().map(|k| k.as_str()).collect();
    assert_eq!(keys, vec!["hello_world", "hello_you"]);
    assert_eq!(messages.inner.get("hello_you").unwrap().path(), &vec!["hello".to_string(), "you".to_string()]);
}

#[test]
fn duplicate_flattened_key() {
    let diagnostic = &mut Simulated::new();
    let _messages = parse(diagnostic, "x.json", r#"{"a_b": {"en": "x"}, "a": {"b": {"en": "y"}}}"#);
    assert!(diagnostic.assert_errors(&["Span: duplicate key \"a_b\", created from [\"a\", \"b\"]"]));
}

#[test]
fn serde_output() {
    let messages = Messages::run_parse(
        &Parameters::run_new("_.json", "_"),
        &languages_en_de(),
        r#"{"hello": {"en": "Hello"} }"#,
        decode,
    )
    .expect("found errors/warnings");
    let flat = serialize(&messages.as_flat());
    let tree = serialize(&messages.as_tree());
    // the tree is still flat as the source is flat!
    assert_eq!(flat, tree);
    assert_eq!(flat, r#"{"_version":2,"hello":{"en":"Hello"}}"#);
}

#[test]
fn nested_tree_output() {
    let messages = Messages::run_parse(
        &Parameters::run_new("x.yaml", "_"),
        &languages_en_de(),
        "a:\n  b:\n    en: B\n  c:\n    en: C\n    de: Ce\n",
        decode,
    )
    .expect("no problems");
    assert_eq!(serialize(&messages.as_tree()), r#"{"_version":2,"a":{"b":{"en":"B"},"c":{"en":"C","de":"Ce"}}}"#);
    assert_eq!(serialize(&messages.as_flat()), r#"{"_version":2,"a_b":{"en":"B"},"a_c":{"en":"C","de":"Ce"}}"#);
}

#[test]
fn run_parse_reports_warnings_and_errors() {
    let recorder = Messages::run_parse(
        &Parameters::run_new("_.json", "_"),
        &languages_en_de(),
        r#"{"hello": {"en": "Hello %{", "unk": "x"}, "world": {}}"#,
        decode,
    )
    .err()
    .expect("problems are reported");
    assert!(recorder.assert_reported(
        &["Span: language unk key hello is not known"],
        &["Span: parse error in hello.en", "Span: key world has no values"],
    ));
    let recorder = Messages::run_parse(&Parameters::run_new("_.json", "_"), &languages_en_de(), "{}", decode)
        .err()
        .expect("no messages");
    assert!(recorder.assert_errors(&["Span: no messages found"]));
}

#[test]
fn run_into_reports_every_problem() {
    let recorder = RawLanguages(vec![
        Language::run_new("en", &["en", "xx"]),
        Language::run_new("en", &[]),
    ])
    .run_into()
    .err()
    .expect("problems");
    assert!(recorder.assert_errors(&[
        "Span: fallback of itself",
        "Span: unknown fallback: xx",
        "Span: language defined twice"
    ]));
}

#[test]
fn format_of_filename() {
    assert_eq!(CatalogFormat::of_filename("a/b.lrc").ok(), Some(CatalogFormat::Lrc));
    assert_eq!(CatalogFormat::of_filename("b.yaml").ok(), Some(CatalogFormat::Yaml));
    assert_eq!(CatalogFormat::of_filename("b.json").ok(), Some(CatalogFormat::Json));
    assert!(CatalogFormat::of_filename("b").is_err());
}
