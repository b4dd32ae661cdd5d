use proc_macro2::Span;
use typed_i18n::attribute::Parameters;
use typed_i18n::diagnostic::Simulated;
use typed_i18n::languages::{Language, Languages, RawLanguages};
use typed_i18n::messages::Messages;
use typed_i18n::tree::TreeInput;

fn languages_en_de() -> Languages {
    RawLanguages(vec![
        Language::run_new("en", &[]),
        Language::run_new("de", &[]),
    ])
    .run_into()
    .expect("languages")
}

fn no_tree(_yaml: bool, _content: &str) -> Result<TreeInput, String> {
    Err("no tree".to_string())
}

fn parse_lrc(diagnostic: &mut Simulated, content: &str) -> Messages {
    Messages::parse(
        diagnostic,
        Span::call_site(),
        &Parameters::run_new("_.lrc", "_"),
        &languages_en_de(),
        content,
        no_tree,
    )
}

#[test]
fn duplicate_key1() {
    let diagnostic = &mut Simulated::new();
    let _messages = parse_lrc(
        diagnostic,
        r#"
# hello
en Hello
# hello
en Hello
"#,
    );
    assert!(diagnostic.assert_errors(&["Span: duplicate key hello at line 3"]));
}

#[test]
fn duplicate_key2() {
    let diagnostic = &mut Simulated::new();
    let _messages = parse_lrc(
        diagnostic,
        r#"
# hello
en Hello
# hello
en Hello
# world
en world
"#,
    );
    assert!(diagnostic.assert_errors(&["Span: duplicate key hello at line 3"]));
}

#[test]
fn duplicate_language() {
    let diagnostic = &mut Simulated::new();
    let _messages = parse_lrc(
        diagnostic,
        r#"
# hello
en Hello
en Hello
"#,
    );
    assert!(diagnostic.assert_errors(&["Span: duplicate language en at line 3"]));
}

#[test]
fn value_without_key() {
    let diagnostic = &mut Simulated::new();
    let _messages = parse_lrc(
        diagnostic,
        r#"
en Error
# hello
en Hello
"#,
    );
    assert!(diagnostic.assert_errors(&["Span: value without key at line 1"]));
}

#[test]
fn duplicate_key_keeps_first_block() {
    let diagnostic = &mut Simulated::new();
    let messages = parse_lrc(diagnostic, "#hello\nen First\n#hello\nen Second\n");
    let m = messages.inner.get("hello").expect("hello");
    assert_eq!(m.iter(), vec![("en".to_string(), "First".to_string())]);
}

#[test]
fn comments_unknown_language_and_invalid_key() {
    let diagnostic = &mut Simulated::new();
    let messages = parse_lrc(
        diagnostic,
        "; comment\n/ also\n\n#hello\n  en   Hello  world \nxx Hi\nde\n#not a key\nen x\n",
    );
    assert!(diagnostic.assert_reported(
        &["Span: language xx at line 5 is not known"],
        &["Span: invalid key not a key at line 7"],
    ));
    let m = messages.inner.get("hello").expect("hello");
    assert_eq!(
        m.iter(),
        vec![
            ("en".to_string(), "Hello  world".to_string()),
            ("de".to_string(), "".to_string())
        ]
    );
}

#[test]
fn lrc_round_trip_text() {
    let messages = Messages::run_parse(
        &Parameters::run_new("x.lrc", "_"),
        &languages_en_de(),
        "#hello\nen Hello %{name}\nde Hallo\n#bye\nen Bye\n",
        no_tree,
    )
    .expect("no problems");
    assert_eq!(messages.to_lrc(), "#hello\nen Hello %{name}\nde Hallo\n\n#bye\nen Bye\n\n");
}
