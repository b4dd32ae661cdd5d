use proc_macro2::Span;
use typed_i18n::diagnostic::Simulated;
use typed_i18n::languages::{Language, LanguageProblem, RawLanguages};

fn span() -> Span {
    Span::call_site()
}

fn names(chain: &[String]) -> Vec<&str> {
    chain.iter().map(|s| s.as_str()).collect()
}

#[test]
fn raw_language_iter() {
    assert_eq!(
        RawLanguages(vec![Language::run_new("en", &[])])
            .iter()
            .map(|l| l.name.as_str())
            .collect::<Vec<_>>(),
        vec!["en"]
    );
}

#[test]
fn no_languages() {
    let diagnostic = &mut Simulated::new();
    let _ = RawLanguages(vec![]).into(diagnostic, span());
    assert!(diagnostic.assert_errors(&["Span: no languages found"]));
}

#[test]
fn duplicate_languages() {
    let diagnostic = &mut Simulated::new();
    let _ = RawLanguages(vec![
        Language::run_new("en", &[]),
        Language::run_new("en", &[]),
    ])
    .into(diagnostic, span());
    assert!(diagnostic.assert_errors(&["Span: language defined twice"]));
}

#[test]
fn fallback_itself() {
    let diagnostic = &mut Simulated::new();
    let _ = RawLanguages(vec![Language::run_new("en", &["en"])]).into(diagnostic, span());
    assert!(diagnostic.assert_errors(&["Span: fallback of itself"]));
}

#[test]
fn unknown_fallback() {
    let diagnostic = &mut Simulated::new();
    let _ =
        RawLanguages(vec![Language::run_new("en", &["alien"])]).into(diagnostic, span());
    assert!(diagnostic.assert_errors(&["Span: unknown fallback: alien"]));
}

#[test]
fn fallback_chains_are_permutations() {
    let raw = RawLanguages(vec![
        Language::run_new("en", &[]),
        Language::run_new("de", &["fr", "en"]),
        Language::run_new("fr", &["fr", "de", "de"]),
    ]);
    let (languages, problems) = raw.resolve();
    assert_eq!(problems.len(), 1);
    assert!(matches!(problems[0], LanguageProblem::SelfFallback(2)));
    let ls = languages.as_vec();
    assert_eq!(names(&ls[0].fallback), vec!["en", "de", "fr"]);
    assert_eq!(names(&ls[1].fallback), vec!["de", "fr", "en"]);
    assert_eq!(names(&ls[2].fallback), vec!["fr", "de", "en"]);
}

#[test]
fn first_language_is_default_when_none_declared() {
    let languages = RawLanguages(vec![
        Language::run_new("en", &[]),
        Language::run_new("de", &[]),
    ])
    .run_into()
    .expect("languages");
    let ls = languages.as_vec();
    assert!(ls[0].default);
    assert!(!ls[1].default);
}

#[test]
fn two_defaults_fail() {
    let mut en = Language::run_new("en", &[]);
    en.default = true;
    let mut de = Language::run_new("de", &[]);
    de.default = true;
    let diagnostic = &mut Simulated::new();
    let languages = RawLanguages(vec![en, de]).into(diagnostic, span());
    assert!(diagnostic.assert_errors(&["Span: found more than one default language"]));
    assert_eq!(languages.as_vec().len(), 2);
}

#[test]
fn run_new_derives_identifier() {
    let l = Language::run_new("en_au", &["en"]);
    assert_eq!(l.ident, "EnAu");
    assert_eq!(l.name, "en_au");
    assert_eq!(l.fallback, vec!["en".to_string()]);
    assert!(!l.default);
}

#[test]
fn declared_variant_options() {
    let (l, ok) = Language::declare("EnglishUs", span(), None, Some(" en, de  fr,,"), Some("true"));
    assert!(ok);
    assert_eq!(l.name, "english_us");
    assert_eq!(l.fallback, vec!["en".to_string(), "de".to_string(), "fr".to_string()]);
    assert!(l.default);
    let (l, ok) = Language::declare("De", span(), Some("deutsch".to_string()), None, Some("maybe"));
    assert!(!ok);
    assert_eq!(l.name, "deutsch");
    assert!(l.fallback.is_empty());
    assert!(!l.default);
}

#[test]
fn simulated_run() {
    let ok = Simulated::run(|_d: &mut Simulated| 7);
    assert_eq!(ok.ok(), Some(7));
    let failed = Simulated::run(|d: &mut Simulated| {
        let _ = RawLanguages(vec![]).into(d, span());
    });
    let recorder = failed.err().expect("an error was recorded");
    assert!(recorder.assert_errors(&["Span: no languages found"]));
}

#[test]
fn language_problem_messages() {
    assert_eq!(LanguageProblem::UnknownFallback(0, "xx".to_string()).message(), "unknown fallback: xx");
    assert_eq!(LanguageProblem::NoLanguages.message(), "no languages found");
    assert_eq!(LanguageProblem::Duplicate(1).language(), Some(1));
    assert_eq!(LanguageProblem::MultipleDefaults.language(), None);
}
