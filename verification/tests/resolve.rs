use mdbook_i18n::config::BuildSettings;
use mdbook_i18n::config::ConfigError;
use mdbook_i18n::config::RenderConfig;
use mdbook_i18n::config::RenderInput;
use mdbook_i18n::config::RenderItem;
use mdbook_i18n::config::TryFromRenderContext;
use mdbook_i18n::config::parse_primary;
use mdbook_i18n::config::parse_translation;
use mdbook_i18n::orchestrator::BuildOrchestrator;
use mdbook_i18n::value::ConfValue;

fn s(x: &str) -> ConfValue {
    ConfValue::Str(x.to_string())
}

fn table(pairs: Vec<(&str, ConfValue)>) -> ConfValue {
    ConfValue::Table(pairs.into_iter().map(|(k, v)| (k.to_string(), v)).collect())
}

fn arr(items: Vec<ConfValue>) -> ConfValue {
    ConfValue::Array(items)
}

fn book_en() -> (&'static str, ConfValue) {
    ("book", table(vec![("language", s("en")), ("title", s("Book"))]))
}

fn entry(lang: &str, title: &str) -> ConfValue {
    table(vec![("language", s(lang)), ("title", s(title))])
}

fn with_translations(entries: Vec<ConfValue>) -> ConfValue {
    table(vec![
        book_en(),
        ("output", table(vec![("i18n", table(vec![("translations", arr(entries))]))])),
    ])
}

fn resolve(tree: ConfValue) -> Result<RenderConfig, TryFromRenderContext> {
    RenderConfig::try_from(RenderInput { root: "/project".to_string(), config: tree })
}

#[test]
fn primary_only_round_trip() {
    let tree = table(vec![book_en()]);
    let rc = resolve(tree).unwrap();
    assert_eq!(rc.0.len(), 1);
    let item = &rc.0[0];
    assert_eq!(item.language, "en");
    assert_eq!(item.root, "/project");
    assert_eq!(item.mdbook_config.book.language, "en");
    assert_eq!(item.mdbook_config.book.title, "Book");
    assert_eq!(item.mdbook_config.book.src, "src");
    assert_eq!(item.mdbook_config.renderer_options, ConfValue::Table(vec![]));
    assert_eq!(item.mdbook_config.build.build_dir, "book/html/en");
}

#[test]
fn translations_count_and_order() {
    let tree = with_translations(vec![entry("fr", "Livre"), entry("de", "Buch")]);
    let rc = resolve(tree).unwrap();
    assert_eq!(rc.0.len(), 3);
    assert_eq!(rc.0[0].language, "en");
    assert_eq!(rc.0[1].language, "fr");
    assert_eq!(rc.0[2].language, "de");
    assert_eq!(rc.0[1].mdbook_config.book.title, "Livre");
    assert_eq!(rc.0[2].mdbook_config.book.title, "Buch");
}

#[test]
fn translations_absent_is_single_language() {
    let tree = table(vec![book_en(), ("output", table(vec![]))]);
    let rc = resolve(tree).unwrap();
    assert_eq!(rc.0.len(), 1);
}

#[test]
fn empty_translations_array_is_single_language() {
    let rc = resolve(with_translations(vec![])).unwrap();
    assert_eq!(rc.0.len(), 1);
    assert_eq!(rc.0[0].language, "en");
}

#[test]
fn i18n_without_translations_key_is_single_language() {
    let tree = table(vec![book_en(), ("output", table(vec![("i18n", table(vec![]))]))]);
    let rc = resolve(tree).unwrap();
    assert_eq!(rc.0.len(), 1);
}

#[test]
fn first_duplicated_language_is_reported() {
    let tree = with_translations(vec![entry("fr", "Un"), entry("en", "Again"), entry("fr", "Deux")]);
    let err = resolve(tree).unwrap_err();
    assert_eq!(err, TryFromRenderContext(ConfigError::DuplicateLanguage("en".to_string())));
}

#[test]
fn duplicate_language_with_primary_fails() {
    let tree = with_translations(vec![entry("en", "Again")]);
    let err = resolve(tree).unwrap_err();
    assert_eq!(err, TryFromRenderContext(ConfigError::DuplicateLanguage("en".to_string())));
}

#[test]
fn duplicate_language_between_translations_fails() {
    let tree = with_translations(vec![entry("fr", "Un"), entry("fr", "Deux")]);
    let err = resolve(tree).unwrap_err();
    assert_eq!(err, TryFromRenderContext(ConfigError::DuplicateLanguage("fr".to_string())));
}

#[test]
fn default_src_derivation() {
    let tree = with_translations(vec![entry("fr", "Livre")]);
    let rc = resolve(tree).unwrap();
    assert_eq!(rc.0[1].mdbook_config.book.src, "translations/fr");
}

#[test]
fn explicit_src_kept() {
    let tree = with_translations(vec![table(vec![
        ("language", s("fr")),
        ("title", s("Livre")),
        ("src", s("custom/fr")),
    ])]);
    let rc = resolve(tree).unwrap();
    assert_eq!(rc.0[1].mdbook_config.book.src, "custom/fr");
}

#[test]
fn non_string_src_falls_back_to_default() {
    let tree = with_translations(vec![table(vec![
        ("language", s("fr")),
        ("title", s("Livre")),
        ("src", ConfValue::Int(3)),
    ])]);
    let rc = resolve(tree).unwrap();
    assert_eq!(rc.0[1].mdbook_config.book.src, "translations/fr");
}

#[test]
fn renderer_options_isolated_between_jobs() {
    let tree = table(vec![
        book_en(),
        (
            "output",
            table(vec![
                ("html", table(vec![("theme", s("navy"))])),
                ("i18n", table(vec![("translations", arr(vec![entry("fr", "Livre")]))])),
            ]),
        ),
    ]);
    let mut rc = resolve(tree).unwrap();
    let expected = table(vec![("theme", s("navy"))]);
    assert_eq!(rc.0[0].mdbook_config.renderer_options, expected);
    assert_eq!(rc.0[1].mdbook_config.renderer_options, expected);
    rc.0[0].mdbook_config.renderer_options = ConfValue::Bool(false);
    assert_eq!(rc.0[1].mdbook_config.renderer_options, expected);
}

#[test]
fn output_dirs_distinct_and_end_with_language() {
    let tree = with_translations(vec![entry("fr", "Livre"), entry("de", "Buch")]);
    let rc = resolve(tree).unwrap();
    let dirs: Vec<&String> = rc.0.iter().map(|i| &i.mdbook_config.build.build_dir).collect();
    for a in 0..dirs.len() {
        for b in 0..dirs.len() {
            if a != b {
                assert_ne!(dirs[a], dirs[b]);
            }
        }
        let lang = &rc.0[a].language;
        assert!(dirs[a].ends_with(&format!("/{}", lang)));
    }
}

#[test]
fn malformed_translations_not_an_array() {
    let tree = table(vec![
        book_en(),
        ("output", table(vec![("i18n", table(vec![("translations", s("oops"))]))])),
    ]);
    let err = resolve(tree).unwrap_err();
    assert_eq!(err, TryFromRenderContext(ConfigError::MalformedTranslations));
}

#[test]
fn malformed_translations_non_table_element() {
    let tree = with_translations(vec![entry("fr", "Livre"), ConfValue::Int(7)]);
    let err = resolve(tree).unwrap_err();
    assert_eq!(err, TryFromRenderContext(ConfigError::MalformedTranslations));
}

#[test]
fn malformed_translations_wins_over_missing_language() {
    let tree = table(vec![(
        "output",
        table(vec![("i18n", table(vec![("translations", s("oops"))]))]),
    )]);
    let err = resolve(tree).unwrap_err();
    assert_eq!(err, TryFromRenderContext(ConfigError::MalformedTranslations));
}

#[test]
fn missing_book_table_fails() {
    let err = resolve(table(vec![])).unwrap_err();
    assert_eq!(err, TryFromRenderContext(ConfigError::MissingPrimaryLanguage));
}

#[test]
fn missing_primary_language_fails() {
    let tree = table(vec![("book", table(vec![("title", s("Book"))]))]);
    let err = resolve(tree).unwrap_err();
    assert_eq!(err, TryFromRenderContext(ConfigError::MissingPrimaryLanguage));
}

#[test]
fn empty_primary_language_fails() {
    let tree = table(vec![("book", table(vec![("language", s("")), ("title", s("Book"))]))]);
    let err = resolve(tree).unwrap_err();
    assert_eq!(err, TryFromRenderContext(ConfigError::MissingPrimaryLanguage));
}

#[test]
fn malformed_entries_are_dropped() {
    let tree = with_translations(vec![
        entry("fr", "Livre"),
        table(vec![("language", s("es"))]),
        table(vec![("title", s("NoLang"))]),
        table(vec![("language", ConfValue::Int(5)), ("title", s("BadLang"))]),
        entry("de", "Buch"),
    ]);
    let rc = resolve(tree).unwrap();
    assert_eq!(rc.0.len(), 3);
    assert_eq!(rc.0[1].language, "fr");
    assert_eq!(rc.0[2].language, "de");
}

#[test]
fn authors_filter_non_strings() {
    let tree = with_translations(vec![table(vec![
        ("language", s("fr")),
        ("title", s("Livre")),
        ("authors", arr(vec![s("Alice"), ConfValue::Int(3), s("Bob")])),
    ])]);
    let rc = resolve(tree).unwrap();
    assert_eq!(rc.0[1].mdbook_config.book.authors, vec!["Alice".to_string(), "Bob".to_string()]);
}

#[test]
fn translators_absent_differs_from_empty() {
    let tree = with_translations(vec![
        entry("fr", "Livre"),
        table(vec![
            ("language", s("de")),
            ("title", s("Buch")),
            ("translators", arr(vec![])),
        ]),
        table(vec![
            ("language", s("es")),
            ("title", s("Libro")),
            ("translators", arr(vec![s("Eva")])),
        ]),
    ]);
    let rc = resolve(tree).unwrap();
    assert_eq!(rc.0[1].mdbook_config.book.translators, None);
    assert_eq!(rc.0[2].mdbook_config.book.translators, Some(vec![]));
    assert_eq!(rc.0[3].mdbook_config.book.translators, Some(vec!["Eva".to_string()]));
}

#[test]
fn non_string_description_dropped() {
    let tree = with_translations(vec![table(vec![
        ("language", s("fr")),
        ("title", s("Livre")),
        ("description", ConfValue::Bool(true)),
    ])]);
    let rc = resolve(tree).unwrap();
    assert_eq!(rc.0[1].mdbook_config.book.description, None);
}

#[test]
fn custom_build_dir_used() {
    let tree = table(vec![book_en(), ("build", table(vec![("build-dir", s("out"))]))]);
    let rc = resolve(tree).unwrap();
    assert_eq!(rc.0[0].mdbook_config.build.build_dir, "out/html/en");
}

#[test]
fn renderer_options_passed_verbatim() {
    let tree = table(vec![book_en(), ("output", table(vec![("html", ConfValue::Bool(true))]))]);
    let rc = resolve(tree).unwrap();
    assert_eq!(rc.0[0].mdbook_config.renderer_options, ConfValue::Bool(true));
}

#[test]
fn error_messages() {
    assert_eq!(
        TryFromRenderContext(ConfigError::MalformedTranslations).message(),
        "translations is not an array of tables"
    );
    assert_eq!(
        TryFromRenderContext(ConfigError::DuplicateLanguage("en".to_string())).message(),
        "duplicate language: en"
    );
    assert_eq!(
        TryFromRenderContext(ConfigError::MissingPrimaryLanguage).message(),
        "language for main book not found"
    );
}

#[test]
fn render_item_from_derives_output_dir() {
    let book = parse_translation(&entry("fr", "Livre")).unwrap();
    let item = RenderItem::from(
        book,
        BuildSettings { build_dir: "base".to_string() },
        "/r".to_string(),
        ConfValue::Bool(true),
        "fr".to_string(),
    );
    assert_eq!(item.mdbook_config.build.build_dir, "base/html/fr");
    assert_eq!(item.root, "/r");
    assert_eq!(item.language, "fr");
    assert_eq!(item.mdbook_config.renderer_options, ConfValue::Bool(true));
}

#[test]
fn parse_translation_defaults() {
    let meta = parse_translation(&entry("fr", "Livre")).unwrap();
    assert_eq!(meta.language, "fr");
    assert_eq!(meta.title, "Livre");
    assert_eq!(meta.authors, Vec::<String>::new());
    assert_eq!(meta.translators, None);
    assert_eq!(meta.description, None);
    assert_eq!(meta.src, "translations/fr");
}

#[test]
fn parse_translation_rejects_empty_language() {
    assert_eq!(parse_translation(&entry("", "Livre")), None);
}

#[test]
fn parse_primary_defaults() {
    let tree = table(vec![("book", table(vec![("language", s("en"))]))]);
    let meta = parse_primary(&tree).unwrap();
    assert_eq!(meta.language, "en");
    assert_eq!(meta.title, "");
    assert_eq!(meta.src, "src");
}

#[test]
fn orchestrator_short_circuits_on_failure() {
    let tree = with_translations(vec![entry("fr", "Livre"), entry("de", "Buch")]);
    let rc = resolve(tree).unwrap();
    assert_eq!(rc.0.len(), 3);
    let mut orch = BuildOrchestrator::new();
    let mut invocations = 0;
    while let Some(i) = orch.next_job(&rc) {
        invocations += 1;
        let outcome: Result<(), String> = if i == 1 { Err("engine broke".to_string()) } else { Ok(()) };
        orch.record(&rc, outcome);
    }
    assert_eq!(invocations, 2);
    let err = orch.outcome().unwrap_err();
    assert_eq!(err.language, "fr");
    assert_eq!(err.message, "engine broke");
}

#[test]
fn orchestrator_runs_all_jobs_in_order() {
    let tree = with_translations(vec![entry("fr", "Livre")]);
    let rc = resolve(tree).unwrap();
    let mut orch = BuildOrchestrator::new();
    let mut seen: Vec<usize> = Vec::new();
    while let Some(i) = orch.next_job(&rc) {
        seen.push(i);
        orch.record(&rc, Ok(()));
    }
    assert_eq!(seen, vec![0, 1]);
    assert!(orch.outcome().is_ok());
}
