use hayagriva_ffi::bibliography::{format_biblatex_error, BibError, BibErrorKind, ParseProblem, TokenKind};
use hayagriva_ffi::ctx::HayagrivaCtx;
use hayagriva_ffi::styles::{
    citation_format, ensure_locale_exists, list_locales, list_styles, locales_document_of,
    offered_styles, read_style, recommended_style_key, CitationFormatKind, StyleCandidate,
    StyleClassKind,
};

const BIB: &str = r#"
@article{banks,
  author = {Banks, A. and Gupta, R. and Other, C. and Last, D.},
  title = {MQTT Version 3.1.1},
  journal = {Journal of Networks},
  date = {2014},
}
@book{doe,
  author = {Doe, Jane},
  title = {A Book},
  date = {2020},
}
"#;

#[test]
fn a_new_context_has_nothing_loaded() {
    let ctx = HayagrivaCtx::new();
    assert_eq!(ctx.list_entries().unwrap_err(), "no bibliography loaded");
    assert_eq!(ctx.render(r#"[["banks"]]"#).unwrap_err(), "no bibliography loaded");
}

#[test]
fn rendering_needs_a_style() {
    let mut ctx = HayagrivaCtx::new();
    ctx.set_bib(BIB).unwrap();
    assert_eq!(ctx.render(r#"[["banks"]]"#).unwrap_err(), "no style set");
}

#[test]
fn unknown_styles_and_locales_are_refused() {
    let mut ctx = HayagrivaCtx::new();
    assert_eq!(
        ctx.set_style("no-such-style").unwrap_err(),
        "embedded style not found: `no-such-style`"
    );
    assert!(ctx.set_style("apa").is_ok());
    assert!(ctx.set_locale(Some("en-US")).is_ok());
    assert_eq!(ctx.set_locale(Some("xx-YY")).unwrap_err(), "embedded locale not found: `xx-YY`");
    assert!(ctx.set_locale(None).is_ok());
}

#[test]
fn entries_are_listed_in_bibliography_order() {
    let mut ctx = HayagrivaCtx::new();
    ctx.set_bib(BIB).unwrap();
    let json = ctx.list_entries().unwrap();
    assert!(json.starts_with(r#"[{"key":"banks","title":"MQTT Version 3.1.1","#));
    assert!(json.contains(r#""year":2014"#));
    assert!(json.contains(r#""container_title":"Journal of Networks""#));
    assert!(json.contains(r#"{"key":"doe","title":"A Book","#));
    assert!(json.find("\"banks\"").unwrap() < json.find("\"doe\"").unwrap());
}

#[test]
fn a_failed_bibliography_keeps_the_previous_one() {
    let mut ctx = HayagrivaCtx::new();
    ctx.set_bib(BIB).unwrap();
    let before = ctx.list_entries().unwrap();
    let error = ctx.set_bib("@article{broken,\n  title = {X}\n  date = {2020}\n}").unwrap_err();
    assert!(error.starts_with("biblatex "));
    assert!(error.contains(" at line "));
    assert_eq!(ctx.list_entries().unwrap(), before);
}

#[test]
fn render_reports_bad_groups_and_unknown_keys() {
    let mut ctx = HayagrivaCtx::new();
    ctx.set_bib(BIB).unwrap();
    ctx.set_style("apa").unwrap();
    assert_eq!(ctx.render("not json").unwrap_err(), "invalid citation groups JSON: miniserde error");
    assert_eq!(ctx.render(r#"[["banks"],"x"]"#).unwrap_err(), "invalid citation groups JSON: miniserde error");
    assert_eq!(
        ctx.render(r#"[["banks"],["nobody"]]"#).unwrap_err(),
        "citation key `nobody` was not found in the bibliography"
    );
}

#[test]
fn render_gives_one_citation_per_group() {
    let mut ctx = HayagrivaCtx::new();
    ctx.set_bib(BIB).unwrap();
    ctx.set_style("apa").unwrap();
    let json = ctx.render(r#"[["banks"],["doe"],["banks","doe"]]"#).unwrap();
    assert!(json.starts_with(r#"{"citations":[{"text":""#));
    assert_eq!(json.matches(r#""sup":"#).count(), 3);
    assert!(json.contains(r#""bibliography":{"items":[{"key":""#));
    assert!(json.contains(r#""key":"banks""#));
    assert!(json.contains(r#""key":"doe""#));
    assert!(json.contains("Banks"));
    let empty = ctx.render("[]").unwrap();
    assert!(empty.starts_with(r#"{"citations":[],"#));
}

#[test]
fn missing_comma_error_points_after_the_value() {
    let source = "title = {value} author = {Someone}";
    let offset = source.find("author").unwrap();
    let error = BibError {
        kind: BibErrorKind::Parse(ParseProblem::Expected(TokenKind::Comma)),
        span_start: offset,
        span_end: offset,
        kind_message: "expected comma".to_string(),
        display: String::new(),
    };
    assert_eq!(
        format_biblatex_error(&error, source),
        "biblatex parse error: expected comma at line 1, column 16\n  1 | title = {value}^ author = {Someone}"
    );
    let typed = BibError {
        kind: BibErrorKind::Type,
        span_start: 2,
        span_end: 4,
        kind_message: "bad date".to_string(),
        display: String::new(),
    };
    assert_eq!(
        format_biblatex_error(&typed, "ab\ncd"),
        "biblatex type error: bad date at line 1, column 3\n  1 | ab^"
    );
}

#[test]
fn style_keys_prefer_the_shortest_name() {
    let names = vec!["apa-7".to_string(), "apa".to_string()];
    assert_eq!(recommended_style_key(&names), "apa");
    let tie = vec!["ieee".to_string(), "acm1".to_string(), "zz".to_string()];
    assert_eq!(recommended_style_key(&tie), "zz");
    let tie = vec!["ieee".to_string(), "acm1".to_string()];
    assert_eq!(recommended_style_key(&tie), "acm1");
}

#[test]
fn first_citation_format_category_names_the_format() {
    assert_eq!(citation_format(&vec![None, Some(CitationFormatKind::Numeric), Some(CitationFormatKind::Note)]), Some("numeric"));
    assert_eq!(citation_format(&vec![Some(CitationFormatKind::AuthorDate)]), Some("author-date"));
    assert_eq!(citation_format(&vec![None]), None);
}

fn candidate(names: &[&str], display: &str, class: Option<StyleClassKind>) -> StyleCandidate {
    StyleCandidate {
        names: names.iter().map(|n| n.to_string()).collect(),
        display_name: display.to_string(),
        class,
        default_locale: None,
        categories: vec![Some(CitationFormatKind::Label)],
    }
}

#[test]
fn offered_styles_are_in_text_styles_sorted_by_display_name() {
    let candidates = vec![
        candidate(&["zeta-style", "zeta"], "Zeta", Some(StyleClassKind::InText)),
        candidate(&["note-style"], "Alpha notes", Some(StyleClassKind::Note)),
        candidate(&["dependent"], "Beta", None),
        candidate(&["alpha"], "Alpha", Some(StyleClassKind::InText)),
        candidate(&["alpha-two"], "Alpha", Some(StyleClassKind::InText)),
    ];
    let listings = offered_styles(&candidates);
    let keys: Vec<&str> = listings.iter().map(|l| l.key.as_str()).collect();
    assert_eq!(keys, vec!["alpha", "alpha-two", "zeta"]);
    assert_eq!(listings[0].citation_format, Some("label"));
}

#[test]
fn embedded_styles_and_locales_are_listed() {
    let styles = list_styles();
    assert!(styles.starts_with("[{\"key\":"));
    assert!(styles.contains(r#""key":"apa""#));
    assert!(!styles.contains(r#""key":"chicago-notes""#));
    let locales = list_locales();
    assert!(locales.contains(r#""en-US""#));
    assert!(locales.contains(r#""de-DE""#));
    assert!(locales.find("\"de-DE\"").unwrap() < locales.find("\"en-US\"").unwrap());
}

#[test]
fn locale_lists_are_sorted_without_repeats() {
    let langs = vec![Some("zh-CN".to_string()), None, Some("en-US".to_string()), Some("en-US".to_string())];
    assert_eq!(locales_document_of(&langs), r#"["en-US","zh-CN"]"#);
    assert_eq!(ensure_locale_exists("en-US", &langs), Ok(()));
    assert_eq!(ensure_locale_exists("fr-FR", &langs), Err("embedded locale not found: `fr-FR`".to_string()));
}

#[test]
fn styles_are_read_by_name() {
    assert!(read_style("ieee").is_ok());
    assert_eq!(read_style("nope").err().unwrap(), "embedded style not found: `nope`");
}

#[test]
fn every_listed_style_key_can_be_chosen() {
    let styles = list_styles();
    let keys: Vec<&str> = styles.split(r#"{"key":""#).skip(1).map(|rest| rest.split('"').next().unwrap()).collect();
    assert!(keys.len() > 10);
    let mut ctx = HayagrivaCtx::new();
    for key in keys {
        assert_eq!(ctx.set_style(key), Ok(()), "style key {key}");
    }
}

#[test]
fn a_refused_setting_leaves_the_others_in_place() {
    let mut ctx = HayagrivaCtx::new();
    ctx.set_bib(BIB).unwrap();
    ctx.set_style("apa").unwrap();
    let before = ctx.render(r#"[["doe"]]"#).unwrap();
    assert!(ctx.set_locale(Some("xx-YY")).is_err());
    assert!(ctx.set_style("no-such-style").is_err());
    assert!(ctx.set_bib("@book{").is_err());
    assert_eq!(ctx.render(r#"[["doe"]]"#).unwrap(), before);
}

#[test]
fn entries_keep_their_fields_apart() {
    let mut ctx = HayagrivaCtx::new();
    ctx.set_bib("@inbook{vi, title = {T}, booktitle = {C}, volume = {45}, pages = {3--9}, date = {2014}}")
        .unwrap();
    let json = ctx.list_entries().unwrap();
    assert!(json.contains(r#""title":"T""#), "{json}");
    assert!(json.contains(r#""year":2014"#), "{json}");
    assert!(json.contains(r#""container_title":"C""#), "{json}");
    assert!(!json.contains(r#""volume":"2014""#), "{json}");
}

#[test]
fn every_listed_locale_can_be_chosen() {
    let locales = list_locales();
    let codes: Vec<&str> = locales.trim_matches(|c| c == '[' || c == ']').split(',').map(|c| c.trim_matches('"')).collect();
    assert!(codes.len() > 10);
    let mut ctx = HayagrivaCtx::new();
    for code in codes {
        assert_eq!(ctx.set_locale(Some(code)), Ok(()), "locale {code}");
    }
}

#[test]
fn rendering_again_gives_the_same_document() {
    let mut ctx = HayagrivaCtx::new();
    ctx.set_bib(BIB).unwrap();
    ctx.set_style("apa").unwrap();
    let first = ctx.render(r#"[["banks"],["doe"]]"#).unwrap();
    let second = ctx.render(r#"[["banks"],["doe"]]"#).unwrap();
    assert_eq!(first, second);
    let mut other = HayagrivaCtx::new();
    other.set_style("apa").unwrap();
    other.set_bib(BIB).unwrap();
    assert_eq!(other.render(r#"[["banks"],["doe"]]"#).unwrap(), first);
}

#[test]
fn the_style_shapes_the_rendering() {
    let mut ctx = HayagrivaCtx::new();
    ctx.set_bib(BIB).unwrap();
    ctx.set_style("apa").unwrap();
    let apa = ctx.render(r#"[["doe"]]"#).unwrap();
    ctx.set_style("ieee").unwrap();
    let ieee = ctx.render(r#"[["doe"]]"#).unwrap();
    assert_ne!(apa, ieee);
    assert!(ieee.contains("[1]"));
}


#[test]
fn listings_are_the_same_on_every_call() {
    assert_eq!(list_styles(), list_styles());
    let mut ctx = HayagrivaCtx::new();
    ctx.set_bib(BIB).unwrap();
    assert_eq!(ctx.list_entries().unwrap(), ctx.list_entries().unwrap());
}
