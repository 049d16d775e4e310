use hayagriva::citationberg::{FontStyle as CslFontStyle, VerticalAlign as CslVerticalAlign};
use hayagriva::{ElemChildren, ElemChild, Formatted, Formatting};
use hayagriva_ffi::document::{
    BibItem, Child, FontStyle, FontVariant, FontWeight, RenderedChild, RenderedChildren,
    RenderedCitation, RenderedDoc, TextDecoration, TextFormat, VerticalAlign, plain_formatting,
};
use hayagriva_ffi::json::{
    any_sup, bibliography_item_out, ends_with_whitespace, entries_to_json, list_locales,
    list_styles, plain_run, plain_text, render_result, run_from_formatting, runs,
    starts_with_whitespace, trim_end_str, trim_run_edges, trim_start_str, EntryOut, Run,
};

fn text(s: &str) -> Child {
    Child::Text { text: s.to_string(), formatting: plain_formatting() }
}

fn styled(s: &str, formatting: TextFormat) -> Child {
    Child::Text { text: s.to_string(), formatting }
}

fn italic() -> TextFormat {
    TextFormat { font_style: FontStyle::Italic, ..plain_formatting() }
}

fn sup() -> TextFormat {
    TextFormat { vertical_align: VerticalAlign::Sup, ..plain_formatting() }
}

fn texts(runs: &[Run]) -> Vec<String> {
    runs.iter().map(|r| r.text.clone()).collect()
}

/// A text node as hayagriva renders it.
fn h(s: &str, italic: bool, sup: bool) -> ElemChild {
    let formatting = Formatting {
        font_style: if italic { CslFontStyle::Italic } else { CslFontStyle::Normal },
        vertical_align: if sup { CslVerticalAlign::Sup } else { CslVerticalAlign::None },
        ..Formatting::default()
    };
    ElemChild::Text(Formatted { text: s.to_string(), formatting })
}

fn children(nodes: Vec<ElemChild>) -> RenderedChildren {
    RenderedChildren::new(ElemChildren(nodes))
}

fn child(node: ElemChild) -> RenderedChild {
    RenderedChild::new(node)
}

#[test]
fn runs_carry_their_formatting() {
    let bold = TextFormat { font_weight: FontWeight::Bold, ..plain_formatting() };
    let run = run_from_formatting("x".to_string(), &bold, Some("https://e.org".to_string()));
    assert_eq!(run.font_weight, "bold");
    assert!(!run.italic);
    assert_eq!(run.vertical_align, "none");
    assert_eq!(run.url.as_deref(), Some("https://e.org"));
    let small = TextFormat {
        font_variant: FontVariant::SmallCaps,
        text_decoration: TextDecoration::Underline,
        vertical_align: VerticalAlign::Sub,
        font_weight: FontWeight::Light,
        ..plain_formatting()
    };
    let run = run_from_formatting("y".to_string(), &small, None);
    assert!(run.small_caps && run.underline);
    assert_eq!(run.vertical_align, "sub");
    assert_eq!(run.font_weight, "light");
    let plain = plain_run("z".to_string());
    assert_eq!(plain.text, "z");
    assert!(!plain.italic && !plain.small_caps && !plain.underline);
    assert_eq!(plain.font_weight, "normal");
    assert!(plain.url.is_none());
}

#[test]
fn nested_elements_flatten_into_runs() {
    let tree = vec![
        text("A "),
        Child::Elem { children: vec![styled("B", italic()), Child::Markup { text: "$x$".to_string() }], display: None },
        Child::Transparent { formatting: plain_formatting() },
        Child::Link { text: "C".to_string(), formatting: plain_formatting(), url: "u".to_string() },
    ];
    let rs = runs(&tree);
    assert_eq!(texts(&rs), vec!["A ", "B", "$x$", "C"]);
    assert!(rs[1].italic);
    assert_eq!(rs[3].url.as_deref(), Some("u"));
    assert_eq!(plain_text(&tree), "A B$x$C");
    assert!(!any_sup(&tree));
    let raised = vec![Child::Elem { children: vec![styled("1", sup())], display: None }];
    assert!(any_sup(&raised));
}

#[test]
fn trimming_runs_drops_blank_edge_runs() {
    let mut rs = vec![
        plain_run(" ".to_string()),
        plain_run("  a ".to_string()),
        plain_run("b  ".to_string()),
        plain_run("\t".to_string()),
    ];
    trim_run_edges(&mut rs);
    assert_eq!(texts(&rs), vec!["a ", "b"]);
    let mut blank = vec![plain_run(" ".to_string()), plain_run("\n".to_string())];
    trim_run_edges(&mut blank);
    assert!(blank.is_empty());
}

#[test]
fn trimmed_runs_read_as_the_trimmed_text() {
    let mut rs = vec![plain_run("  x".to_string()), plain_run(" y ".to_string()), plain_run(" ".to_string())];
    let whole: String = texts(&rs).concat();
    trim_run_edges(&mut rs);
    assert_eq!(texts(&rs).concat(), whole.trim());
}

#[test]
fn white_space_at_run_edges() {
    let rs = vec![plain_run(" a".to_string()), plain_run("b\u{a0}".to_string())];
    assert!(starts_with_whitespace(&rs));
    assert!(ends_with_whitespace(&rs));
    let rs = vec![plain_run("a".to_string())];
    assert!(!starts_with_whitespace(&rs) && !ends_with_whitespace(&rs));
    assert!(!starts_with_whitespace(&[]));
    assert_eq!(trim_start_str("\u{3000} a "), "a ");
    assert_eq!(trim_end_str(" a \r\n"), " a");
}

#[test]
fn bibliography_prefix_is_separated_from_content() {
    let item = BibItem {
        key: "k".to_string(),
        first_field: Some(child(h("[1]", false, false))),
        content: children(vec![h(" Doe. ", false, false), h("Title", true, false), h(". ", false, false)]),
    };
    let out = bibliography_item_out(&item);
    assert_eq!(out.key, "k");
    assert_eq!(texts(&out.prefix_runs), vec!["[1] "]);
    assert!(!out.prefix_runs[0].italic && out.prefix_runs[0].url.is_none());
    assert_eq!(texts(&out.runs), vec!["Doe. ", "Title", "."]);

    let spaced = BibItem {
        key: "k".to_string(),
        first_field: Some(child(h("[2] ", false, false))),
        content: children(vec![h("Doe.", false, false)]),
    };
    assert_eq!(texts(&bibliography_item_out(&spaced).prefix_runs), vec!["[2] "]);

    let apart = BibItem {
        key: "k".to_string(),
        first_field: Some(child(h("[3]", false, false))),
        content: children(vec![h(" Doe.", false, false)]),
    };
    assert_eq!(texts(&bibliography_item_out(&apart).prefix_runs), vec!["[3] "]);

    let bare = BibItem { key: "k".to_string(), first_field: None, content: children(vec![h("Doe.", false, false)]) };
    assert!(bibliography_item_out(&bare).prefix_runs.is_empty());
}

#[test]
fn render_result_writes_the_documented_shape() {
    let doc = RenderedDoc {
        cited: Vec::new(),
        citations: vec![RenderedCitation {
            note_number: None,
            citation: children(vec![h("(Doe, ", false, false), h("2020)", false, false)]),
        }],
        bibliography: Some(vec![BibItem {
            key: "doe".to_string(),
            first_field: None,
            content: children(vec![h("Hi", true, false)]),
        }]),
    };
    assert_eq!(
        render_result(doc),
        [
            r#"{"citations":[{"text":"(Doe, 2020)","sup":false}],"#,
            r#""bibliography":{"items":[{"key":"doe","prefix_runs":[],"runs":["#,
            r#"{"text":"Hi","italic":true,"font_weight":"normal","small_caps":false,"#,
            r#""underline":false,"vertical_align":"none","url":null}]}]}}"#,
        ]
        .concat()
    );
    let empty = RenderedDoc { citations: Vec::new(), cited: Vec::new(), bibliography: None };
    assert_eq!(render_result(empty), r#"{"citations":[],"bibliography":{"items":[]}}"#);
}

#[test]
fn superscript_citations_are_flagged() {
    let doc = RenderedDoc {
        cited: Vec::new(),
        citations: vec![RenderedCitation { note_number: None, citation: children(vec![h("1", false, true)]) }],
        bibliography: None,
    };
    assert_eq!(render_result(doc), r#"{"citations":[{"text":"1","sup":true}],"bibliography":{"items":[]}}"#);
}

#[test]
fn style_and_locale_lists_as_json() {
    let styles = vec![
        ("apa".to_string(), "APA Style".to_string(), None),
        ("gb".to_string(), "GB \"numeric\"".to_string(), Some("zh-CN".to_string())),
    ];
    assert_eq!(
        list_styles(&styles),
        [
            r#"[{"key":"apa","display_name":"APA Style","default_locale":null},"#,
            r#"{"key":"gb","display_name":"GB \"numeric\"","default_locale":"zh-CN"}]"#,
        ]
        .concat()
    );
    assert_eq!(list_styles(&[]), "[]");
    let locales = vec!["en-US".to_string(), "a\\b\n\u{1}".to_string()];
    assert_eq!(list_locales(&locales), r#"["en-US","a\\b\n\u0001"]"#);
}

#[test]
fn entries_as_json() {
    let entries = vec![EntryOut {
        key: "banks".to_string(),
        title: Some("MQTT".to_string()),
        authors: vec!["A. Banks".to_string(), "R. Gupta".to_string()],
        year: Some(-44),
        container_title: None,
        volume: Some("45".to_string()),
        issue: None,
        page_range: Some("1–2".to_string()),
    }];
    assert_eq!(
        entries_to_json(&entries),
        [
            r#"[{"key":"banks","title":"MQTT","authors":["A. Banks","R. Gupta"],"year":-44,"#,
            r#""container_title":null,"volume":"45","issue":null,"page_range":"1–2"}]"#,
        ]
        .concat()
    );
}
