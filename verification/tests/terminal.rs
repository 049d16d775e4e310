use hayagriva::citationberg::{Display, FontStyle as CslFontStyle, VerticalAlign as CslVerticalAlign};
use hayagriva::{Elem, ElemChild, ElemChildren, Formatted, Formatting};
use hayagriva_ffi::cli::OutputFormat;
use hayagriva_ffi::document::{
    BibItem, Child, ElemDisplay, FontStyle, RenderedChild, RenderedChildren, RenderedCitation,
    RenderedDoc, TextFormat, VerticalAlign, plain_formatting,
};
use hayagriva_ffi::terminal::{bibliography_item_text, rendered_lines, style_heading};

/// A text node as plain values and as hayagriva has it.
fn text(s: &str, italic: bool, sup: bool) -> (Child, ElemChild) {
    let formatting = TextFormat {
        font_style: if italic { FontStyle::Italic } else { FontStyle::Normal },
        vertical_align: if sup { VerticalAlign::Sup } else { VerticalAlign::NoAlign },
        ..plain_formatting()
    };
    let written = Formatting {
        font_style: if italic { CslFontStyle::Italic } else { CslFontStyle::Normal },
        vertical_align: if sup { CslVerticalAlign::Sup } else { CslVerticalAlign::None },
        ..Formatting::default()
    };
    (
        Child::Text { text: s.to_string(), formatting },
        ElemChild::Text(Formatted { text: s.to_string(), formatting: written }),
    )
}

fn children(nodes: Vec<(Child, ElemChild)>) -> RenderedChildren {
    let (models, written): (Vec<Child>, Vec<ElemChild>) = nodes.into_iter().unzip();
    let rendered = RenderedChildren::new(ElemChildren(written));
    assert_eq!(rendered.nodes().len(), models.len());
    rendered
}

fn block(nodes: Vec<(Child, ElemChild)>) -> (Child, ElemChild) {
    let (children, written): (Vec<Child>, Vec<ElemChild>) = nodes.into_iter().unzip();
    (
        Child::Elem { children, display: Some(ElemDisplay::Block) },
        ElemChild::Elem(Elem { children: ElemChildren(written), display: Some(Display::Block), meta: None }),
    )
}

fn item(first: Option<&str>, content: Vec<(Child, ElemChild)>) -> BibItem {
    BibItem {
        key: "k".to_string(),
        first_field: first.map(|f| {
            let (_, written) = text(f, false, false);
            RenderedChild::new(written)
        }),
        content: children(content),
    }
}

#[test]
fn plain_bibliography_lines() {
    let entry = item(Some("[1]"), vec![text("Doe, J. ", false, false), text("Title", true, false), text(". ", false, false)]);
    assert_eq!(bibliography_item_text(&entry, OutputFormat::Plain), "[1] Doe, J. Title.");
    let spaced = item(Some("[2] "), vec![text("Roe.", false, false)]);
    assert_eq!(bibliography_item_text(&spaced, OutputFormat::Plain), "[2] Roe.");
    let bare = item(None, vec![text("  Roe.  ", false, false)]);
    assert_eq!(bibliography_item_text(&bare, OutputFormat::Plain), "Roe.");
}

#[test]
fn terminal_bibliography_lines_carry_escape_sequences() {
    let entry = item(Some("[1]"), vec![text("Doe. ", false, false), text("Title", true, false)]);
    assert_eq!(
        bibliography_item_text(&entry, OutputFormat::Vt100),
        "[1]\x1b[0m Doe. \x1b[0m\x1b[3mTitle\x1b[0m"
    );
}

#[test]
fn a_report_lists_citations_then_the_bibliography() {
    let doc = RenderedDoc {
        cited: Vec::new(),
        citations: vec![
            RenderedCitation { note_number: None, citation: children(vec![text("  (Doe 2020)", false, false)]) },
            RenderedCitation { note_number: Some(3), citation: children(vec![text("(Roe 2021)", false, false)]) },
        ],
        bibliography: Some(vec![item(None, vec![text("Doe. Title.", false, false)])]),
    };
    assert_eq!(
        rendered_lines(&None, &doc, OutputFormat::Plain),
        vec![
            "default-locale: en-US (fallback)",
            "-- cite --",
            "(Doe 2020)",
            "3.",
            "(Roe 2021)",
            "-- bibliography --",
            "Doe. Title.",
        ]
    );
}

#[test]
fn superscript_citations_mark_the_heading() {
    let doc = RenderedDoc {
        cited: Vec::new(),
        citations: vec![RenderedCitation { note_number: None, citation: children(vec![text("1", false, true)]) }],
        bibliography: None,
    };
    assert_eq!(
        rendered_lines(&Some("de-DE".to_string()), &doc, OutputFormat::Plain),
        vec!["default-locale: de-DE", "-- cite (sup) --", "1", "-- bibliography --"]
    );
}

#[test]
fn block_elements_stand_on_their_own_lines() {
    let doc = RenderedDoc {
        cited: Vec::new(),
        citations: vec![RenderedCitation {
            note_number: None,
            citation: children(vec![text("a", false, false), block(vec![text("b", false, false)])]),
        }],
        bibliography: None,
    };
    let lines = rendered_lines(&None, &doc, OutputFormat::Plain);
    assert_eq!(lines[2], "a\nb\n");
}

#[test]
fn headings_name_the_style_key() {
    assert_eq!(style_heading("APA Style 7th edition", "apa"), "== APA Style 7th edition [--style apa] ==");
}
