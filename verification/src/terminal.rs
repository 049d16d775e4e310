//! Rendered output as the lines a terminal shows: each node written as
//! plain text or with VT100 escape sequences for its formatting, and the
//! report of one style (its default locale, its citations, its
//! bibliography).

use vstd::prelude::*;
use crate::bindings::{write_child, write_children};
use crate::chars::{append_chars, chars_of, decimal, decimal_chars, owned, string_from_chars};
use crate::cli::{trim_chars, trim_vec, OutputFormat};
use crate::document::{
    BibItem, BibItemView, Child, CitationView, DocView, ElemDisplay, FontStyle, FontWeight,
    RenderedCitation, RenderedDoc,
    TextDecoration, TextFormat,
};
use crate::json::{any_sup, children_any_sup, doc_items, opt_view, trim_start_chars, trim_start_str};

verus! {

/// The VT100 sequences that start text set in `f`: italic, then bold or
/// light, then underline, each only where `f` asks for it.
pub open spec fn vt100_start(f: TextFormat) -> Seq<char> {
    (if f.font_style == FontStyle::Italic {
        "\x1b[3m"@
    } else {
        seq![]
    }) + (if f.font_weight == FontWeight::Bold {
        "\x1b[1m"@
    } else if f.font_weight == FontWeight::Light {
        "\x1b[2m"@
    } else {
        seq![]
    }) + (if f.text_decoration == TextDecoration::Underline {
        "\x1b[4m"@
    } else {
        seq![]
    })
}

/// The VT100 sequence that resets the formatting.
pub open spec fn vt100_reset() -> Seq<char> {
    "\x1b[0m"@
}

/// `text` set in `f`: bare in plain text, between the start and reset
/// sequences in VT100.
pub open spec fn formatted_text(text: Seq<char>, f: TextFormat, vt100: bool) -> Seq<char> {
    if vt100 {
        vt100_start(f) + text + vt100_reset()
    } else {
        text
    }
}

/// One node as text: text and link anchors formatted, markup as its source,
/// placeholders as nothing, elements as their children (a block element
/// between line feeds).
pub open spec fn child_text(child: Child, vt100: bool) -> Seq<char>
    decreases child,
{
    match child {
        Child::Text { text, formatting } => formatted_text(text@, formatting, vt100),
        Child::Elem { children, display } => {
            let inner = children_text(children@, vt100);
            if display == Some(ElemDisplay::Block) {
                seq!['\n'] + inner + seq!['\n']
            } else {
                inner
            }
        },
        Child::Markup { text } => text@,
        Child::Link { text, formatting, .. } => formatted_text(text@, formatting, vt100),
        Child::Transparent { .. } => seq![],
    }
}

/// Nodes as text, one after the other.
pub open spec fn children_text(children: Seq<Child>, vt100: bool) -> Seq<char>
    decreases children,
{
    if children.len() == 0 {
        seq![]
    } else {
        children_text(children.drop_last(), vt100) + child_text(children.last(), vt100)
    }
}

/// The text before an entry's content: its set-apart first field followed
/// by a space (unless it already ends with one), or nothing.
pub open spec fn item_head(item: BibItemView, vt100: bool) -> Seq<char> {
    match item.first_field {
        Some(first) => {
            let t = child_text(first, vt100);
            if t.len() > 0 && t.last() == ' ' {
                t
            } else {
                t.push(' ')
            }
        },
        None => seq![],
    }
}

/// A bibliography entry as one line of text: its head and its content,
/// without white space at either end.
pub open spec fn item_text(item: BibItemView, vt100: bool) -> Seq<char> {
    trim_chars(item_head(item, vt100) + children_text(item.content, vt100))
}

/// A bibliography entry as one line of text (see `item_text`).
pub fn bibliography_item_text(item: &BibItem, format: OutputFormat) -> (text: String)
    ensures
        text@ == item_text(item@, format == OutputFormat::Vt100),
{
    let ghost vt100 = format == OutputFormat::Vt100;
    let mut out: Vec<char> = Vec::new();
    match &item.first_field {
        Some(first) => {
            let written = write_child(first, format);
            out = chars_of(written.as_str());
            if out.len() == 0 || out[out.len() - 1] != ' ' {
                out.push(' ');
            }
        },
        None => {},
    }
    proof {
        assert(out@ == item_head(item@, vt100));
    }
    let content = write_children(&item.content, format);
    let content_chars = chars_of(content.as_str());
    append_chars(&mut out, &content_chars);
    let trimmed = trim_vec(&out);
    string_from_chars(&trimmed)
}

/// The line that opens a style's report.
pub open spec fn default_locale_line(default_locale: Option<Seq<char>>) -> Seq<char> {
    "default-locale: "@ + match default_locale {
        Some(code) => code,
        None => "en-US (fallback)"@,
    }
}

/// The heading of the citations: marked when some citation is superscript.
pub open spec fn cite_heading(sup: bool) -> Seq<char> {
    if sup {
        "-- cite (sup) --"@
    } else {
        "-- cite --"@
    }
}

/// The heading of the bibliography.
pub open spec fn bibliography_heading() -> Seq<char> {
    "-- bibliography --"@
}

/// Whether some citation holds superscript text.
pub open spec fn any_citation_sup(rows: Seq<CitationView>) -> bool {
    exists|i: int| 0 <= i < rows.len() && #[trigger] children_any_sup(rows[i].citation)
}

/// The lines of one citation: its note number and a period, for note styles,
/// then its text without leading white space.
pub open spec fn citation_row_lines(row: CitationView, vt100: bool) -> Seq<Seq<char>> {
    let text = trim_start_chars(children_text(row.citation, vt100));
    match row.note_number {
        Some(n) => seq![decimal(n as nat).push('.'), text],
        None => seq![text],
    }
}

/// The lines of the citations, in order.
pub open spec fn citation_lines(rows: Seq<CitationView>, vt100: bool) -> Seq<Seq<char>>
    decreases rows.len(),
{
    if rows.len() == 0 {
        seq![]
    } else {
        citation_lines(rows.drop_last(), vt100) + citation_row_lines(rows.last(), vt100)
    }
}

/// The report of one style: the default-locale line, the citation heading,
/// the citations, the bibliography heading and one line per entry.
pub open spec fn report_lines(default_locale: Option<Seq<char>>, doc: DocView, vt100: bool) -> Seq<
    Seq<char>,
> {
    seq![default_locale_line(default_locale), cite_heading(any_citation_sup(doc.citations))]
        + citation_lines(doc.citations, vt100) + seq![bibliography_heading()] + doc_items(
        doc,
    ).map_values(|item: BibItemView| item_text(item, vt100))
}

/// The plain values of lines.
pub open spec fn lines_view(lines: Seq<String>) -> Seq<Seq<char>> {
    lines.map_values(|l: String| l@)
}

/// Appends a line.
pub fn push_line(lines: &mut Vec<String>, line: String)
    ensures
        lines_view(final(lines)@) == lines_view(old(lines)@).push(line@),
{
    let ghost before = lines@;
    lines.push(line);
    proof {
        assert(lines_view(lines@) =~= lines_view(before).push(line@));
    }
}

/// Whether some citation holds superscript text.
fn citations_sup(rows: &Vec<RenderedCitation>) -> (sup: bool)
    ensures
        sup == any_citation_sup(rows@.map_values(|c: RenderedCitation| c@)),
{
    let mut i: usize = 0;
    while i < rows.len()
        invariant
            i <= rows.len(),
            forall|k: int| 0 <= k < i ==> !#[trigger] children_any_sup(rows@[k].citation@),
        decreases rows.len() - i,
    {
        if any_sup(rows[i].citation.nodes()) {
            proof {
                assert(children_any_sup(rows@[i as int].citation@));
                assert(rows@.map_values(|c: RenderedCitation| c@)[i as int].citation
                    == rows@[i as int].citation@);
            }
            return true;
        }
        i = i + 1;
    }
    proof {
        let rv = rows@.map_values(|c: RenderedCitation| c@);
        assert forall|k: int| 0 <= k < rv.len() implies !children_any_sup(#[trigger] rv[k].citation) by {
            assert(rv[k].citation == rows@[k].citation@);
        }
    }
    false
}

/// Appends the lines of the citations (see `citation_lines`).
fn push_citation_lines(lines: &mut Vec<String>, rows: &Vec<RenderedCitation>, format: OutputFormat)
    ensures
        lines_view(final(lines)@) == lines_view(old(lines)@) + citation_lines(
            rows@.map_values(|c: RenderedCitation| c@),
            format == OutputFormat::Vt100,
        ),
{
    let ghost vt100 = format == OutputFormat::Vt100;
    let ghost start = lines_view(lines@);
    let ghost rv = rows@.map_values(|c: RenderedCitation| c@);
    let mut i: usize = 0;
    proof {
        assert(rv.take(0) =~= Seq::<CitationView>::empty());
        assert(start + citation_lines(rv.take(0), vt100) =~= start);
    }
    while i < rows.len()
        invariant
            i <= rows.len(),
            vt100 == (format == OutputFormat::Vt100),
            rv == rows@.map_values(|c: RenderedCitation| c@),
            lines_view(lines@) == start + citation_lines(rv.take(i as int), vt100),
        decreases rows.len() - i,
    {
        let ghost before = lines_view(lines@);
        let row = &rows[i];
        match row.note_number {
            Some(n) => {
                let mut number = decimal_chars(n);
                number.push('.');
                push_line(lines, string_from_chars(&number));
            },
            None => {},
        }
        let written = write_children(&row.citation, format);
        let text = trim_start_str(written.as_str());
        push_line(lines, text);
        proof {
            assert(rv.take(i + 1).drop_last() =~= rv.take(i as int));
            assert(rv.take(i + 1).last() == rv[i as int]);
            assert(lines_view(lines@) =~= before + citation_row_lines(rv[i as int], vt100));
        }
        i = i + 1;
    }
    proof {
        assert(rv.take(i as int) =~= rv);
    }
}

/// Appends one line per bibliography entry.
fn push_item_lines(lines: &mut Vec<String>, items: &Vec<BibItem>, format: OutputFormat)
    ensures
        lines_view(final(lines)@) == lines_view(old(lines)@) + items@.map_values(
            |item: BibItem| item_text(item@, format == OutputFormat::Vt100),
        ),
{
    let ghost vt100 = format == OutputFormat::Vt100;
    let ghost start = lines_view(lines@);
    let ghost texts = items@.map_values(|item: BibItem| item_text(item@, vt100));
    let mut i: usize = 0;
    proof {
        assert(start + texts.take(0) =~= start);
    }
    while i < items.len()
        invariant
            i <= items.len(),
            vt100 == (format == OutputFormat::Vt100),
            texts == items@.map_values(|item: BibItem| item_text(item@, vt100)),
            lines_view(lines@) == start + texts.take(i as int),
        decreases items.len() - i,
    {
        let text = bibliography_item_text(&items[i], format);
        push_line(lines, text);
        proof {
            assert(start + texts.take(i + 1) =~= (start + texts.take(i as int)).push(texts[i as int]));
        }
        i = i + 1;
    }
    proof {
        assert(texts.take(i as int) =~= texts);
    }
}

/// The report of one style (see `report_lines`), for a rendering and the
/// style's default locale.
pub fn rendered_lines(default_locale: &Option<String>, doc: &RenderedDoc, format: OutputFormat) -> (lines: Vec<
    String,
>)
    ensures
        lines_view(lines@) == report_lines(
            opt_view(*default_locale),
            doc@,
            format == OutputFormat::Vt100,
        ),
{
    let mut lines: Vec<String> = Vec::new();
    let mut first = chars_of("default-locale: ");
    match default_locale {
        Some(code) => {
            let c = chars_of(code.as_str());
            append_chars(&mut first, &c);
        },
        None => {
            let c = chars_of("en-US (fallback)");
            append_chars(&mut first, &c);
        },
    }
    proof {
        assert(lines_view(lines@) =~= Seq::<Seq<char>>::empty());
    }
    push_line(&mut lines, string_from_chars(&first));
    if citations_sup(&doc.citations) {
        push_line(&mut lines, owned("-- cite (sup) --"));
    } else {
        push_line(&mut lines, owned("-- cite --"));
    }
    push_citation_lines(&mut lines, &doc.citations, format);
    push_line(&mut lines, owned("-- bibliography --"));
    match &doc.bibliography {
        Some(items) => {
            push_item_lines(&mut lines, items, format);
            proof {
                assert(doc_items(doc@).map_values(
                    |item: BibItemView| item_text(item, format == OutputFormat::Vt100),
                ) =~= items@.map_values(|item: BibItem| item_text(item@, format == OutputFormat::Vt100)));
            }
        },
        None => {
            proof {
                assert(doc_items(doc@).map_values(
                    |item: BibItemView| item_text(item, format == OutputFormat::Vt100),
                ) =~= Seq::<Seq<char>>::empty());
                assert(lines_view(lines@) + Seq::<Seq<char>>::empty() =~= lines_view(lines@));
            }
        },
    }
    lines
}

/// The heading of one style when all embedded styles are reported: its
/// display name and the shortest name to select it by.
pub open spec fn style_heading_text(display_name: Seq<char>, key: Seq<char>) -> Seq<char> {
    "== "@ + display_name + " [--style "@ + key + "] =="@
}

/// The heading of one style (see `style_heading_text`).
pub fn style_heading(display_name: &str, key: &str) -> (heading: String)
    ensures
        heading@ == style_heading_text(display_name@, key@),
{
    let mut out = chars_of("== ");
    let d = chars_of(display_name);
    append_chars(&mut out, &d);
    let s = chars_of(" [--style ");
    append_chars(&mut out, &s);
    let k = chars_of(key);
    append_chars(&mut out, &k);
    let e = chars_of("] ==");
    append_chars(&mut out, &e);
    string_from_chars(&out)
}

} // verus!
