//! The rendered output of a citation style, as plain values: formatted text
//! runs nested in elements, for each citation and each bibliography entry.
//! It mirrors hayagriva's `Rendered`, `ElemChild` and `Formatting`; the
//! outside values are converted into it in `bindings`.

use vstd::prelude::*;
use hayagriva::{ElemChild, ElemChildren};
use crate::bindings::{rendered_child_from, rendered_children_from};

verus! {

/// Upright or italic text.
#[derive(Clone, Copy, PartialEq, Eq, Structural, Debug)]
pub enum FontStyle {
    Normal,
    Italic,
}

/// Normal or small-capital letters.
#[derive(Clone, Copy, PartialEq, Eq, Structural, Debug)]
pub enum FontVariant {
    Normal,
    SmallCaps,
}

/// Stroke weight of the text.
#[derive(Clone, Copy, PartialEq, Eq, Structural, Debug)]
pub enum FontWeight {
    Normal,
    Bold,
    Light,
}

/// Whether the text is underlined.
#[derive(Clone, Copy, PartialEq, Eq, Structural, Debug)]
pub enum TextDecoration {
    /// No decoration (CSL `none`).
    NoDecoration,
    Underline,
}

/// Vertical position of the text.
#[derive(Clone, Copy, PartialEq, Eq, Structural, Debug)]
pub enum VerticalAlign {
    /// No vertical alignment (CSL `none`).
    NoAlign,
    Baseline,
    Sup,
    Sub,
}

/// How a piece of text is set.
#[derive(Clone, Copy, PartialEq, Eq, Structural, Debug)]
pub struct TextFormat {
    pub font_style: FontStyle,
    pub font_variant: FontVariant,
    pub font_weight: FontWeight,
    pub text_decoration: TextDecoration,
    pub vertical_align: VerticalAlign,
}

/// The formatting of plain text: every property at its default.
pub open spec fn plain_formatting_spec() -> TextFormat {
    TextFormat {
        font_style: FontStyle::Normal,
        font_variant: FontVariant::Normal,
        font_weight: FontWeight::Normal,
        text_decoration: TextDecoration::NoDecoration,
        vertical_align: VerticalAlign::NoAlign,
    }
}

/// The formatting of plain text (hayagriva's `Formatting::default()`).
pub fn plain_formatting() -> (f: TextFormat)
    ensures
        f == plain_formatting_spec(),
{
    TextFormat {
        font_style: FontStyle::Normal,
        font_variant: FontVariant::Normal,
        font_weight: FontWeight::Normal,
        text_decoration: TextDecoration::NoDecoration,
        vertical_align: VerticalAlign::NoAlign,
    }
}

/// How an element is laid out (CSL `display`).
#[derive(Clone, Copy, PartialEq, Eq, Structural, Debug)]
pub enum ElemDisplay {
    /// A block from margin to margin.
    Block,
    /// In the left margin.
    LeftMargin,
    /// Aligned after a left-margin element.
    RightInline,
    /// A block, indented.
    Indent,
}

/// One node of rendered output.
pub enum Child {
    /// Formatted text.
    Text { text: String, formatting: TextFormat },
    /// A nested element, laid out inline when it has no display.
    Elem { children: Vec<Child>, display: Option<ElemDisplay> },
    /// Markup for a math renderer, carried as its source.
    Markup { text: String },
    /// Formatted anchor text of a link.
    Link { text: String, formatting: TextFormat, url: String },
    /// A placeholder the consumer would resolve into a citation item.
    Transparent { formatting: TextFormat },
}

/// A rendered node: its plain values, and hayagriva's own value, which its
/// text writers take. Both are made together, from hayagriva's value, by
/// `new` or by the conversion of a rendering; the fields cannot be set
/// apart from outside this crate, so the plain values always mirror the
/// written one.
pub struct RenderedChild {
    pub(crate) child: Child,
    pub(crate) written: ElemChild,
}

impl View for RenderedChild {
    type V = Child;

    closed spec fn view(&self) -> Child {
        self.child
    }
}

impl RenderedChild {
    /// hayagriva's rendered node, with its plain values.
    pub fn new(written: ElemChild) -> (r: Self) {
        rendered_child_from(&written)
    }

    /// The node as plain values.
    pub fn node(&self) -> (node: &Child)
        ensures
            *node == self@,
    {
        &self.child
    }
}

/// Rendered nodes: their plain values, and hayagriva's own value, which its
/// text writers take. As with `RenderedChild`, both are made together from
/// hayagriva's value.
pub struct RenderedChildren {
    pub(crate) children: Vec<Child>,
    pub(crate) written: ElemChildren,
}

impl View for RenderedChildren {
    type V = Seq<Child>;

    closed spec fn view(&self) -> Seq<Child> {
        self.children@
    }
}

impl RenderedChildren {
    /// hayagriva's rendered nodes, with their plain values.
    pub fn new(written: ElemChildren) -> (r: Self) {
        rendered_children_from(&written)
    }

    /// The nodes as plain values.
    pub fn nodes(&self) -> (nodes: &Vec<Child>)
        ensures
            nodes@ == self@,
    {
        &self.children
    }
}

/// One rendered bibliography entry.
pub struct BibItem {
    /// The entry's key in the bibliography.
    pub key: String,
    /// The first field, set apart when the style aligns the second field.
    pub first_field: Option<RenderedChild>,
    /// The rendered entry.
    pub content: RenderedChildren,
}

/// One rendered citation.
pub struct RenderedCitation {
    /// The footnote number, for note styles.
    pub note_number: Option<usize>,
    /// The rendered citation.
    pub citation: RenderedChildren,
}

/// The rendered citations, in the order they were requested, and the
/// rendered bibliography, if the style has one.
pub struct RenderedDoc {
    pub citations: Vec<RenderedCitation>,
    /// The keys of the entries each citation was requested for, in order.
    pub cited: Vec<Vec<String>>,
    pub bibliography: Option<Vec<BibItem>>,
}

/// The keys each citation of a rendering was requested for, as plain
/// values.
pub open spec fn cited_view(doc: RenderedDoc) -> Seq<Seq<Seq<char>>> {
    doc.cited@.map_values(|g: Vec<String>| g@.map_values(|k: String| k@))
}

/// A rendered citation as plain values.
pub struct CitationView {
    pub note_number: Option<usize>,
    pub citation: Seq<Child>,
}

/// A rendered bibliography entry as plain values.
pub struct BibItemView {
    pub key: Seq<char>,
    pub first_field: Option<Child>,
    pub content: Seq<Child>,
}

/// What a style rendered, as plain values: the citations in the order they
/// were requested, and the bibliography entries, if the style has a
/// bibliography.
pub struct DocView {
    pub citations: Seq<CitationView>,
    pub bibliography: Option<Seq<BibItemView>>,
}

impl View for RenderedCitation {
    type V = CitationView;

    open spec fn view(&self) -> CitationView {
        CitationView { note_number: self.note_number, citation: self.citation@ }
    }
}

impl View for BibItem {
    type V = BibItemView;

    open spec fn view(&self) -> BibItemView {
        BibItemView {
            key: self.key@,
            first_field: match self.first_field {
                Some(c) => Some(c@),
                None => None,
            },
            content: self.content@,
        }
    }
}

impl View for RenderedDoc {
    type V = DocView;

    open spec fn view(&self) -> DocView {
        DocView {
            citations: self.citations@.map_values(|c: RenderedCitation| c@),
            bibliography: match self.bibliography {
                Some(items) => Some(items@.map_values(|item: BibItem| item@)),
                None => None,
            },
        }
    }
}

} // verus!
