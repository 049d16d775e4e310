//! Every call this library makes into an outside crate goes through an item
//! of this module. Verus believes the contracts stated here; each doc comment
//! names the outside function and says what the contract claims of it.

use vstd::prelude::*;
use unicode_width::UnicodeWidthChar;
use crate::json::{json_string, json_integer, opt_view};
use crate::document::{
    BibItem, Child, DocView, ElemDisplay, FontStyle, FontVariant, FontWeight, TextFormat,
    RenderedCitation, RenderedChild, RenderedChildren, RenderedDoc, TextDecoration, VerticalAlign,
    cited_view,
};
use crate::cli::OutputFormat;
use crate::terminal::{child_text, children_text};
use crate::bibliography::{BibError, BibErrorKind, ParseProblem, TokenKind};
use crate::styles::{has_code, CitationFormatKind, StyleClassKind};
use hayagriva::{BibliographyDriver, BufWriteFormat, ElemChild, ElemChildren, Entry, Library, Rendered};
use hayagriva::archive::ArchivedStyle;
use hayagriva::citationberg::{IndependentStyle, Locale, LocaleCode, Style};
use hayagriva::io::BibLaTeXError;
use hayagriva::types::Person;
use hayagriva::citationberg as cb;

verus! {

/// The display width that `unicode_width` assigns to a single character
/// (`None` for control characters).
pub uninterp spec fn unicode_width_of(c: char) -> Option<usize>;

/// `<char as unicode_width::UnicodeWidthChar>::width`.
///
/// Claimed, as the crate's `lookup::single_char_width` shows: the result is
/// the named table value; characters below U+0020 and from U+007F up to (not
/// including) U+00A0 are control characters (`None`); U+0020 to U+007E have
/// width 1; from U+00A0 on there is always a width, read from a table of
/// `u8` values.
#[verifier::external_body]
pub(crate) fn unicode_char_width(c: char) -> (r: Option<usize>)
    ensures
        r == unicode_width_of(c),
        (c as u32) < 0x20 ==> r is None,
        0x20 <= (c as u32) < 0x7f ==> r == Some(1usize),
        0x7f <= (c as u32) < 0xa0 ==> r is None,
        0xa0 <= (c as u32) ==> r is Some,
        r matches Some(w) ==> w <= 255,
{
    UnicodeWidthChar::width(c)
}

/// `miniserde::json::to_string` on a string.
///
/// Claimed, as `escape_str` in miniserde's `json/ser.rs` shows: the string in
/// double quotes, with `"` and `\` escaped by a backslash, U+0008, U+0009,
/// U+000A, U+000C and U+000D written `\b`, `\t`, `\n`, `\f`, `\r`, the other
/// characters below U+0020 written `\u00` and two lower-case hex digits,
/// and every other character unchanged (`json_string`).
#[verifier::external_body]
pub(crate) fn json_quote(s: &str) -> (r: String)
    ensures
        r@ == json_string(s@),
{
    miniserde::json::to_string(s)
}

/// `miniserde::json::to_string` on an `i32`.
///
/// Claimed, as miniserde's serializer shows (it writes the number with
/// `itoa`): the decimal digits, preceded by `-` for a negative number
/// (`json_integer`).
#[verifier::external_body]
pub(crate) fn json_i32(n: i32) -> (r: String)
    ensures
        r@ == json_integer(n as int),
{
    miniserde::json::to_string(&n)
}

#[verifier::external_type_specification]
#[verifier::external_body]
pub struct ExLibrary(Library);

#[verifier::external_type_specification]
#[verifier::external_body]
pub struct ExEntry(Entry);

#[verifier::external_type_specification]
#[verifier::external_body]
pub struct ExPerson(Person);

#[verifier::external_type_specification]
#[verifier::external_body]
pub struct ExRendered(Rendered);

#[verifier::external_type_specification]
#[verifier::external_body]
pub struct ExElemChild(ElemChild);

#[verifier::external_type_specification]
#[verifier::external_body]
pub struct ExElemChildren(ElemChildren);

#[verifier::external_type_specification]
#[verifier::external_body]
pub struct ExFormatting(hayagriva::Formatting);

#[verifier::external_type_specification]
#[verifier::external_body]
pub struct ExBufWriteFormat(BufWriteFormat);

#[verifier::external_type_specification]
#[verifier::external_body]
pub struct ExDisplay(cb::Display);

#[verifier::external_type_specification]
#[verifier::external_body]
pub struct ExBibLaTeXError(BibLaTeXError);

#[verifier::external_type_specification]
#[verifier::external_body]
pub struct ExParseErrorKind(biblatex::ParseErrorKind);

#[verifier::external_type_specification]
#[verifier::external_body]
pub struct ExToken(biblatex::Token);

#[verifier::external_type_specification]
#[verifier::external_body]
pub struct ExArchivedStyle(ArchivedStyle);

#[verifier::external_type_specification]
#[verifier::external_body]
pub struct ExStyle(Style);

#[verifier::external_type_specification]
#[verifier::external_body]
pub struct ExIndependentStyle(IndependentStyle);

#[verifier::external_type_specification]
#[verifier::external_body]
pub struct ExLocale(Locale);

#[verifier::external_type_specification]
#[verifier::external_body]
pub struct ExStyleCategory(cb::StyleCategory);

#[verifier::external_type_specification]
#[verifier::external_body]
pub struct ExMiniserdeError(miniserde::Error);

/// A hayagriva `BibliographyDriver` over library entries, with the keys of
/// the entries of each citation added to it. Its entry-type bound names a
/// trait that hayagriva does not export, so the driver is held in this
/// opaque struct; its contents are named by `driver_requests`.
#[verifier::external_body]
pub struct DriverState<'a> {
    driver: BibliographyDriver<'a, Entry>,
    cited: Vec<Vec<String>>,
}

/// A driver for citations of the entries of one parsed bibliography, all
/// in one style and locale, with the BibLaTeX source of that bibliography,
/// the name of the style and the locale code.
pub struct CitationDriver<'a> {
    state: DriverState<'a>,
    source: Ghost<Seq<char>>,
    style: Ghost<Seq<char>>,
    locale: Ghost<Option<Seq<char>>>,
}

impl<'a> CitationDriver<'a> {
    /// The source of the bibliography whose entries are cited.
    pub closed spec fn source(&self) -> Seq<char> {
        self.source@
    }

    /// The name of the style the citations are rendered in.
    pub closed spec fn style(&self) -> Seq<char> {
        self.style@
    }

    /// The locale the citations are rendered in.
    pub closed spec fn locale(&self) -> Option<Seq<char>> {
        self.locale@
    }

    /// The entries of each citation added, in order.
    pub closed spec fn requests(&self) -> Seq<Seq<EntryFields>> {
        driver_requests(self.state)
    }

    /// A driver with no citations, for entries of `bibliography` in `style`
    /// and `locale`.
    pub fn new(bibliography: &Bibliography, style: &ChosenStyle, locale: &Option<String>) -> (driver: Self)
        ensures
            driver.source() == bibliography.source(),
            driver.style() == style@,
            driver.locale() == opt_view(*locale),
            driver.requests() == Seq::<Seq<EntryFields>>::empty(),
    {
        CitationDriver {
            state: driver_new(),
            source: Ghost(bibliography.source()),
            style: Ghost(style@),
            locale: Ghost(opt_view(*locale)),
        }
    }
}

/// An entry of a bibliography as plain values: its key, its title (the
/// canonical value, as text), its authors (each named given name first, in
/// full, with any prefix after the given name: `Person::name_first(false,
/// false)`), the year of its date, its volume, issue and page range (as
/// text), and its parents.
pub struct EntryFields {
    pub key: Seq<char>,
    pub title: Option<Seq<char>>,
    pub authors: Option<Seq<Seq<char>>>,
    pub year: Option<i32>,
    pub volume: Option<Seq<char>>,
    pub issue: Option<Seq<char>>,
    pub page_range: Option<Seq<char>>,
    pub parents: Seq<EntryFields>,
}

/// The entries of a library, in library order.
pub uninterp spec fn library_entries(library: Library) -> Seq<EntryFields>;

/// The keys of entries, in order.
pub open spec fn entry_keys(entries: Seq<EntryFields>) -> Seq<Seq<char>> {
    entries.map_values(|e: EntryFields| e.key)
}

/// The keys of a library's entries, in library order.
pub open spec fn library_keys(library: Library) -> Seq<Seq<char>> {
    entry_keys(library_entries(library))
}

/// The entries of each citation added to a driver, in order.
pub uninterp spec fn driver_requests(driver: DriverState<'_>) -> Seq<Seq<EntryFields>>;

/// `hayagriva::io::from_biblatex_str`, its errors converted to `BibError`.
pub uninterp spec fn biblatex_outcome(source: Seq<char>) -> Result<Seq<EntryFields>, Seq<BibError>>;

/// An entry of hayagriva, with what it holds as plain values and, for an
/// entry looked up in a parsed bibliography, the BibLaTeX source of that
/// bibliography. Made only by `library_nth`, `library_get` and
/// `entry_parents`, from the library.
pub struct EntryRef<'a> {
    entry: &'a Entry,
    fields: Ghost<EntryFields>,
    origin: Ghost<Option<Seq<char>>>,
}

impl<'a> EntryRef<'a> {
    /// `Some(source)` when the entry is the one the bibliography parsed from
    /// BibLaTeX `source` holds under the entry's key.
    pub closed spec fn origin(&self) -> Option<Seq<char>> {
        self.origin@
    }
}

/// A bibliography parsed from BibLaTeX source, with that source. Made only
/// by `parse_biblatex`.
pub struct Bibliography {
    library: Library,
    source: Ghost<Seq<char>>,
}

impl View for Bibliography {
    type V = Seq<EntryFields>;

    closed spec fn view(&self) -> Seq<EntryFields> {
        library_entries(self.library)
    }
}

impl Bibliography {
    /// The BibLaTeX source the bibliography was parsed from.
    pub closed spec fn source(&self) -> Seq<char> {
        self.source@
    }

    /// The hayagriva library.
    pub fn library(&self) -> (library: &Library)
        ensures
            library_entries(*library) == self@,
    {
        &self.library
    }
}

impl<'a> View for EntryRef<'a> {
    type V = EntryFields;

    closed spec fn view(&self) -> EntryFields {
        self.fields@
    }
}

impl<'a> EntryRef<'a> {
    /// Another reference to the same entry.
    pub fn copy(&self) -> (c: Self)
        ensures
            c@ == self@,
            c.origin() == self.origin(),
    {
        EntryRef { entry: self.entry, fields: self.fields, origin: self.origin }
    }
}

/// `hayagriva::io::from_biblatex_str`.
///
/// Claimed: the outcome is a function of the source alone, named
/// `biblatex_outcome`; on success the entries of the library are named
/// there, and no key occurs twice (the library is a map from keys); on
/// failure the errors (converted one for one, in order). The source shows
/// that a failure carries at least one error.
#[verifier::external_body]
pub(crate) fn parse_biblatex(source: &str) -> (r: Result<Bibliography, Vec<BibError>>)
    ensures
        match r {
            Ok(bibliography) => biblatex_outcome(source@) == Ok::<Seq<EntryFields>, Seq<BibError>>(
                bibliography@,
            ) && entry_keys(bibliography@).no_duplicates() && bibliography.source() == source@,
            Err(errors) => biblatex_outcome(source@) == Err::<Seq<EntryFields>, Seq<BibError>>(
                errors@,
            ) && errors@.len() > 0,
        },
{
    match hayagriva::io::from_biblatex_str(source) {
        Ok(library) => Ok(Bibliography { library, source: Ghost(source@) }),
        Err(errors) => Err(errors.iter().map(bib_error_from).collect()),
    }
}

/// Converts a hayagriva BibLaTeX error to plain values (its span, its kind,
/// and the `Display` of its kind and of itself).
#[verifier::external_body]
fn bib_error_from(error: &BibLaTeXError) -> BibError {
    let (kind, span, kind_message) = match error {
        BibLaTeXError::Parse(e) => (BibErrorKind::Parse(parse_problem_from(&e.kind)), &e.span, e.kind.to_string()),
        BibLaTeXError::Type(e) => (BibErrorKind::Type, &e.span, e.kind.to_string()),
    };
    BibError { kind, span_start: span.start, span_end: span.end, kind_message, display: error.to_string() }
}

/// Converts a biblatex parse error kind, variant for variant.
#[verifier::external_body]
fn parse_problem_from(kind: &biblatex::ParseErrorKind) -> ParseProblem {
    match kind {
        biblatex::ParseErrorKind::UnexpectedEof => ParseProblem::UnexpectedEof,
        biblatex::ParseErrorKind::Unexpected(t) => ParseProblem::Unexpected(token_from(*t)),
        biblatex::ParseErrorKind::Expected(t) => ParseProblem::Expected(token_from(*t)),
        biblatex::ParseErrorKind::UnknownAbbreviation(s) => ParseProblem::UnknownAbbreviation(s.clone()),
        biblatex::ParseErrorKind::MalformedCommand => ParseProblem::MalformedCommand,
        biblatex::ParseErrorKind::DuplicateKey(s) => ParseProblem::DuplicateKey(s.clone()),
        biblatex::ParseErrorKind::ResolutionError(_) => ParseProblem::ResolutionError,
        _ => ParseProblem::Other,
    }
}

/// Converts a biblatex token, variant for variant.
#[verifier::external_body]
fn token_from(token: biblatex::Token) -> TokenKind {
    match token {
        biblatex::Token::Identifier => TokenKind::Identifier,
        biblatex::Token::OpeningBrace => TokenKind::OpeningBrace,
        biblatex::Token::ClosingBrace => TokenKind::ClosingBrace,
        biblatex::Token::Comma => TokenKind::Comma,
        biblatex::Token::QuotationMark => TokenKind::QuotationMark,
        biblatex::Token::Equals => TokenKind::Equals,
        biblatex::Token::DecimalPoint => TokenKind::DecimalPoint,
    }
}

/// `Library::len`: the number of entries.
#[verifier::external_body]
pub(crate) fn library_len(library: &Library) -> (n: usize)
    ensures
        n == library_entries(*library).len(),
{
    library.len()
}

/// `Library::keys`, its `n`-th key.
#[verifier::external_body]
pub(crate) fn library_key_at(library: &Library, n: usize) -> (key: String)
    requires
        n < library_entries(*library).len(),
    ensures
        key@ == library_keys(*library)[n as int],
{
    library.keys().nth(n).unwrap().to_string()
}

/// `Library::nth`, for an index below the length: the `n`-th entry.
#[verifier::external_body]
pub(crate) fn library_nth<'a>(library: &'a Library, n: usize) -> (entry: EntryRef<'a>)
    requires
        n < library_entries(*library).len(),
    ensures
        entry@ == library_entries(*library)[n as int],
{
    EntryRef {
        entry: library.nth(n).unwrap(),
        fields: Ghost(library_entries(*library)[n as int]),
        origin: Ghost(None),
    }
}

/// `Library::get` on a parsed bibliography: an entry exactly when the
/// library holds `key`, and then the library's entry under that key, which
/// is the entry the bibliography's source gives that key.
#[verifier::external_body]
pub(crate) fn library_get<'a>(bibliography: &'a Bibliography, key: &str) -> (entry: Option<EntryRef<'a>>)
    ensures
        entry is Some <==> entry_keys(bibliography@).contains(key@),
        entry matches Some(e) ==> e@.key == key@ && bibliography@.contains(e@) && e.origin() == Some(
            bibliography.source(),
        ),
{
    bibliography.library.get(key).map(|entry| EntryRef {
        entry,
        fields: Ghost(bibliography@[entry_keys(bibliography@).index_of(key@)]),
        origin: Ghost(Some(bibliography.source@)),
    })
}

/// `Entry::title`, its canonical value as text.
#[verifier::external_body]
pub(crate) fn entry_title(entry: &EntryRef) -> (title: Option<String>)
    ensures
        opt_view(title) == entry@.title,
{
    entry.entry.title().map(|title| title.value.to_string())
}

/// A person of an entry, with the name `Person::name_first(false, false)`
/// gives. Made only by `entry_authors`.
pub struct PersonRef<'a> {
    person: &'a Person,
    name: Ghost<Seq<char>>,
}

impl<'a> View for PersonRef<'a> {
    type V = Seq<char>;

    closed spec fn view(&self) -> Seq<char> {
        self.name@
    }
}

/// `Entry::authors`, each author kept with its name.
#[verifier::external_body]
pub(crate) fn entry_authors<'a>(entry: &EntryRef<'a>) -> (authors: Option<Vec<PersonRef<'a>>>)
    ensures
        match entry@.authors {
            None => authors is None,
            Some(names) => authors matches Some(people) && people@.map_values(
                |p: PersonRef<'a>| p@,
            ) == names,
        },
{
    entry.entry.authors().map(|people| {
        people.iter().enumerate().map(|(k, person)| PersonRef {
            person,
            name: Ghost(entry.fields@.authors.unwrap()[k as int]),
        }).collect()
    })
}

/// `Person::name_first`. Claimed: with neither initials nor the prefix
/// before the given name, it gives the person's name as the entry holds it
/// (see `EntryFields`).
#[verifier::external_body]
pub(crate) fn person_name_first(person: &PersonRef, initials: bool, prefix_given_name: bool) -> (name: String)
    ensures
        !initials && !prefix_given_name ==> name@ == person@,
{
    person.person.name_first(initials, prefix_given_name)
}

/// `Entry::date`, its year.
#[verifier::external_body]
pub(crate) fn entry_year(entry: &EntryRef) -> (year: Option<i32>)
    ensures
        year == entry@.year,
{
    entry.entry.date().map(|date| date.year)
}

/// `Entry::parents`, each with what it holds.
#[verifier::external_body]
pub(crate) fn entry_parents<'a>(entry: &EntryRef<'a>) -> (parents: Vec<EntryRef<'a>>)
    ensures
        parents@.map_values(|p: EntryRef<'a>| p@) == entry@.parents,
{
    let mut out = Vec::new();
    for (k, parent) in entry.entry.parents().iter().enumerate() {
        out.push(EntryRef { entry: parent, fields: Ghost(entry.fields@.parents[k as int]), origin: Ghost(None) });
    }
    out
}

/// `Entry::volume`, as text.
#[verifier::external_body]
pub(crate) fn entry_volume(entry: &EntryRef) -> (volume: Option<String>)
    ensures
        opt_view(volume) == entry@.volume,
{
    entry.entry.volume().map(|volume| volume.to_string())
}

/// `Entry::issue`, as text.
#[verifier::external_body]
pub(crate) fn entry_issue(entry: &EntryRef) -> (issue: Option<String>)
    ensures
        opt_view(issue) == entry@.issue,
{
    entry.entry.issue().map(|issue| issue.to_string())
}

/// `Entry::page_range`, as text.
#[verifier::external_body]
pub(crate) fn entry_page_range(entry: &EntryRef) -> (pages: Option<String>)
    ensures
        opt_view(pages) == entry@.page_range,
{
    entry.entry.page_range().map(|pages| pages.to_string())
}

/// Whether `name` selects an embedded style (`ArchivedStyle::by_name`).
pub uninterp spec fn is_style_name(name: Seq<char>) -> bool;

/// Whether `name` is one of the names `ArchivedStyle::names` lists for some
/// embedded style (the selecting names without the URL aliases).
pub uninterp spec fn is_archive_name(name: Seq<char>) -> bool;

/// Whether `name` selects an embedded style that decodes to an independent
/// style (`ArchivedStyle::by_name`, then `ArchivedStyle::get`).
pub uninterp spec fn is_independent_style(name: Seq<char>) -> bool;

/// The class of the style `name` selects, when it is independent.
pub uninterp spec fn style_class_of(name: Seq<char>) -> StyleClassKind;

/// The default locale of the style `name` selects, when it is independent.
pub uninterp spec fn style_default_locale_of(name: Seq<char>) -> Option<Seq<char>>;

/// The categories of the style `name` selects, when it is independent: the
/// citation format of each, `None` for a field category.
pub uninterp spec fn style_categories_of(name: Seq<char>) -> Seq<Option<CitationFormatKind>>;

/// An embedded style of hayagriva's archive, with its names and a name
/// that selects it. Made only by `archived_style_by_name` and
/// `archived_styles`, from the archive itself.
pub struct ArchiveStyle {
    names: Vec<String>,
    archived: ArchivedStyle,
    selected_by: Ghost<Seq<char>>,
}

/// An independent style decoded from the archive, with a name that selects
/// it. Made only by `archived_style_get`.
pub struct ChosenStyle {
    style: IndependentStyle,
    name: Ghost<Seq<char>>,
}

impl View for ChosenStyle {
    type V = Seq<char>;

    closed spec fn view(&self) -> Seq<char> {
        self.name@
    }
}

impl View for ArchiveStyle {
    type V = Seq<Seq<char>>;

    closed spec fn view(&self) -> Seq<Seq<char>> {
        self.names@.map_values(|n: String| n@)
    }
}

impl ArchiveStyle {
    /// A name that selects the style.
    pub closed spec fn selected_by(&self) -> Seq<char> {
        self.selected_by@
    }

    /// The style's names, as the archive lists them.
    pub fn names(&self) -> (names: &Vec<String>)
        ensures
            names@.map_values(|n: String| n@) == self@,
    {
        &self.names
    }
}

/// `ArchivedStyle::by_name`, the style found converted with its names
/// (`ArchivedStyle::names`).
///
/// Claimed: a style exactly for the names that select one; it lists at
/// least one name, and is selected by the name asked for.
#[verifier::external_body]
pub(crate) fn archived_style_by_name(name: &str) -> (style: Option<ArchiveStyle>)
    ensures
        style is Some <==> is_style_name(name@),
        style matches Some(s) ==> s@.len() > 0 && s.selected_by() == name@,
{
    ArchivedStyle::by_name(name).map(|style| ArchiveStyle {
        names: style.names().iter().map(|name| name.to_string()).collect(),
        archived: style,
        selected_by: Ghost(name@),
    })
}

/// The position, in `ArchivedStyle::all`, of the style `name` selects.
pub uninterp spec fn archive_index_of(name: Seq<char>) -> int;

/// Whether two names select styles that the archive describes alike: both
/// independent or both not, with the same display name, class, default
/// locale and categories.
pub open spec fn same_description(a: Seq<char>, b: Seq<char>) -> bool {
    &&& is_independent_style(a) == is_independent_style(b)
    &&& style_display_name_of(a) == style_display_name_of(b)
    &&& style_class_of(a) == style_class_of(b)
    &&& style_default_locale_of(a) == style_default_locale_of(b)
    &&& style_categories_of(a) == style_categories_of(b)
}

/// The names `ArchivedStyle::names` lists for the style at position `index`
/// of `ArchivedStyle::all`.
pub uninterp spec fn archive_style_names(index: int) -> Seq<Seq<char>>;

/// `ArchivedStyle::all`, each style converted with its names.
///
/// Claimed: the `i`-th style lists at least one name, its names are named
/// `archive_style_names(i)`, and it is selected by its first; every listed
/// name selects that style (the generated `names` and `by_name` tables
/// agree), so it is at position `i` and all its names are described alike;
/// and the names listed are exactly the archive's names (`is_archive_name`).
#[verifier::external_body]
pub(crate) fn archived_styles() -> (styles: Vec<ArchiveStyle>)
    ensures
        forall|i: int|
            0 <= i < styles.len() ==> (#[trigger] styles@[i])@.len() > 0 && styles@[i].selected_by()
                == styles@[i]@[0] && styles@[i]@ == archive_style_names(i),
        forall|i: int, j: int|
            0 <= i < styles.len() && 0 <= j < styles@[i]@.len() ==> is_style_name(
                #[trigger] styles@[i]@[j],
            ) && archive_index_of(styles@[i]@[j]) == i && same_description(
                styles@[i]@[j],
                styles@[i]@[0],
            ),
        forall|n: Seq<char>|
            #[trigger] is_archive_name(n) <==> exists|i: int, j: int|
                #![trigger styles@[i]@[j]]
                0 <= i < styles.len() && 0 <= j < styles@[i]@.len() && styles@[i]@[j] == n,
{
    ArchivedStyle::all().iter().map(|style| ArchiveStyle {
        names: style.names().iter().map(|name| name.to_string()).collect(),
        archived: *style,
        selected_by: Ghost(style.names()[0]@),
    }).collect()
}

/// The display name of the style `name` selects.
pub uninterp spec fn style_display_name_of(name: Seq<char>) -> Seq<char>;

/// `ArchivedStyle::display_name`, named `style_display_name_of` over the
/// name the style was selected by.
#[verifier::external_body]
pub(crate) fn archived_style_display_name(style: &ArchiveStyle) -> (display_name: String)
    ensures
        display_name@ == style_display_name_of(style.selected_by()),
{
    style.archived.display_name().to_string()
}

/// `ArchivedStyle::get`, decoding the embedded style, and telling an
/// independent style from a dependent one.
///
/// Claimed: an independent style exactly when the name the style was
/// selected by selects an independent style; it is kept with that name.
#[verifier::external_body]
pub(crate) fn archived_style_get(style: &ArchiveStyle) -> (independent: Option<ChosenStyle>)
    ensures
        independent is Some <==> is_independent_style(style.selected_by()),
        independent matches Some(c) ==> c@ == style.selected_by(),
{
    match style.archived.get() {
        Style::Independent(independent) => Some(ChosenStyle { style: independent, name: style.selected_by }),
        Style::Dependent(_) => None,
    }
}

/// The class of an independent style (`settings.class`), named
/// `style_class_of`.
#[verifier::external_body]
pub(crate) fn style_class(style: &ChosenStyle) -> (class: StyleClassKind)
    ensures
        class == style_class_of(style@),
{
    match style.style.settings.class {
        hayagriva::citationberg::StyleClass::InText => StyleClassKind::InText,
        hayagriva::citationberg::StyleClass::Note => StyleClassKind::Note,
    }
}

/// The default locale of an independent style (`default_locale`), named
/// `style_default_locale_of`.
#[verifier::external_body]
pub(crate) fn style_default_locale(style: &ChosenStyle) -> (locale: Option<String>)
    ensures
        opt_view(locale) == style_default_locale_of(style@),
{
    style.style.default_locale.as_ref().map(|locale| locale.0.clone())
}

/// The categories of an independent style (`info.category`): the citation
/// format of each `CitationFormat` category, `None` for a field category;
/// named `style_categories_of`.
#[verifier::external_body]
pub(crate) fn style_categories(style: &ChosenStyle) -> (categories: Vec<Option<CitationFormatKind>>)
    ensures
        categories@ == style_categories_of(style@),
{
    style.style.info.category.iter().map(category_format).collect()
}

/// Converts a style category: its citation format, variant for variant, or
/// `None` for a field category.
#[verifier::external_body]
fn category_format(category: &cb::StyleCategory) -> Option<CitationFormatKind> {
    match category {
        cb::StyleCategory::CitationFormat { format: cb::CitationFormat::AuthorDate } => Some(CitationFormatKind::AuthorDate),
        cb::StyleCategory::CitationFormat { format: cb::CitationFormat::Author } => Some(CitationFormatKind::Author),
        cb::StyleCategory::CitationFormat { format: cb::CitationFormat::Numeric } => Some(CitationFormatKind::Numeric),
        cb::StyleCategory::CitationFormat { format: cb::CitationFormat::Label } => Some(CitationFormatKind::Label),
        cb::StyleCategory::CitationFormat { format: cb::CitationFormat::Note } => Some(CitationFormatKind::Note),
        cb::StyleCategory::Field { .. } => None,
    }
}

/// Whether some embedded locale has the language code `code`.
pub uninterp spec fn is_locale_code(code: Seq<char>) -> bool;

/// `hayagriva::archive::locales`: the embedded locales, each beside its
/// language code (`lang`, converted to a string).
///
/// Claimed: one code per locale, and a code occurs exactly when some
/// embedded locale has it (named `is_locale_code`; the locales are data
/// compiled into hayagriva, the same on every call).
#[verifier::external_body]
fn embedded_locales() -> (r: (Vec<Locale>, Vec<Option<String>>))
    ensures
        r.1.len() == r.0.len(),
        forall|c: Seq<char>| #[trigger] is_locale_code(c) <==> has_code(r.1@, c),
{
    let locales = hayagriva::archive::locales();
    let codes = locales.iter().map(|locale| locale.lang.as_ref().map(|code| code.0.clone())).collect();
    (locales, codes)
}

/// The locales embedded in hayagriva, each beside its language code.
pub struct EmbeddedLocales {
    locales: Vec<Locale>,
    codes: Vec<Option<String>>,
}

impl EmbeddedLocales {
    /// The codes are those of the embedded locales.
    #[verifier::type_invariant]
    spec fn codes_are_embedded(self) -> bool {
        forall|c: Seq<char>| #[trigger] has_code(self.codes@, c) <==> is_locale_code(c)
    }

    /// The locales embedded in hayagriva.
    pub fn new() -> (locales: Self) {
        let (locales, codes) = embedded_locales();
        EmbeddedLocales { locales, codes }
    }

    /// The language code of each locale, in order: a code occurs exactly
    /// when some embedded locale has it.
    pub fn codes(&self) -> (codes: &Vec<Option<String>>)
        ensures
            forall|c: Seq<char>| #[trigger] has_code(codes@, c) <==> is_locale_code(c),
    {
        proof {
            use_type_invariant(self);
        }
        &self.codes
    }
}

/// `BibliographyDriver::new`: a driver with no citations.
#[verifier::external_body]
fn driver_new<'a>() -> (driver: DriverState<'a>)
    ensures
        driver_requests(driver) == Seq::<Seq<EntryFields>>::empty(),
{
    DriverState { driver: BibliographyDriver::new(), cited: Vec::new() }
}

/// `BibliographyDriver::citation`, with a `CitationRequest` of the given
/// entries (each `CitationItem::with_entry`), style, locale and the
/// embedded locales, and no note number; the entries' keys (`Entry::key`)
/// are kept beside it. Each entry must be one of the bibliography the
/// driver is for, and the style and locale those of the driver. Claimed, as
/// the driver's source shows: the driver keeps the request after those it
/// had.
#[verifier::external_body]
pub(crate) fn driver_cite<'a>(
    driver: &mut CitationDriver<'a>,
    entries: Vec<EntryRef<'a>>,
    style: &'a ChosenStyle,
    locale: Option<String>,
    locales: &'a EmbeddedLocales,
)
    requires
        forall|k: int| 0 <= k < entries.len() ==> (#[trigger] entries@[k]).origin() == Some(
            old(driver).source(),
        ),
        style@ == old(driver).style(),
        opt_view(locale) == old(driver).locale(),
    ensures
        final(driver).source() == old(driver).source(),
        final(driver).style() == old(driver).style(),
        final(driver).locale() == old(driver).locale(),
        final(driver).requests() == old(driver).requests().push(
            entries@.map_values(|e: EntryRef<'a>| e@),
        ),
{
    driver.state.cited.push(entries.iter().map(|e| e.entry.key().to_string()).collect());
    driver.state.driver.citation(hayagriva::CitationRequest::new(
        entries.into_iter().map(|e| hayagriva::CitationItem::with_entry(e.entry)).collect(),
        &style.style,
        locale.map(LocaleCode),
        locales.locales.as_slice(),
        None,
    ))
}

/// What hayagriva renders, as plain values, for citations of the entries
/// under the key groups `groups` (one citation per group, in order) of the
/// bibliography parsed from BibLaTeX `source`, with the embedded style
/// `style` selects, the locale `locale` and the embedded locales: a
/// function of these alone, as hayagriva's driver and the embedded data are.
pub uninterp spec fn rendering_of(
    source: Seq<char>,
    groups: Seq<Seq<Seq<char>>>,
    style: Seq<char>,
    locale: Option<Seq<char>>,
) -> DocView;

/// `BibliographyDriver::finish` with a `BibliographyRequest` of the given
/// style, locale and the embedded locales, those the citations were
/// requested in; the rendering is converted to plain values, with the keys
/// cited by each request. Claimed: the rendering is the one named
/// `rendering_of` for the driver's bibliography source, the keys of its
/// requests, the style and the locale (`finish` pushes one rendered citation
/// for each request, in order, and what it renders depends on nothing
/// else); `cited[i]` are the keys of request `i`.
#[verifier::external_body]
pub(crate) fn driver_finish<'a>(
    driver: CitationDriver<'a>,
    style: &ChosenStyle,
    locale: Option<String>,
    locales: &EmbeddedLocales,
) -> (r: RenderedDoc)
    requires
        style@ == driver.style(),
        opt_view(locale) == driver.locale(),
    ensures
        r@ == rendering_of(
            driver.source(),
            driver.requests().map_values(|g: Seq<EntryFields>| entry_keys(g)),
            style@,
            opt_view(locale),
        ),
        cited_view(r) == driver.requests().map_values(|g: Seq<EntryFields>| entry_keys(g)),
{
    let rendered = driver.state.driver.finish(hayagriva::BibliographyRequest::new(
        &style.style,
        locale.map(LocaleCode),
        locales.locales.as_slice(),
    ));
    let mut doc = rendered_from(&rendered);
    doc.cited = driver.state.cited;
    doc
}

/// Converts a rendering to plain values, node for node, keeping hayagriva's
/// own values beside them.
#[verifier::external_body]
fn rendered_from(rendered: &Rendered) -> RenderedDoc {
    RenderedDoc {
        citations: rendered.citations.iter().map(|row| RenderedCitation {
            note_number: row.note_number,
            citation: rendered_children_from(&row.citation),
        }).collect(),
        cited: Vec::new(),
        bibliography: rendered.bibliography.as_ref().map(|bibliography| {
            bibliography.items.iter().map(|item| BibItem {
                key: item.key.clone(),
                first_field: item.first_field.as_ref().map(rendered_child_from),
                content: rendered_children_from(&item.content),
            }).collect()
        }),
    }
}

/// Converts rendered children, keeping hayagriva's value beside them.
#[verifier::external_body]
pub(crate) fn rendered_children_from(children: &ElemChildren) -> RenderedChildren {
    RenderedChildren { children: children_from(children), written: children.clone() }
}

/// Converts one rendered node, keeping hayagriva's value beside it.
#[verifier::external_body]
pub(crate) fn rendered_child_from(child: &ElemChild) -> RenderedChild {
    RenderedChild { child: child_from(child), written: child.clone() }
}

/// Converts rendered children, node for node.
#[verifier::external_body]
fn children_from(children: &ElemChildren) -> Vec<Child> {
    children.0.iter().map(child_from).collect()
}

/// Converts one rendered node, variant for variant.
#[verifier::external_body]
fn child_from(child: &ElemChild) -> Child {
    match child {
        ElemChild::Text(t) => Child::Text { text: t.text.clone(), formatting: format_from(&t.formatting) },
        ElemChild::Elem(e) => Child::Elem { children: children_from(&e.children), display: e.display.map(display_from) },
        ElemChild::Markup(m) => Child::Markup { text: m.clone() },
        ElemChild::Link { text, url } => Child::Link {
            text: text.text.clone(),
            formatting: format_from(&text.formatting),
            url: url.clone(),
        },
        ElemChild::Transparent { format, .. } => Child::Transparent { formatting: format_from(format) },
    }
}

/// Converts an element display, variant for variant.
#[verifier::external_body]
fn display_from(display: cb::Display) -> ElemDisplay {
    match display {
        cb::Display::Block => ElemDisplay::Block,
        cb::Display::LeftMargin => ElemDisplay::LeftMargin,
        cb::Display::RightInline => ElemDisplay::RightInline,
        cb::Display::Indent => ElemDisplay::Indent,
    }
}

/// The hayagriva writing format of an output format, variant for variant.
#[verifier::external_body]
fn buf_format(format: OutputFormat) -> BufWriteFormat {
    match format {
        OutputFormat::Vt100 => BufWriteFormat::VT100,
        OutputFormat::Plain => BufWriteFormat::Plain,
    }
}

/// `ElemChildren::write_buf` into an empty `String`.
///
/// Claimed, as hayagriva's `csl/elem.rs` shows: each child is written in
/// order (`children_text`, over the plain values, which the crate makes
/// only together with the written value, see `RenderedChildren`); writing
/// to a `String` does not fail.
#[verifier::external_body]
pub(crate) fn write_children(children: &RenderedChildren, format: OutputFormat) -> (s: String)
    ensures
        s@ == children_text(children@, format == OutputFormat::Vt100),
{
    let mut out = String::new();
    let _ = children.written.write_buf(&mut out, buf_format(format));
    out
}

/// `ElemChild::write_buf` into an empty `String`.
///
/// Claimed, as hayagriva's `csl/elem.rs` shows: text and link anchors are
/// written between the escape sequences of their formatting (VT100) or bare
/// (plain), markup as its source, transparent nodes as nothing, elements as
/// their children, between line feeds for a block (`child_text`, over the
/// plain values, which the crate makes only together with the written
/// value, see `RenderedChild`); writing to a `String` does not fail.
#[verifier::external_body]
pub(crate) fn write_child(child: &RenderedChild, format: OutputFormat) -> (s: String)
    ensures
        s@ == child_text(child@, format == OutputFormat::Vt100),
{
    let mut out = String::new();
    let _ = child.written.write_buf(&mut out, buf_format(format));
    out
}

/// Converts a formatting, field for field.
#[verifier::external_body]
fn format_from(f: &hayagriva::Formatting) -> TextFormat {
    TextFormat {
        font_style: font_style_of(f),
        font_variant: font_variant_of(f),
        font_weight: font_weight_of(f),
        text_decoration: text_decoration_of(f),
        vertical_align: vertical_align_of(f),
    }
}

/// Converts a font style, variant for variant.
#[verifier::external_body]
fn font_style_of(f: &hayagriva::Formatting) -> FontStyle {
    match f.font_style {
        cb::FontStyle::Normal => FontStyle::Normal,
        cb::FontStyle::Italic => FontStyle::Italic,
    }
}

/// Converts a font variant, variant for variant.
#[verifier::external_body]
fn font_variant_of(f: &hayagriva::Formatting) -> FontVariant {
    match f.font_variant {
        cb::FontVariant::Normal => FontVariant::Normal,
        cb::FontVariant::SmallCaps => FontVariant::SmallCaps,
    }
}

/// Converts a font weight, variant for variant.
#[verifier::external_body]
fn font_weight_of(f: &hayagriva::Formatting) -> FontWeight {
    match f.font_weight {
        cb::FontWeight::Normal => FontWeight::Normal,
        cb::FontWeight::Bold => FontWeight::Bold,
        cb::FontWeight::Light => FontWeight::Light,
    }
}

/// Converts a text decoration, variant for variant.
#[verifier::external_body]
fn text_decoration_of(f: &hayagriva::Formatting) -> TextDecoration {
    match f.text_decoration {
        cb::TextDecoration::None => TextDecoration::NoDecoration,
        cb::TextDecoration::Underline => TextDecoration::Underline,
    }
}

/// Converts a vertical alignment, variant for variant.
#[verifier::external_body]
fn vertical_align_of(f: &hayagriva::Formatting) -> VerticalAlign {
    match f.vertical_align {
        cb::VerticalAlign::None => VerticalAlign::NoAlign,
        cb::VerticalAlign::Baseline => VerticalAlign::Baseline,
        cb::VerticalAlign::Sup => VerticalAlign::Sup,
        cb::VerticalAlign::Sub => VerticalAlign::Sub,
    }
}

/// `miniserde::json::from_str` for a list of lists of strings.
pub uninterp spec fn citation_groups_from_json(json: Seq<char>) -> Option<Seq<Seq<Seq<char>>>>;

/// `miniserde::json::from_str::<Vec<Vec<String>>>`: the outcome is a
/// function of the input alone, named `citation_groups_from_json`.
#[verifier::external_body]
pub(crate) fn parse_citation_groups(json: &str) -> (r: Result<Vec<Vec<String>>, miniserde::Error>)
    ensures
        match r {
            Ok(groups) => citation_groups_from_json(json@) == Some(
                groups@.map_values(|g: Vec<String>| g@.map_values(|k: String| k@)),
            ),
            Err(_) => citation_groups_from_json(json@) is None,
        },
{
    miniserde::json::from_str(json)
}

/// The `Display` of `miniserde::Error`, which carries no information: the
/// source writes the fixed text `miniserde error`.
#[verifier::external_body]
pub(crate) fn miniserde_error_message(error: &miniserde::Error) -> (m: String)
    ensures
        m@ == "miniserde error"@,
{
    error.to_string()
}

} // verus!
