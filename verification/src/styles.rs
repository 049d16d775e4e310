//! The embedded citation styles and locales.

use vstd::prelude::*;
use crate::bindings::{
    archived_styles, archived_style_display_name, archived_style_get, style_class,
    style_default_locale, style_categories, is_locale_code, EmbeddedLocales,
    archived_style_by_name, is_style_name, is_archive_name, is_independent_style, ChosenStyle,
    style_class_of, style_default_locale_of, style_categories_of, style_display_name_of,
    archive_index_of, archive_style_names, same_description,
};
use crate::chars::concat3;
use crate::chars::{chars_of, utf8_len, str_byte_len};
use crate::json::{
    list_styles as styles_to_json, list_locales as locales_to_json, styles_json, locales_json, opt_view,
    style_triple_view,
};

verus! {

/// Whether a style renders citations in the text or as notes.
#[derive(Clone, Copy, PartialEq, Eq, Structural, Debug)]
pub enum StyleClassKind {
    InText,
    Note,
}

/// The citation format a style declares.
#[derive(Clone, Copy, PartialEq, Eq, Structural, Debug)]
pub enum CitationFormatKind {
    AuthorDate,
    Author,
    Numeric,
    Label,
    Note,
}

/// `a` sorts before `b`: code point by code point, a proper prefix first
/// (the order of `str`, since UTF-8 keeps code point order).
pub open spec fn chars_lt(a: Seq<char>, b: Seq<char>) -> bool
    decreases a.len(),
{
    if a.len() == 0 {
        b.len() > 0
    } else if b.len() == 0 {
        false
    } else if a[0] != b[0] {
        (a[0] as u32) < (b[0] as u32)
    } else {
        chars_lt(a.drop_first(), b.drop_first())
    }
}

/// Of two different strings, one sorts before the other.
pub proof fn lemma_chars_lt_total(a: Seq<char>, b: Seq<char>)
    ensures
        a != b ==> chars_lt(a, b) || chars_lt(b, a),
        !(chars_lt(a, b) && chars_lt(b, a)),
        !chars_lt(a, a),
    decreases a.len(),
{
    if a.len() > 0 && b.len() > 0 && a[0] == b[0] {
        lemma_chars_lt_total(a.drop_first(), b.drop_first());
        if a.drop_first() == b.drop_first() {
            assert(a =~= seq![a[0]] + a.drop_first());
            assert(b =~= seq![b[0]] + b.drop_first());
        }
    } else if a.len() > 0 && b.len() > 0 {
        vstd::utf8::char_u32_cast(a[0], a[0] as u32);
        vstd::utf8::char_u32_cast(b[0], b[0] as u32);
    } else if a.len() == 0 && b.len() == 0 {
        assert(a =~= b);
    }
    if a.len() > 0 {
        lemma_chars_lt_total(a.drop_first(), a.drop_first());
    }
}

/// Whether `a` sorts before `b` (`a < b` on `str`).
pub fn str_lt(a: &str, b: &str) -> (lt: bool)
    ensures
        lt == chars_lt(a@, b@),
{
    let x = chars_of(a);
    let y = chars_of(b);
    let mut i: usize = 0;
    proof {
        assert(x@.skip(0) =~= x@);
        assert(y@.skip(0) =~= y@);
    }
    while i < x.len() && i < y.len() && x[i] == y[i]
        invariant
            i <= x.len(),
            i <= y.len(),
            x@.take(i as int) == y@.take(i as int),
            chars_lt(x@, y@) == chars_lt(x@.skip(i as int), y@.skip(i as int)),
        decreases x.len() - i,
    {
        proof {
            assert(x@.skip(i as int)[0] == x@[i as int]);
            assert(y@.skip(i as int)[0] == y@[i as int]);
            assert(x@.skip(i as int).drop_first() =~= x@.skip(i + 1));
            assert(y@.skip(i as int).drop_first() =~= y@.skip(i + 1));
            assert(x@.take(i + 1) =~= x@.take(i as int).push(x@[i as int]));
            assert(y@.take(i + 1) =~= y@.take(i as int).push(y@[i as int]));
        }
        i = i + 1;
    }
    proof {
        if i < x.len() && i < y.len() {
            assert(x@.skip(i as int)[0] == x@[i as int]);
            assert(y@.skip(i as int)[0] == y@[i as int]);
        }
        if i == x.len() {
            assert(x@.skip(i as int).len() == 0);
        } else if i == y.len() {
            assert(y@.skip(i as int).len() == 0);
        }
    }
    if i == x.len() {
        i < y.len()
    } else if i == y.len() {
        false
    } else {
        (x[i] as u32) < (y[i] as u32)
    }
}

/// The order of style names for picking a key: shorter first (in bytes),
/// then by `chars_lt`.
pub open spec fn style_key_less(a: Seq<char>, b: Seq<char>) -> bool {
    utf8_len(a) < utf8_len(b) || (utf8_len(a) == utf8_len(b) && chars_lt(a, b))
}

/// Whether `key` is one of `names` and none of them sorts before it in
/// `style_key_less`.
pub open spec fn is_min_style_key(names: Seq<Seq<char>>, key: Seq<char>) -> bool {
    &&& names.contains(key)
    &&& forall|j: int| 0 <= j < names.len() ==> !style_key_less(#[trigger] names[j], key)
}

/// The least of `names` in `style_key_less` order: the shortest name (in
/// bytes), the first in `chars_lt` order among names of that length.
pub open spec fn min_style_key(names: Seq<Seq<char>>) -> Seq<char> {
    choose|key: Seq<char>| is_min_style_key(names, key)
}

/// A name that no other name precedes is the least one.
pub proof fn lemma_min_style_key(names: Seq<Seq<char>>, k: int)
    requires
        0 <= k < names.len(),
        forall|j: int| 0 <= j < names.len() ==> !style_key_less(#[trigger] names[j], names[k]),
    ensures
        min_style_key(names) == names[k],
{
    assert(is_min_style_key(names, names[k]));
    let m = min_style_key(names);
    assert(is_min_style_key(names, m));
    let i = choose|i: int| 0 <= i < names.len() && names[i] == m;
    assert(!style_key_less(names[i], names[k]));
    assert(!style_key_less(names[k], m));
    lemma_chars_lt_total(m, names[k]);
}

/// The key a style is offered under (see `min_style_key`).
pub fn recommended_style_key(names: &Vec<String>) -> (key: String)
    requires
        names.len() > 0,
    ensures
        key@ == min_style_key(names@.map_values(|n: String| n@)),
{
    let mut best: usize = 0;
    let mut best_len = str_byte_len(names[0].as_str());
    let mut i: usize = 1;
    proof {
        lemma_chars_lt_total(names@[0]@, names@[0]@);
    }
    while i < names.len()
        invariant
            0 <= best < i <= names.len(),
            best_len == utf8_len(names@[best as int]@),
            forall|j: int| 0 <= j < i ==> !style_key_less(#[trigger] names@[j]@, names@[best as int]@),
        decreases names.len() - i,
    {
        let len = str_byte_len(names[i].as_str());
        if len < best_len || (len == best_len && str_lt(names[i].as_str(), names[best].as_str())) {
            proof {
                assert forall|j: int| 0 <= j < i + 1 implies !style_key_less(
                    #[trigger] names@[j]@,
                    names@[i as int]@,
                ) by {
                    lemma_chars_lt_total(names@[j]@, names@[j]@);
                    if style_key_less(names@[j]@, names@[i as int]@) && j != i {
                        lemma_style_key_less_transitive(
                            names@[j]@,
                            names@[i as int]@,
                            names@[best as int]@,
                        );
                    }
                }
            }
            best = i;
            best_len = len;
        } else {
            proof {
                lemma_chars_lt_total(names@[i as int]@, names@[best as int]@);
            }
        }
        i = i + 1;
    }
    proof {
        let views = names@.map_values(|n: String| n@);
        lemma_min_style_key(views, best as int);
    }
    names[best].clone()
}

/// `chars_lt` is transitive.
pub proof fn lemma_chars_lt_transitive(a: Seq<char>, b: Seq<char>, c: Seq<char>)
    requires
        chars_lt(a, b),
        chars_lt(b, c),
    ensures
        chars_lt(a, c),
    decreases a.len(),
{
    if a.len() > 0 && b.len() > 0 && c.len() > 0 {
        if a[0] == b[0] && b[0] == c[0] {
            lemma_chars_lt_transitive(a.drop_first(), b.drop_first(), c.drop_first());
        } else {
            vstd::utf8::char_u32_cast(a[0], a[0] as u32);
            vstd::utf8::char_u32_cast(b[0], b[0] as u32);
            vstd::utf8::char_u32_cast(c[0], c[0] as u32);
        }
    }
}

/// `style_key_less` is transitive.
pub proof fn lemma_style_key_less_transitive(a: Seq<char>, b: Seq<char>, c: Seq<char>)
    requires
        style_key_less(a, b),
        style_key_less(b, c),
    ensures
        style_key_less(a, c),
{
    if utf8_len(a) == utf8_len(b) && utf8_len(b) == utf8_len(c) {
        lemma_chars_lt_transitive(a, b, c);
    }
}

/// The name of a citation format.
pub open spec fn citation_format_name(format: CitationFormatKind) -> Seq<char> {
    match format {
        CitationFormatKind::AuthorDate => "author-date"@,
        CitationFormatKind::Author => "author"@,
        CitationFormatKind::Numeric => "numeric"@,
        CitationFormatKind::Label => "label"@,
        CitationFormatKind::Note => "note"@,
    }
}

/// The first citation format among a style's categories (`None` stands for
/// a category that is not a citation format).
pub open spec fn first_citation_format(categories: Seq<Option<CitationFormatKind>>) -> Option<CitationFormatKind>
    decreases categories.len(),
{
    if categories.len() == 0 {
        None
    } else {
        match categories[0] {
            Some(format) => Some(format),
            None => first_citation_format(categories.drop_first()),
        }
    }
}

/// The name of the first citation format among a style's categories.
pub fn citation_format(categories: &Vec<Option<CitationFormatKind>>) -> (name: Option<&'static str>)
    ensures
        match first_citation_format(categories@) {
            Some(format) => name matches Some(n) && n@ == citation_format_name(format),
            None => name is None,
        },
{
    let mut i: usize = 0;
    proof {
        assert(categories@.skip(0) =~= categories@);
    }
    while i < categories.len()
        invariant
            i <= categories.len(),
            first_citation_format(categories@.skip(i as int)) == first_citation_format(categories@),
        decreases categories.len() - i,
    {
        proof {
            assert(categories@.skip(i as int).drop_first() =~= categories@.skip(i + 1));
        }
        match categories[i] {
            Some(format) => {
                return Some(
                    match format {
                        CitationFormatKind::AuthorDate => "author-date",
                        CitationFormatKind::Author => "author",
                        CitationFormatKind::Numeric => "numeric",
                        CitationFormatKind::Label => "label",
                        CitationFormatKind::Note => "note",
                    },
                );
            },
            None => {},
        }
        i = i + 1;
    }
    None
}

/// An embedded style as read from the archive: its names, display name,
/// class (`None` for a dependent style), default locale and the citation
/// format of each category (`None` for a field category).
pub struct StyleCandidate {
    pub names: Vec<String>,
    pub display_name: String,
    pub class: Option<StyleClassKind>,
    pub default_locale: Option<String>,
    pub categories: Vec<Option<CitationFormatKind>>,
}

/// A style as offered to the host.
pub struct StyleListing {
    pub key: String,
    pub display_name: String,
    pub default_locale: Option<String>,
    pub citation_format: Option<&'static str>,
}

/// A `StyleListing` as plain values.
pub struct StyleListingView {
    pub key: Seq<char>,
    pub display_name: Seq<char>,
    pub default_locale: Option<Seq<char>>,
    pub citation_format: Option<Seq<char>>,
}

impl View for StyleListing {
    type V = StyleListingView;

    open spec fn view(&self) -> StyleListingView {
        StyleListingView {
            key: self.key@,
            display_name: self.display_name@,
            default_locale: opt_view(self.default_locale),
            citation_format: match self.citation_format {
                Some(f) => Some(f@),
                None => None,
            },
        }
    }
}

/// Whether a style is offered: an independent style of the in-text class.
/// Note styles render a full reference as the citation itself, which needs
/// paginated footnotes.
pub open spec fn is_offered(candidate: StyleCandidate) -> bool {
    candidate.class == Some(StyleClassKind::InText)
}

/// How an offered style is listed.
pub open spec fn listing_of(candidate: StyleCandidate) -> StyleListingView {
    StyleListingView {
        key: min_style_key(candidate.names@.map_values(|n: String| n@)),
        display_name: candidate.display_name@,
        default_locale: opt_view(candidate.default_locale),
        citation_format: match first_citation_format(candidate.categories@) {
            Some(f) => Some(citation_format_name(f)),
            None => None,
        },
    }
}

/// The listings of the offered candidates, in candidate order.
pub open spec fn offered_listings(candidates: Seq<StyleCandidate>) -> Seq<StyleListingView>
    decreases candidates.len(),
{
    if candidates.len() == 0 {
        seq![]
    } else if is_offered(candidates.last()) {
        offered_listings(candidates.drop_last()).push(listing_of(candidates.last()))
    } else {
        offered_listings(candidates.drop_last())
    }
}

/// `listing` inserted into `sorted` after every listing whose display name
/// does not sort after its own.
pub open spec fn insert_by_display(sorted: Seq<StyleListingView>, listing: StyleListingView) -> Seq<StyleListingView>
    decreases sorted.len(),
{
    if sorted.len() == 0 {
        seq![listing]
    } else if chars_lt(listing.display_name, sorted.last().display_name) {
        insert_by_display(sorted.drop_last(), listing).push(sorted.last())
    } else {
        sorted.push(listing)
    }
}

/// `listings` sorted by display name, listings with equal display names
/// keeping their order (a stable sort).
pub open spec fn sort_by_display(listings: Seq<StyleListingView>) -> Seq<StyleListingView>
    decreases listings.len(),
{
    if listings.len() == 0 {
        seq![]
    } else {
        insert_by_display(sort_by_display(listings.drop_last()), listings.last())
    }
}

/// Inserting at the scanned position is `insert_by_display`.
proof fn lemma_insert_by_display(s: Seq<StyleListingView>, x: StyleListingView, j: int)
    requires
        0 <= j <= s.len(),
        forall|k: int| j <= k < s.len() ==> chars_lt(x.display_name, #[trigger] s[k].display_name),
        j > 0 ==> !chars_lt(x.display_name, s[j - 1].display_name),
    ensures
        insert_by_display(s, x) == s.take(j) + seq![x] + s.skip(j),
    decreases s.len(),
{
    if s.len() == 0 {
        assert(s.take(j) + seq![x] + s.skip(j) =~= seq![x]);
    } else if j == s.len() {
        assert(s.take(j) + seq![x] + s.skip(j) =~= s.push(x));
    } else {
        assert(chars_lt(x.display_name, s.last().display_name));
        lemma_insert_by_display(s.drop_last(), x, j);
        assert(s.drop_last().take(j) + seq![x] + s.drop_last().skip(j) + seq![s.last()] =~= s.take(j)
            + seq![x] + s.skip(j));
    }
}

/// The view of each listing.
pub open spec fn listings_view(listings: Seq<StyleListing>) -> Seq<StyleListingView> {
    listings.map_values(|l: StyleListing| l@)
}

/// The listing of an offered candidate, computed.
fn listing_from(candidate: &StyleCandidate) -> (listing: StyleListing)
    requires
        candidate.names.len() > 0,
    ensures
        listing@ == listing_of(*candidate),
{
    let key = recommended_style_key(&candidate.names);
    let format = citation_format(&candidate.categories);
    StyleListing {
        key,
        display_name: candidate.display_name.clone(),
        default_locale: match &candidate.default_locale {
            Some(l) => Some(l.clone()),
            None => None,
        },
        citation_format: format,
    }
}

/// The offered styles, sorted by display name (see `offered_listings` and
/// `sort_by_display`).
pub fn offered_styles(candidates: &Vec<StyleCandidate>) -> (listings: Vec<StyleListing>)
    requires
        forall|i: int|
            0 <= i < candidates.len() && is_offered(#[trigger] candidates@[i]) ==> candidates@[i].names.len()
                > 0,
    ensures
        listings_view(listings@) == sort_by_display(offered_listings(candidates@)),
{
    let mut sorted: Vec<StyleListing> = Vec::new();
    let mut i: usize = 0;
    proof {
        assert(candidates@.take(0) =~= Seq::<StyleCandidate>::empty());
        assert(listings_view(sorted@) =~= Seq::<StyleListingView>::empty());
    }
    while i < candidates.len()
        invariant
            i <= candidates.len(),
            forall|k: int|
                0 <= k < candidates.len() && is_offered(#[trigger] candidates@[k])
                    ==> candidates@[k].names.len() > 0,
            listings_view(sorted@) == sort_by_display(offered_listings(candidates@.take(i as int))),
        decreases candidates.len() - i,
    {
        let candidate = &candidates[i];
        proof {
            assert(candidates@.take(i + 1).drop_last() =~= candidates@.take(i as int));
            assert(candidates@.take(i + 1).last() == candidates@[i as int]);
        }
        if candidate.class == Some(StyleClassKind::InText) {
            let listing = listing_from(candidate);
            let mut j = sorted.len();
            while j > 0 && str_lt(listing.display_name.as_str(), sorted[j - 1].display_name.as_str())
                invariant
                    j <= sorted.len(),
                    forall|k: int|
                        j <= k < sorted.len() ==> chars_lt(
                            listing.display_name@,
                            #[trigger] sorted@[k].display_name@,
                        ),
                decreases j,
            {
                j = j - 1;
            }
            let ghost before = listings_view(sorted@);
            proof {
                lemma_insert_by_display(before, listing@, j as int);
            }
            let ghost lv = listing@;
            sorted.insert(j, listing);
            proof {
                assert(listings_view(sorted@) =~= before.take(j as int) + seq![lv] + before.skip(j as int));
                let prev = offered_listings(candidates@.take(i as int));
                assert(offered_listings(candidates@.take(i + 1)) == prev.push(lv));
                assert(prev.push(lv).drop_last() =~= prev);
            }
        } else {
            proof {
                assert(offered_listings(candidates@.take(i + 1)) == offered_listings(candidates@.take(i as int)));
            }
        }
        i = i + 1;
    }
    proof {
        assert(candidates@.take(i as int) =~= candidates@);
    }
    sorted
}

/// The offered styles as the JSON document the host lists: for each, its key,
/// display name and default locale, sorted by display name.
pub open spec fn styles_document(candidates: Seq<StyleCandidate>) -> Seq<char> {
    styles_json(
        sort_by_display(offered_listings(candidates)).map_values(
            |l: StyleListingView| (l.key, l.display_name, l.default_locale),
        ),
    )
}

/// The JSON list of offered styles for these archive entries (see
/// `styles_document`).
pub fn styles_document_of(candidates: &Vec<StyleCandidate>) -> (json: String)
    requires
        forall|i: int|
            0 <= i < candidates.len() && is_offered(#[trigger] candidates@[i]) ==> candidates@[i].names.len()
                > 0,
    ensures
        json@ == styles_document(candidates@),
{
    let listings = offered_styles(candidates);
    let mut triples: Vec<(String, String, Option<String>)> = Vec::new();
    let mut i: usize = 0;
    while i < listings.len()
        invariant
            i <= listings.len(),
            triples@.len() == i,
            forall|k: int|
                0 <= k < i ==> style_triple_view(#[trigger] triples@[k]) == (
                    listings@[k]@.key,
                    listings@[k]@.display_name,
                    listings@[k]@.default_locale,
                ),
        decreases listings.len() - i,
    {
        let l = &listings[i];
        let locale = match &l.default_locale {
            Some(x) => Some(x.clone()),
            None => None,
        };
        triples.push((l.key.clone(), l.display_name.clone(), locale));
        i = i + 1;
    }
    let json = styles_to_json(triples.as_slice());
    proof {
        assert(triples@.map_values(|s: (String, String, Option<String>)| style_triple_view(s))
            =~= sort_by_display(offered_listings(candidates@)).map_values(
            |l: StyleListingView| (l.key, l.display_name, l.default_locale),
        ));
    }
    json
}

/// Whether every name of every candidate selects an embedded style by name.
pub open spec fn names_select_styles(candidates: Seq<StyleCandidate>) -> bool {
    forall|k: int, i: int|
        0 <= k < candidates.len() && 0 <= i < candidates[k].names.len() ==> is_style_name(
            #[trigger] candidates[k].names@[i]@,
        )
}

/// Whether each candidate has names, all of which select styles and agree
/// on whether the style is independent, and holds what the archive says of
/// its style (see `describes_style`).
pub open spec fn candidates_agree(candidates: Seq<StyleCandidate>) -> bool {
    &&& names_select_styles(candidates)
    &&& forall|k: int| 0 <= k < candidates.len() ==> (#[trigger] candidates[k]).names.len() > 0
    &&& forall|k: int, i: int|
        0 <= k < candidates.len() && 0 <= i < candidates[k].names.len() ==> (is_independent_style(
            #[trigger] candidates[k].names@[i]@,
        ) <==> is_independent_style(candidates[k].names@[0]@))
    &&& forall|k: int| 0 <= k < candidates.len() ==> #[trigger] describes_style(candidates[k])
}

/// Whether a candidate holds what the archive says of the style its first
/// name selects: its display name, and for an independent style its class,
/// default locale and categories; for a dependent one no class, no default
/// locale and no categories.
pub open spec fn describes_style(candidate: StyleCandidate) -> bool {
    let name = candidate.names@[0]@;
    &&& candidate.display_name@ == style_display_name_of(name)
    &&& if is_independent_style(name) {
        &&& candidate.class == Some(style_class_of(name))
        &&& opt_view(candidate.default_locale) == style_default_locale_of(name)
        &&& candidate.categories@ == style_categories_of(name)
    } else {
        &&& candidate.class is None
        &&& candidate.default_locale is None
        &&& candidate.categories@.len() == 0
    }
}

/// Whether candidates are the styles of the archive, one for one and in
/// archive order: they agree (see `candidates_agree`), the names of the
/// `k`-th are those of the style at position `k`, and their names are
/// exactly the archive's names.
pub open spec fn candidates_of_archive(candidates: Seq<StyleCandidate>) -> bool {
    &&& candidates_agree(candidates)
    &&& forall|k: int|
        0 <= k < candidates.len() ==> (#[trigger] candidates[k]).names@.map_values(|n: String| n@)
            == archive_style_names(k)
    &&& forall|k: int, i: int|
        0 <= k < candidates.len() && 0 <= i < candidates[k].names.len() ==> archive_index_of(
            #[trigger] candidates[k].names@[i]@,
        ) == k
    &&& forall|n: Seq<char>|
        #[trigger] is_archive_name(n) <==> exists|k: int, i: int|
            #![trigger candidates[k].names@[i]]
            0 <= k < candidates.len() && 0 <= i < candidates[k].names.len()
                && candidates[k].names@[i]@ == n
}

/// The embedded styles a slide-based host can use, as JSON (see
/// `styles_document`): the archive is read through hayagriva, every style
/// decoded, and the in-text ones listed.
pub fn list_styles() -> (json: String)
    ensures
        exists|candidates: Seq<StyleCandidate>|
            #![trigger styles_document(candidates)]
            candidates_of_archive(candidates) && json@ == styles_document(candidates),
{
    let archived = archived_styles();
    let mut candidates: Vec<StyleCandidate> = Vec::new();
    let mut i: usize = 0;
    while i < archived.len()
        invariant
            i <= archived.len(),
            candidates.len() == i,
            forall|k: int|
                0 <= k < archived.len() ==> (#[trigger] archived@[k])@.len() > 0 && archived@[k]@
                    == archive_style_names(k),
            forall|a: int, j: int|
                0 <= a < archived.len() && 0 <= j < archived@[a]@.len() ==> is_style_name(
                    #[trigger] archived@[a]@[j],
                ) && archive_index_of(archived@[a]@[j]) == a && same_description(
                    archived@[a]@[j],
                    archived@[a]@[0],
                ),
            forall|k: int|
                0 <= k < i ==> (#[trigger] candidates@[k]).names@.map_values(|n: String| n@)
                    == archived@[k]@,
            forall|k: int| 0 <= k < archived.len() ==> (#[trigger] archived@[k]).selected_by() == archived@[k]@[0],
            forall|k: int| 0 <= k < i ==> #[trigger] describes_style(candidates@[k]),
        decreases archived.len() - i,
    {
        let style = &archived[i];
        let names = style.names().clone();
        let display_name = archived_style_display_name(style);
        let candidate = match archived_style_get(style) {
            Some(independent) => StyleCandidate {
                names,
                display_name,
                class: Some(style_class(&independent)),
                default_locale: style_default_locale(&independent),
                categories: style_categories(&independent),
            },
            None => StyleCandidate {
                names,
                display_name,
                class: None,
                default_locale: None,
                categories: Vec::new(),
            },
        };
        candidates.push(candidate);
        i = i + 1;
    }
    proof {
        let cs = candidates@;
        assert forall|k: int, j: int| 0 <= k < cs.len() && 0 <= j < cs[k].names.len() implies
            #[trigger] cs[k].names@[j]@ == archived@[k]@[j] by {
            assert(cs[k].names@.map_values(|n: String| n@)[j] == cs[k].names@[j]@);
        }
        assert forall|n: Seq<char>| #[trigger] is_archive_name(n) <==> exists|k: int, j: int|
            #![trigger cs[k].names@[j]]
            0 <= k < cs.len() && 0 <= j < cs[k].names.len() && cs[k].names@[j]@ == n by {
            if is_archive_name(n) {
                let (a, j) = choose|a: int, j: int|
                    #![trigger archived@[a]@[j]]
                    0 <= a < archived.len() && 0 <= j < archived@[a]@.len() && archived@[a]@[j] == n;
                assert(cs[a].names@[j]@ == n);
            }
            if exists|k: int, j: int|
                #![trigger cs[k].names@[j]]
                0 <= k < cs.len() && 0 <= j < cs[k].names.len() && cs[k].names@[j]@ == n {
                let (k, j) = choose|k: int, j: int|
                    #![trigger cs[k].names@[j]]
                    0 <= k < cs.len() && 0 <= j < cs[k].names.len() && cs[k].names@[j]@ == n;
                assert(archived@[k]@[j] == n);
            }
        }
        assert(candidates_of_archive(cs));
    }
    styles_document_of(&candidates)
}

/// Whether each code of `codes` sorts before the next.
pub open spec fn strictly_sorted(codes: Seq<Seq<char>>) -> bool {
    forall|i: int| 0 <= i < codes.len() - 1 ==> chars_lt(#[trigger] codes[i], codes[i + 1])
}

/// Whether some locale of `langs` has the language code `code`.
pub open spec fn has_code(langs: Seq<Option<String>>, code: Seq<char>) -> bool {
    exists|i: int| 0 <= i < langs.len() && #[trigger] opt_view(langs[i]) == Some(code)
}

/// Whether `codes` lists the language codes of `langs`, each once, in
/// `chars_lt` order.
pub open spec fn is_locale_list(langs: Seq<Option<String>>, codes: Seq<Seq<char>>) -> bool {
    &&& strictly_sorted(codes)
    &&& forall|c: Seq<char>| codes.contains(c) <==> has_code(langs, c)
}

/// The views of some strings.
pub open spec fn strings_view(strings: Seq<String>) -> Seq<Seq<char>> {
    strings.map_values(|s: String| s@)
}

/// The JSON list of the distinct language codes of `langs`, sorted (see
/// `is_locale_list`).
pub fn locales_document_of(langs: &Vec<Option<String>>) -> (json: String)
    ensures
        exists|codes: Seq<Seq<char>>|
            is_locale_list(langs@, codes) && json@ == locales_json(codes),
{
    let mut codes: Vec<String> = Vec::new();
    let mut i: usize = 0;
    while i < langs.len()
        invariant
            i <= langs.len(),
            is_locale_list(langs@.take(i as int), strings_view(codes@)),
        decreases langs.len() - i,
    {
        let ghost prev = strings_view(codes@);
        proof {
            assert forall|c: Seq<char>| has_code(langs@.take(i + 1), c) <==> (has_code(
                langs@.take(i as int),
                c,
            ) || opt_view(langs@[i as int]) == Some(c)) by {
                if has_code(langs@.take(i + 1), c) {
                    let k = choose|k: int|
                        0 <= k < i + 1 && #[trigger] opt_view(langs@.take(i + 1)[k]) == Some(c);
                    if k < i {
                        assert(opt_view(langs@.take(i as int)[k]) == Some(c));
                    }
                }
                if has_code(langs@.take(i as int), c) {
                    let k = choose|k: int|
                        0 <= k < i && #[trigger] opt_view(langs@.take(i as int)[k]) == Some(c);
                    assert(opt_view(langs@.take(i + 1)[k]) == Some(c));
                }
                if opt_view(langs@[i as int]) == Some(c) {
                    assert(opt_view(langs@.take(i + 1)[i as int]) == Some(c));
                }
            }
        }
        match &langs[i] {
            Some(code) => {
                let mut j: usize = 0;
                while j < codes.len() && str_lt(codes[j].as_str(), code.as_str())
                    invariant
                        j <= codes.len(),
                        forall|k: int| 0 <= k < j ==> chars_lt(#[trigger] codes@[k]@, code@),
                    decreases codes.len() - j,
                {
                    j = j + 1;
                }
                if j < codes.len() && codes[j] == *code {
                    proof {
                        assert(prev.contains(code@)) by {
                            assert(prev[j as int] == code@);
                        }
                    }
                } else {
                    proof {
                        if j < codes.len() {
                            lemma_chars_lt_total(codes@[j as int]@, code@);
                        }
                        if j > 0 {
                            assert(chars_lt(codes@[j - 1]@, code@));
                        }
                    }
                    codes.insert(j, code.clone());
                    proof {
                        let now = strings_view(codes@);
                        assert(now =~= prev.take(j as int) + seq![code@] + prev.skip(j as int));
                        assert forall|c: Seq<char>| now.contains(c) <==> (prev.contains(c) || c
                            == code@) by {
                            if now.contains(c) {
                                let k = choose|k: int| 0 <= k < now.len() && now[k] == c;
                                if k < j {
                                    assert(prev[k] == c);
                                } else if k > j {
                                    assert(prev[k - 1] == c);
                                }
                            }
                            if prev.contains(c) {
                                let k = choose|k: int| 0 <= k < prev.len() && prev[k] == c;
                                if k < j {
                                    assert(now[k] == c);
                                } else {
                                    assert(now[k + 1] == c);
                                }
                            }
                            if c == code@ {
                                assert(now[j as int] == c);
                            }
                        }
                        assert forall|k: int| 0 <= k < now.len() - 1 implies chars_lt(
                            #[trigger] now[k],
                            now[k + 1],
                        ) by {
                            if k < j - 1 {
                                assert(chars_lt(prev[k], prev[k + 1]));
                            } else if k > j {
                                assert(chars_lt(prev[k - 1], prev[k]));
                            }
                        }
                    }
                }
            },
            None => {},
        }
        i = i + 1;
    }
    proof {
        assert(langs@.take(i as int) =~= langs@);
    }
    let json = locales_to_json(codes.as_slice());
    json
}

/// The language codes of the embedded locales, each once and sorted, as JSON
/// (see `locales_document_of`).
pub fn list_locales() -> (json: String)
    ensures
        exists|codes: Seq<Seq<char>>|
            #![trigger locales_json(codes)]
            strictly_sorted(codes) && (forall|c: Seq<char>|
                #[trigger] codes.contains(c) <==> is_locale_code(c)) && json@ == locales_json(codes),
{
    let embedded = EmbeddedLocales::new();
    let langs = embedded.codes();
    let json = locales_document_of(langs);
    proof {
        let codes = choose|codes: Seq<Seq<char>>|
            is_locale_list(langs@, codes) && json@ == locales_json(codes);
        assert(strictly_sorted(codes));
        assert forall|c: Seq<char>| #[trigger] codes.contains(c) <==> is_locale_code(c) by {
            assert(codes.contains(c) <==> has_code(langs@, c));
        }
    }
    json
}

/// The message for a style name the archive does not know.
pub open spec fn style_not_found_message(name: Seq<char>) -> Seq<char> {
    "embedded style not found: `"@ + name + "`"@
}

/// The message for an embedded style that depends on another one.
pub open spec fn style_not_independent_message(name: Seq<char>) -> Seq<char> {
    "embedded style `"@ + name + "` is not an independent CSL style"@
}

/// The embedded style named `name`, decoded: an error if the archive has no
/// style of that name, or if the style is a dependent one.
pub fn read_style(name: &str) -> (style: Result<ChosenStyle, String>)
    ensures
        !is_style_name(name@) ==> (style matches Err(m) && m@ == style_not_found_message(name@)),
        is_style_name(name@) && is_independent_style(name@) ==> (style matches Ok(s) && s@
            == name@),
        is_style_name(name@) && !is_independent_style(name@) ==> (style matches Err(m) && m@
            == style_not_independent_message(name@)),
{
    match archived_style_by_name(name) {
        None => Err(concat3("embedded style not found: `", name, "`")),
        Some(archived) => match archived_style_get(&archived) {
            Some(style) => Ok(style),
            None => Err(concat3("embedded style `", name, "` is not an independent CSL style")),
        },
    }
}

/// The message for a locale code no embedded locale has.
pub open spec fn locale_not_found_message(code: Seq<char>) -> Seq<char> {
    "embedded locale not found: `"@ + code + "`"@
}

/// Succeeds exactly when some locale of `langs` has the code `locale`.
pub fn ensure_locale_exists(locale: &str, langs: &Vec<Option<String>>) -> (r: Result<(), String>)
    ensures
        r is Ok <==> has_code(langs@, locale@),
        r matches Err(m) ==> m@ == locale_not_found_message(locale@),
{
    let mut i: usize = 0;
    while i < langs.len()
        invariant
            i <= langs.len(),
            forall|k: int| 0 <= k < i ==> #[trigger] opt_view(langs@[k]) != Some(locale@),
        decreases langs.len() - i,
    {
        match &langs[i] {
            Some(code) => {
                let found = chars_of(code.as_str());
                let wanted = chars_of(locale);
                if chars_equal(&found, &wanted) {
                    proof {
                        assert(opt_view(langs@[i as int]) == Some(locale@));
                    }
                    return Ok(());
                }
            },
            None => {},
        }
        i = i + 1;
    }
    Err(concat3("embedded locale not found: `", locale, "`"))
}

/// Whether two character vectors are equal.
pub fn chars_equal(a: &Vec<char>, b: &Vec<char>) -> (eq: bool)
    ensures
        eq == (a@ == b@),
{
    if a.len() != b.len() {
        return false;
    }
    let mut i: usize = 0;
    while i < a.len()
        invariant
            a.len() == b.len(),
            i <= a.len(),
            a@.take(i as int) == b@.take(i as int),
        decreases a.len() - i,
    {
        if a[i] != b[i] {
            return false;
        }
        proof {
            assert(a@.take(i + 1) =~= a@.take(i as int).push(a@[i as int]));
            assert(b@.take(i + 1) =~= b@.take(i as int).push(b@[i as int]));
        }
        i = i + 1;
    }
    proof {
        assert(a@.take(i as int) =~= a@);
        assert(b@.take(i as int) =~= b@);
    }
    true
}

} // verus!
