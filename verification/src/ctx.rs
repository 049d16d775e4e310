//! The state a host builds up call by call: the loaded bibliography, the
//! chosen style and the chosen locale, each replaceable at any time, and the
//! queries answered from it.

use vstd::prelude::*;
use crate::bibliography::{format_biblatex_errors, formatted_errors};
use crate::bindings::{
    biblatex_outcome, citation_groups_from_json, driver_cite, driver_finish, entry_keys,
    is_locale_code, library_get, rendering_of, Bibliography, EmbeddedLocales, EntryFields, EntryRef,
    miniserde_error_message, parse_biblatex, parse_citation_groups, CitationDriver,
};
use crate::chars::{concat2, concat3, owned};
use crate::json::{
    describes_entries, entries_json, list_entries as entries_document, render_json, render_result,
    EntryOut,
};
use crate::document::{cited_view, RenderedDoc};
use crate::styles::{
    ensure_locale_exists, locale_not_found_message, read_style, style_not_found_message,
    style_not_independent_message,
};
use crate::bindings::{is_independent_style, is_style_name, ChosenStyle};

verus! {

/// The key of `group` that `keys` lacks first, if any.
pub open spec fn missing_in_group(group: Seq<Seq<char>>, keys: Seq<Seq<char>>) -> Option<Seq<char>>
    decreases group.len(),
{
    if group.len() == 0 {
        None
    } else if !keys.contains(group[0]) {
        Some(group[0])
    } else {
        missing_in_group(group.drop_first(), keys)
    }
}

/// The first key of `groups`, in citation order, that `keys` lacks, if any.
pub open spec fn first_missing_key(groups: Seq<Seq<Seq<char>>>, keys: Seq<Seq<char>>) -> Option<Seq<char>>
    decreases groups.len(),
{
    if groups.len() == 0 {
        None
    } else {
        match missing_in_group(groups[0], keys) {
            Some(key) => Some(key),
            None => first_missing_key(groups.drop_first(), keys),
        }
    }
}

/// The plain values of citation groups.
pub open spec fn groups_view(groups: Seq<Vec<String>>) -> Seq<Seq<Seq<char>>> {
    groups.map_values(|g: Vec<String>| g@.map_values(|k: String| k@))
}

/// The plain values of groups of entries.
pub open spec fn refs_view<'a>(groups: Seq<Vec<EntryRef<'a>>>) -> Seq<Seq<EntryFields>> {
    groups.map_values(|g: Vec<EntryRef<'a>>| g@.map_values(|e: EntryRef<'a>| e@))
}

/// The keys of groups of entries.
pub open spec fn groups_keys(groups: Seq<Seq<EntryFields>>) -> Seq<Seq<Seq<char>>> {
    groups.map_values(|g: Seq<EntryFields>| entry_keys(g))
}

/// Whether every entry of the groups is one of the bibliography parsed from
/// `source`.
pub open spec fn all_from<'a>(groups: Seq<Vec<EntryRef<'a>>>, source: Seq<char>) -> bool {
    forall|i: int, j: int|
        0 <= i < groups.len() && 0 <= j < groups[i].len() ==> (#[trigger] groups[i]@[j]).origin()
            == Some(source)
}

/// The bibliography's entries under the keys of each group, group by group;
/// the first key the bibliography lacks is returned instead.
pub fn resolve_keys<'a>(library: &'a Bibliography, groups: &Vec<Vec<String>>) -> (r: Result<
    Vec<Vec<EntryRef<'a>>>,
    String,
>)
    ensures
        match first_missing_key(groups_view(groups@), entry_keys(library@)) {
            Some(key) => r matches Err(missing) && missing@ == key,
            None => r matches Ok(entries) && groups_keys(refs_view(entries@)) == groups_view(
                groups@,
            ) && all_from(entries@, library.source()) && forall|i: int, j: int|
                0 <= i < entries.len() && 0 <= j < entries@[i].len() ==> library@.contains(
                    #[trigger] entries@[i]@[j]@,
                ),
        },
{
    let ghost keys = entry_keys(library@);
    let ghost gv = groups_view(groups@);
    let mut resolved: Vec<Vec<EntryRef<'a>>> = Vec::new();
    let mut i: usize = 0;
    proof {
        assert(gv.skip(0) =~= gv);
    }
    while i < groups.len()
        invariant
            i <= groups.len(),
            gv == groups_view(groups@),
            keys == entry_keys(library@),
            first_missing_key(gv.skip(i as int), keys) == first_missing_key(gv, keys),
            resolved.len() == i,
            groups_keys(refs_view(resolved@)) == gv.take(i as int),
            all_from(resolved@, library.source()),
            forall|a: int, b: int|
                0 <= a < resolved.len() && 0 <= b < resolved@[a].len() ==> library@.contains(
                    #[trigger] resolved@[a]@[b]@,
                ),
        decreases groups.len() - i,
    {
        let group = &groups[i];
        let ghost g = gv[i as int];
        proof {
            assert(gv.skip(i as int)[0] == g);
            assert(gv.skip(i as int).drop_first() =~= gv.skip(i + 1));
            assert(g =~= group@.map_values(|k: String| k@));
            assert(g.skip(0) =~= g);
        }
        let mut entries: Vec<EntryRef<'a>> = Vec::new();
        let mut j: usize = 0;
        while j < group.len()
            invariant
                j <= group.len(),
                g == group@.map_values(|k: String| k@),
                keys == entry_keys(library@),
                missing_in_group(g.skip(j as int), keys) == missing_in_group(g, keys),
                entries.len() == j,
                entry_keys(entries@.map_values(|e: EntryRef<'a>| e@)) == g.take(j as int),
                forall|b: int|
                    0 <= b < entries.len() ==> library@.contains(#[trigger] entries@[b]@),
                forall|b: int|
                    0 <= b < entries.len() ==> (#[trigger] entries@[b]).origin() == Some(
                        library.source(),
                    ),
                i < groups.len(),
                gv == groups_view(groups@),
                gv.skip(i as int).len() > 0,
                gv.skip(i as int)[0] == g,
                first_missing_key(gv.skip(i as int), keys) == first_missing_key(gv, keys),
            decreases group.len() - j,
        {
            proof {
                assert(g.skip(j as int)[0] == group@[j as int]@);
                assert(g.skip(j as int).drop_first() =~= g.skip(j + 1));
            }
            match library_get(library, group[j].as_str()) {
                Some(entry) => {
                    let ghost before = entries@;
                    entries.push(entry);
                    proof {
                        assert(entry_keys(entries@.map_values(|e: EntryRef<'a>| e@)) =~= g.take(
                            j + 1,
                        ));
                    }
                },
                None => {
                    proof {
                        assert(missing_in_group(g.skip(j as int), keys) == Some(group@[j as int]@));
                        assert(first_missing_key(gv.skip(i as int), keys) == Some(group@[j as int]@));
                    }
                    return Err(group[j].clone());
                },
            }
            j = j + 1;
        }
        proof {
            assert(g.skip(j as int).len() == 0);
            assert(g.take(j as int) =~= g);
        }
        let ghost before = resolved@;
        resolved.push(entries);
        proof {
            assert(groups_keys(refs_view(resolved@)) =~= gv.take(i + 1));
        }
        i = i + 1;
    }
    proof {
        assert(gv.skip(i as int).len() == 0);
        assert(gv.take(i as int) =~= gv);
    }
    Ok(resolved)
}

/// Renders one citation per group of entries of `bibliography`, in order,
/// with `style`, `locale` and the embedded locales, and the bibliography of
/// the cited entries: the `i`-th citation is requested for the `i`-th
/// group's entries.
pub fn render_citations<'a>(
    bibliography: &Bibliography,
    groups: &Vec<Vec<EntryRef<'a>>>,
    style: &'a ChosenStyle,
    locale: &Option<String>,
    locales: &'a EmbeddedLocales,
) -> (doc: RenderedDoc)
    requires
        all_from(groups@, bibliography.source()),
    ensures
        doc@ == rendering_of(
            bibliography.source(),
            groups_keys(refs_view(groups@)),
            style@,
            crate::json::opt_view(*locale),
        ),
        cited_view(doc) == groups_keys(refs_view(groups@)),
{
    let mut driver = CitationDriver::new(bibliography, style, locale);
    let mut i: usize = 0;
    while i < groups.len()
        invariant
            i <= groups.len(),
            all_from(groups@, bibliography.source()),
            driver.source() == bibliography.source(),
            driver.style() == style@,
            driver.locale() == crate::json::opt_view(*locale),
            driver.requests() == refs_view(groups@).take(i as int),
        decreases groups.len() - i,
    {
        let group = &groups[i];
        let mut entries: Vec<EntryRef<'a>> = Vec::new();
        let mut j: usize = 0;
        while j < group.len()
            invariant
                j <= group.len(),
                entries.len() == j,
                forall|k: int| 0 <= k < j ==> (#[trigger] entries@[k])@ == group@[k]@,
                forall|k: int| 0 <= k < j ==> (#[trigger] entries@[k]).origin() == group@[k].origin(),
            decreases group.len() - j,
        {
            entries.push(group[j].copy());
            j = j + 1;
        }
        proof {
            assert(entries@.map_values(|e: EntryRef<'a>| e@) =~= group@.map_values(
                |e: EntryRef<'a>| e@,
            ));
            assert forall|k: int| 0 <= k < entries.len() implies (#[trigger] entries@[k]).origin()
                == Some(driver.source()) by {
                assert(groups@[i as int]@[k].origin() == Some(bibliography.source()));
            }
        }
        driver_cite(&mut driver, entries, style, clone_opt(locale), locales);
        proof {
            assert(refs_view(groups@).take(i + 1) =~= refs_view(groups@).take(i as int).push(
                refs_view(groups@)[i as int],
            ));
        }
        i = i + 1;
    }
    proof {
        assert(refs_view(groups@).take(i as int) =~= refs_view(groups@));
        assert(driver.requests().map_values(|g: Seq<EntryFields>| entry_keys(g)) =~= groups_keys(
            refs_view(groups@),
        ));
    }
    driver_finish(driver, style, clone_opt(locale), locales)
}

/// A copy of an optional string.
pub fn clone_opt(s: &Option<String>) -> (c: Option<String>)
    ensures
        crate::json::opt_view(c) == crate::json::opt_view(*s),
{
    match s {
        Some(t) => Some(t.clone()),
        None => None,
    }
}

/// Holds the mutable state a caller builds up across calls: the loaded
/// bibliography, the chosen style, and the chosen locale. All three can be
/// replaced independently at any time.
pub struct HayagrivaCtx {
    library: Option<Bibliography>,
    style: Option<ChosenStyle>,
    locale: Option<String>,
    locales: EmbeddedLocales,
}

/// A context as plain values: the entries of the loaded bibliography and
/// the BibLaTeX source it was loaded from, the name of the chosen style, and
/// the chosen locale code.
pub struct CtxView {
    pub library: Option<Seq<EntryFields>>,
    pub source: Option<Seq<char>>,
    pub style: Option<Seq<char>>,
    pub locale: Option<Seq<char>>,
}

impl View for HayagrivaCtx {
    type V = CtxView;

    closed spec fn view(&self) -> CtxView {
        CtxView {
            library: match self.library {
                Some(l) => Some(l@),
                None => None,
            },
            source: match self.library {
                Some(l) => Some(l.source()),
                None => None,
            },
            style: match self.style {
                Some(s) => Some(s@),
                None => None,
            },
            locale: crate::json::opt_view(self.locale),
        }
    }
}

/// The message when no bibliography is loaded.
pub open spec fn no_bibliography_message() -> Seq<char> {
    "no bibliography loaded"@
}

/// The message when no style is set.
pub open spec fn no_style_message() -> Seq<char> {
    "no style set"@
}

/// The message for citation groups that are not a JSON list of lists of
/// strings.
pub open spec fn invalid_groups_message() -> Seq<char> {
    "invalid citation groups JSON: "@ + "miniserde error"@
}

/// The message for a cited key the bibliography lacks.
pub open spec fn missing_key_message(key: Seq<char>) -> Seq<char> {
    "citation key `"@ + key + "` was not found in the bibliography"@
}

impl HayagrivaCtx {
    /// A context with nothing loaded, no style and no locale, over the
    /// embedded locales.
    pub fn new() -> (ctx: Self)
        ensures
            ctx@.library is None,
            ctx@.source is None,
            ctx@.style is None,
            ctx@.locale is None,
    {
        HayagrivaCtx { library: None, style: None, locale: None, locales: EmbeddedLocales::new() }
    }

    /// Loads the bibliography in BibLaTeX source `bib_str`, replacing the
    /// loaded one. On failure nothing changes and the error lists a message
    /// for each BibLaTeX error, with its line, column and an excerpt (see
    /// `formatted_errors`).
    pub fn set_bib(&mut self, bib_str: &str) -> (r: Result<(), String>)
        ensures
            match biblatex_outcome(bib_str@) {
                Ok(entries) => r is Ok && final(self)@ == (CtxView {
                    library: Some(entries),
                    source: Some(bib_str@),
                    ..old(self)@
                }),
                Err(errors) => (r matches Err(m) && m@ == formatted_errors(errors, bib_str@))
                    && final(self)@ == old(self)@,
            },
    {
        match parse_biblatex(bib_str) {
            Ok(library) => {
                self.library = Some(library);
                Ok(())
            },
            Err(errors) => Err(format_biblatex_errors(&errors, bib_str)),
        }
    }

    /// Chooses the embedded style named `style_name`: it succeeds exactly for
    /// a name that selects an independent style. An unknown name, or a style
    /// that depends on another one, is refused and nothing changes.
    pub fn set_style(&mut self, style_name: &str) -> (r: Result<(), String>)
        ensures
            r is Ok <==> is_style_name(style_name@) && is_independent_style(style_name@),
            r is Ok ==> final(self)@ == (CtxView { style: Some(style_name@), ..old(self)@ }),
            !is_style_name(style_name@) ==> (r matches Err(m) && m@ == style_not_found_message(
                style_name@,
            )),
            is_style_name(style_name@) && !is_independent_style(style_name@) ==> (r matches Err(m)
                && m@ == style_not_independent_message(style_name@)),
            r is Err ==> final(self)@ == old(self)@,
    {
        let style = read_style(style_name)?;
        self.style = Some(style);
        Ok(())
    }

    /// Chooses the locale with code `locale`, or no locale for `None`. A code
    /// no embedded locale has is refused and nothing changes.
    pub fn set_locale(&mut self, locale: Option<&str>) -> (r: Result<(), String>)
        ensures
            match locale {
                None => r is Ok && final(self)@ == (CtxView { locale: None, ..old(self)@ }),
                Some(code) => if is_locale_code(code@) {
                    r is Ok && final(self)@ == (CtxView { locale: Some(code@), ..old(self)@ })
                } else {
                    (r matches Err(m) && m@ == locale_not_found_message(code@)) && final(self)@
                        == old(self)@
                },
            },
    {
        match locale {
            None => {
                self.locale = None;
                Ok(())
            },
            Some(code) => {
                ensure_locale_exists(code, self.locales.codes())?;
                self.locale = Some(owned(code));
                Ok(())
            },
        }
    }

    /// The entries of the loaded bibliography as JSON (see
    /// `json::list_entries`); an error when none is loaded.
    pub fn list_entries(&self) -> (r: Result<String, String>)
        ensures
            match self@.library {
                None => r matches Err(m) && m@ == no_bibliography_message(),
                Some(library) => r matches Ok(json) && exists|entries: Seq<EntryOut>|
                    #![trigger entries_json(entries)]
                    describes_entries(entries, library) && json@ == entries_json(entries),
            },
    {
        match &self.library {
            None => Err(owned("no bibliography loaded")),
            Some(library) => Ok(entries_document(library.library())),
        }
    }

    /// Renders the citation groups in JSON `citation_groups_json` (a list of
    /// lists of keys, for the whole document in order) with the loaded
    /// bibliography, style and locale: the JSON (see `render_json`) of what
    /// the style renders for one citation per group, in order, and the
    /// bibliography. The whole document is rendered on each call.
    pub fn render(&self, citation_groups_json: &str) -> (r: Result<String, String>)
        ensures
            self@.library is None ==> (r matches Err(m) && m@ == no_bibliography_message()),
            self@.library is Some && self@.style is None ==> (r matches Err(m) && m@
                == no_style_message()),
            self@.library is Some && self@.style is Some ==> match citation_groups_from_json(
                citation_groups_json@,
            ) {
                None => r matches Err(m) && m@ == invalid_groups_message(),
                Some(groups) => match first_missing_key(groups, entry_keys(self@.library->0)) {
                    Some(key) => r matches Err(m) && m@ == missing_key_message(key),
                    None => r matches Ok(json) && json@ == render_json(
                        rendering_of(self@.source->0, groups, self@.style->0, self@.locale),
                    ),
                },
            },
    {
        let library = match &self.library {
            None => {
                return Err(owned("no bibliography loaded"));
            },
            Some(library) => library,
        };
        let style = match &self.style {
            None => {
                return Err(owned("no style set"));
            },
            Some(style) => style,
        };
        let groups = match parse_citation_groups(citation_groups_json) {
            Err(error) => {
                let detail = miniserde_error_message(&error);
                return Err(concat2("invalid citation groups JSON: ", detail.as_str()));
            },
            Ok(groups) => groups,
        };
        proof {
            assert(groups_view(groups@) =~= groups@.map_values(
                |g: Vec<String>| g@.map_values(|k: String| k@),
            ));
        }
        let entries = match resolve_keys(library, &groups) {
            Err(key) => {
                return Err(concat3("citation key `", key.as_str(), "` was not found in the bibliography"));
            },
            Ok(entries) => entries,
        };
        let doc = render_citations(library, &entries, style, &self.locale, &self.locales);
        Ok(render_result(doc))
    }
}

} // verus!
