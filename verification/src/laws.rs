//! Properties of the library as a whole, stated over the same spec
//! functions its operations' contracts use, and proved.

use vstd::prelude::*;
use crate::bindings::unicode_width_of;
use crate::chars::is_white_space;
use crate::cli::{
    citation_groups_text, group_of_line, groups_from_lines, split_at_char, split_at_white_space,
    trim_chars, words,
};
use crate::ctx::{first_missing_key, missing_in_group};
use crate::diagnostics::{
    context_window, ellipsis, lemma_stop_index_monotone, text_width, CONTEXT_RADIUS,
    char_columns, chars_within, end_column, expand_tabs_spec, lemma_chars_within,
    lemma_end_column_concat, lemma_end_column_prefix, lemma_stop_index_before,
    lemma_stop_index_from, skip_white_space_back, stop_index, stops_at,
};
use crate::chars::{lemma_utf8_len_push, utf8_len};
use crate::document::{BibItemView, DocView};
use crate::bindings::{is_independent_style, is_style_name};
use crate::styles::{
    chars_lt, insert_by_display, is_min_style_key, is_offered, lemma_chars_lt_total,
    lemma_chars_lt_transitive, lemma_style_key_less_transitive, listing_of, min_style_key,
    candidates_agree, candidates_of_archive, describes_style, offered_listings, sort_by_display, style_key_less, StyleCandidate,
    StyleListingView, styles_document,
};
use crate::bindings::{
    archive_index_of, archive_style_names, is_archive_name, style_categories_of, style_class_of,
    style_default_locale_of, style_display_name_of,
};
use crate::styles::{citation_format_name, first_citation_format, StyleClassKind};
use vstd::seq_lib::group_to_multiset_ensures;
use crate::json::{
    citation_json, doc_items, item_json, json_array, json_member, json_opt_integer,
    json_opt_string, json_string, render_json,
    describes_entries, describes_entry, entries_json, entry_json, strings_json, EntryOut,
    ends_with_white_space, item_content_runs, item_prefix_runs, runs_text,
    starts_with_white_space, trim_back_runs, trim_end_chars, trim_front_runs, trim_runs,
    trim_start_chars, with_text, RunView,
};

verus! {

/// Expanding tabs leaves no tab in the text.
pub proof fn law_expand_tabs_removes_tabs(text: Seq<char>, start: int)
    ensures
        !expand_tabs_spec(text, start).contains('\t'),
    decreases text.len(),
{
    if text.len() > 0 {
        law_expand_tabs_removes_tabs(text.drop_last(), start);
        let before = expand_tabs_spec(text.drop_last(), start);
        let out = expand_tabs_spec(text, start);
        assert forall|i: int| 0 <= i < out.len() implies out[i] != '\t' by {
            if i < before.len() {
                assert(out[i] == before[i]);
            }
        }
    }
}

/// `n` spaces, laid out from `column`, end `n` columns later, when a space
/// is one column wide.
proof fn lemma_spaces_end_column(n: nat, column: int)
    requires
        unicode_width_of(' ') == Some(1usize),
    ensures
        end_column(Seq::new(n, |k: int| ' '), column) == column + n,
    decreases n,
{
    if n > 0 {
        let s = Seq::new(n, |k: int| ' ');
        assert(s.drop_last() =~= Seq::new((n - 1) as nat, |k: int| ' '));
        lemma_spaces_end_column((n - 1) as nat, column);
    }
}

/// Expanding tabs keeps the layout: the expanded text, laid out from the
/// same column, ends at the same column as the text it came from (given the width
/// table's one column for a space).
pub proof fn law_expand_tabs_keeps_columns(text: Seq<char>, start: int)
    requires
        unicode_width_of(' ') == Some(1usize),
    ensures
        end_column(expand_tabs_spec(text, start), start) == end_column(text, start),
    decreases text.len(),
{
    if text.len() > 0 {
        let rest = text.drop_last();
        let c = text.last();
        law_expand_tabs_keeps_columns(rest, start);
        let before = expand_tabs_spec(rest, start);
        let column = end_column(rest, start);
        assert(end_column(text, start) == column + char_columns(c, column));
        if c == '\t' {
            let n = char_columns(c, column);
            assert(n >= 1);
            let spaces = Seq::new(n as nat, |k: int| ' ');
            assert(expand_tabs_spec(text, start) == before + spaces);
            lemma_end_column_concat(before, spaces, start);
            lemma_spaces_end_column(n as nat, column);
        } else {
            assert(expand_tabs_spec(text, start) == before.push(c));
            lemma_end_column_concat(before, seq![c], start);
            assert(seq![c].drop_last() =~= Seq::<char>::empty());
            assert(end_column(Seq::<char>::empty(), column) == column);
            assert(seq![c].last() == c);
            assert(end_column(seq![c], column) == column + char_columns(c, column));
            assert(before.push(c) =~= before + seq![c]);
        }
    }
}

/// Trimming at the front of `a + b`: `b` trimmed if `a` is all white space,
/// else `a` trimmed followed by `b`.
proof fn lemma_trim_start_concat(a: Seq<char>, b: Seq<char>)
    ensures
        trim_start_chars(a + b) == if trim_start_chars(a).len() == 0 {
            trim_start_chars(b)
        } else {
            trim_start_chars(a) + b
        },
    decreases a.len(),
{
    if a.len() == 0 {
        assert(a + b =~= b);
    } else if is_white_space(a[0]) {
        assert((a + b).drop_first() =~= a.drop_first() + b);
        lemma_trim_start_concat(a.drop_first(), b);
    } else {
        assert((a + b)[0] == a[0]);
    }
}

/// Trimming at the back of `a + b`: `a` trimmed if `b` is all white space,
/// else `a` followed by `b` trimmed.
proof fn lemma_trim_end_concat(a: Seq<char>, b: Seq<char>)
    ensures
        trim_end_chars(a + b) == if trim_end_chars(b).len() == 0 {
            trim_end_chars(a)
        } else {
            a + trim_end_chars(b)
        },
    decreases b.len(),
{
    if b.len() == 0 {
        assert(a + b =~= a);
    } else if is_white_space(b.last()) {
        assert((a + b).drop_last() =~= a + b.drop_last());
        lemma_trim_end_concat(a, b.drop_last());
    } else {
        assert((a + b).last() == b.last());
    }
}

/// The text of runs, read from the front: the first run's text, then the
/// text of the others.
proof fn lemma_runs_text_first(runs: Seq<RunView>)
    requires
        runs.len() > 0,
    ensures
        runs_text(runs) == runs[0].text + runs_text(runs.drop_first()),
    decreases runs.len(),
{
    if runs.len() == 1 {
        assert(runs.drop_last() =~= Seq::<RunView>::empty());
        assert(runs.drop_first() =~= Seq::<RunView>::empty());
        assert(runs[0].text + Seq::<char>::empty() =~= runs[0].text);
    } else {
        lemma_runs_text_first(runs.drop_last());
        assert(runs.drop_last().drop_first() =~= runs.drop_first().drop_last());
        assert(runs.drop_first().last() == runs.last());
        assert(runs[0].text + runs_text(runs.drop_first()) =~= runs[0].text + runs_text(
            runs.drop_first().drop_last(),
        ) + runs.last().text);
    }
}

/// Trimming runs at the front trims their text at the front.
proof fn lemma_trim_front_runs_text(runs: Seq<RunView>)
    ensures
        runs_text(trim_front_runs(runs)) == trim_start_chars(runs_text(runs)),
    decreases runs.len(),
{
    if runs.len() > 0 {
        lemma_runs_text_first(runs);
        lemma_trim_start_concat(runs[0].text, runs_text(runs.drop_first()));
        if trim_start_chars(runs[0].text).len() == 0 {
            lemma_trim_front_runs_text(runs.drop_first());
        } else {
            let t = runs.update(0, with_text(runs[0], trim_start_chars(runs[0].text)));
            lemma_runs_text_first(t);
            assert(t.drop_first() =~= runs.drop_first());
        }
    }
}

/// Trimming runs at the back trims their text at the back.
proof fn lemma_trim_back_runs_text(runs: Seq<RunView>)
    ensures
        runs_text(trim_back_runs(runs)) == trim_end_chars(runs_text(runs)),
    decreases runs.len(),
{
    if runs.len() > 0 {
        lemma_trim_end_concat(runs_text(runs.drop_last()), runs.last().text);
        if trim_end_chars(runs.last().text).len() == 0 {
            lemma_trim_back_runs_text(runs.drop_last());
        } else {
            let t = runs.update(
                runs.len() - 1,
                with_text(runs.last(), trim_end_chars(runs.last().text)),
            );
            assert(t.drop_last() =~= runs.drop_last());
        }
    }
}

/// Trimming the runs of a rendering at both edges trims its text: the text
/// of the trimmed runs is the trimmed text of the runs.
pub proof fn law_trimmed_runs_text(runs: Seq<RunView>)
    ensures
        runs_text(trim_runs(runs)) == trim_chars(runs_text(runs)),
{
    lemma_trim_front_runs_text(runs);
    lemma_trim_back_runs_text(trim_front_runs(runs));
}

/// Trimming at the front leaves nothing or a first character that is not
/// white space.
proof fn lemma_trim_start_edge(s: Seq<char>)
    ensures
        trim_start_chars(s).len() == 0 || !is_white_space(trim_start_chars(s)[0]),
    decreases s.len(),
{
    if s.len() > 0 && is_white_space(s[0]) {
        lemma_trim_start_edge(s.drop_first());
    }
}

/// Trimming at the back keeps a prefix, and leaves nothing or a last
/// character that is not white space.
proof fn lemma_trim_end_prefix(s: Seq<char>)
    ensures
        trim_end_chars(s).len() <= s.len(),
        trim_end_chars(s) == s.take(trim_end_chars(s).len() as int),
        trim_end_chars(s).len() == 0 || !is_white_space(trim_end_chars(s).last()),
    decreases s.len(),
{
    if s.len() > 0 && is_white_space(s.last()) {
        lemma_trim_end_prefix(s.drop_last());
        let t = trim_end_chars(s.drop_last());
        assert(s.drop_last().take(t.len() as int) =~= s.take(t.len() as int));
    } else {
        assert(s.take(s.len() as int) =~= s);
    }
}

/// A trimmed text has no white space at either end.
pub proof fn law_trimmed_text_edges(s: Seq<char>)
    ensures
        trim_chars(s).len() == 0 || (!is_white_space(trim_chars(s)[0]) && !is_white_space(
            trim_chars(s).last(),
        )),
{
    lemma_trim_start_edge(s);
    lemma_trim_end_prefix(trim_start_chars(s));
}

/// In a bibliography entry, the set-apart first field and the content are
/// kept apart: when both are present, white space stands where they meet.
pub proof fn law_item_prefix_meets_content(item: BibItemView)
    ensures
        item_prefix_runs(item).len() > 0 && item_content_runs(item).len() > 0 ==> ends_with_white_space(
            item_prefix_runs(item),
        ) || starts_with_white_space(item_content_runs(item)),
{
    let prefix = trim_runs(crate::json::first_field_runs(item.first_field));
    if prefix.len() > 0 {
        let last = prefix.last();
        let spaced = with_text(last, last.text.push(' '));
        let updated = prefix.update(prefix.len() - 1, spaced);
        assert(updated.last().text == last.text.push(' '));
        assert(updated.last().text.last() == ' ');
    }
}

/// Every key of the groups read from a citation file is non-empty.
pub proof fn law_citation_keys_non_empty(input: Seq<char>, path: Seq<char>)
    ensures
        citation_groups_text(input, path) matches Ok(groups) ==> forall|g: int, k: int|
            0 <= g < groups.len() && 0 <= k < groups[g].len() ==> #[trigger] groups[g][k].len() > 0,
{
    lemma_groups_non_empty(split_at_char(input, '\n'), 0, path);
}

proof fn lemma_groups_non_empty(lines: Seq<Seq<char>>, k: int, path: Seq<char>)
    ensures
        groups_from_lines(lines, k, path) matches Ok(groups) ==> forall|g: int, j: int|
            0 <= g < groups.len() && 0 <= j < groups[g].len() ==> #[trigger] groups[g][j].len() > 0,
    decreases lines.len() - k,
{
    if 0 <= k < lines.len() {
        lemma_groups_non_empty(lines, k + 1, path);
    }
}

/// Whether listings come in display-name order: no display name sorts
/// before that of a listing ahead of it.
pub open spec fn sorted_by_display(listings: Seq<StyleListingView>) -> bool {
    forall|i: int, j: int|
        0 <= i < j < listings.len() ==> !chars_lt(
            #[trigger] listings[j].display_name,
            #[trigger] listings[i].display_name,
        )
}

proof fn lemma_insert_sorted(s: Seq<StyleListingView>, x: StyleListingView)
    requires
        sorted_by_display(s),
    ensures
        sorted_by_display(insert_by_display(s, x)),
        insert_by_display(s, x).to_multiset() =~= s.to_multiset().insert(x),
    decreases s.len(),
{
    broadcast use group_to_multiset_ensures;

    if s.len() == 0 {
        assert(seq![x] =~= Seq::<StyleListingView>::empty().push(x));
    } else if chars_lt(x.display_name, s.last().display_name) {
        let s0 = s.drop_last();
        let last = s.last();
        assert(s =~= s0.push(last));
        lemma_insert_sorted(s0, x);
        let r0 = insert_by_display(s0, x);
        assert forall|i: int| 0 <= i < r0.len() implies !chars_lt(
            last.display_name,
            #[trigger] r0[i].display_name,
        ) by {
            assert(r0.contains(r0[i]));
            assert(r0.to_multiset().count(r0[i]) > 0);
            if r0[i] == x {
                lemma_chars_lt_total(x.display_name, last.display_name);
            } else {
                assert(s0.to_multiset().count(r0[i]) > 0);
                assert(s0.contains(r0[i]));
                let k = choose|k: int| 0 <= k < s0.len() && s0[k] == r0[i];
                assert(s[k] == s0[k]);
                assert(s[s.len() - 1] == last);
            }
        }
        let r = r0.push(last);
        assert forall|i: int, j: int| 0 <= i < j < r.len() implies !chars_lt(
            #[trigger] r[j].display_name,
            #[trigger] r[i].display_name,
        ) by {
            if j < r0.len() {
                assert(r[i] == r0[i] && r[j] == r0[j]);
            } else {
                assert(r[i] == r0[i]);
            }
        }
    } else {
        let r = s.push(x);
        assert forall|i: int, j: int| 0 <= i < j < r.len() implies !chars_lt(
            #[trigger] r[j].display_name,
            #[trigger] r[i].display_name,
        ) by {
            if j < s.len() {
                assert(r[i] == s[i] && r[j] == s[j]);
            } else {
                assert(r[j] == x && r[i] == s[i]);
                if chars_lt(x.display_name, s[i].display_name) {
                    if i < s.len() - 1 {
                        lemma_chars_lt_total(s[i].display_name, s.last().display_name);
                        if chars_lt(s[i].display_name, s.last().display_name) {
                            lemma_chars_lt_transitive(
                                x.display_name,
                                s[i].display_name,
                                s.last().display_name,
                            );
                        }
                    }
                }
            }
        }
    }
}

/// The offered styles are listed in display-name order, and sorting keeps
/// every listing, each as often as before.
pub proof fn law_listings_sorted(listings: Seq<StyleListingView>)
    ensures
        sorted_by_display(sort_by_display(listings)),
        sort_by_display(listings).to_multiset() =~= listings.to_multiset(),
    decreases listings.len(),
{
    broadcast use group_to_multiset_ensures;

    if listings.len() > 0 {
        let rest = listings.drop_last();
        law_listings_sorted(rest);
        lemma_insert_sorted(sort_by_display(rest), listings.last());
        assert(listings =~= rest.push(listings.last()));
    }
}

/// Stepping back over white space from character `k` stops at the start
/// or just after a character that is not white space, and passes only white
/// space.
pub proof fn law_skip_white_space_back(chars: Seq<char>, k: int)
    requires
        0 <= k <= chars.len(),
    ensures
        0 <= skip_white_space_back(chars, k) <= k,
        skip_white_space_back(chars, k) == 0 || !is_white_space(
            chars[skip_white_space_back(chars, k) - 1],
        ),
        forall|j: int|
            skip_white_space_back(chars, k) <= j < k ==> is_white_space(#[trigger] chars[j]),
    decreases k,
{
    if k > 0 && is_white_space(chars[k - 1]) {
        law_skip_white_space_back(chars, k - 1);
    }
}

/// The least of the first `n` names in `style_key_less` order, by position.
proof fn lemma_least_name(names: Seq<Seq<char>>, n: int) -> (best: int)
    requires
        0 < n <= names.len(),
    ensures
        0 <= best < n,
        forall|j: int| 0 <= j < n ==> !style_key_less(#[trigger] names[j], names[best]),
    decreases n,
{
    if n == 1 {
        assert forall|j: int| 0 <= j < 1 implies !style_key_less(#[trigger] names[j], names[0]) by {
            lemma_chars_lt_total(names[0], names[0]);
        }
        0
    } else {
        let b = lemma_least_name(names, n - 1);
        if style_key_less(names[n - 1], names[b]) {
            assert forall|j: int| 0 <= j < n implies !style_key_less(
                #[trigger] names[j],
                names[n - 1],
            ) by {
                lemma_chars_lt_total(names[j], names[n - 1]);
                if style_key_less(names[j], names[n - 1]) {
                    lemma_style_key_less_transitive(names[j], names[n - 1], names[b]);
                }
            }
            n - 1
        } else {
            b
        }
    }
}

/// The key a style is offered under is one of its names, and none of its
/// names is shorter, or as long and sorting before it.
pub proof fn law_style_key_is_least_name(names: Seq<Seq<char>>)
    requires
        names.len() > 0,
    ensures
        is_min_style_key(names, min_style_key(names)),
{
    let best = lemma_least_name(names, names.len() as int);
    assert(is_min_style_key(names, names[best]));
}

/// A key that selects an independent style, one that can be chosen.
pub open spec fn selects_independent_style(key: Seq<char>) -> bool {
    is_style_name(key) && is_independent_style(key)
}

proof fn lemma_offered_keys_select_styles(candidates: Seq<StyleCandidate>)
    requires
        candidates_agree(candidates),
    ensures
        forall|j: int|
            0 <= j < offered_listings(candidates).len() ==> selects_independent_style(
                #[trigger] offered_listings(candidates)[j].key,
            ),
    decreases candidates.len(),
{
    if candidates.len() > 0 {
        let rest = candidates.drop_last();
        assert(candidates_agree(rest)) by {
            assert forall|k: int| 0 <= k < rest.len() implies #[trigger] rest[k] == candidates[k] by {}
            assert forall|k: int, i: int|
                0 <= k < rest.len() && 0 <= i < rest[k].names.len() implies is_style_name(
                #[trigger] rest[k].names@[i]@,
            ) by {
                assert(rest[k] == candidates[k]);
            }
            assert forall|k: int, i: int|
                0 <= k < rest.len() && 0 <= i < rest[k].names.len() implies (is_independent_style(
                #[trigger] rest[k].names@[i]@,
            ) <==> is_independent_style(rest[k].names@[0]@)) by {
                assert(rest[k] == candidates[k]);
            }
        }
        lemma_offered_keys_select_styles(rest);
        let last = candidates.last();
        let k = candidates.len() - 1;
        assert(candidates[k] == last);
        assert(describes_style(candidates[k]));
        if is_offered(last) {
            let names = last.names@.map_values(|n: String| n@);
            law_style_key_is_least_name(names);
            let key = min_style_key(names);
            let i = choose|i: int| 0 <= i < names.len() && names[i] == key;
            assert(names[i] == candidates[k].names@[i]@);
            assert(names[0] == candidates[k].names@[0]@);
            assert(listing_of(last).key == key);
            assert(is_style_name(key));
            assert(is_independent_style(key));
        }
    }
}

/// Every style listed for the host is listed under a key that selects it by
/// name and can be chosen: when the candidates are the archive's styles (as
/// `list_styles` states), the key of each offered listing selects an
/// independent style, which `set_style` accepts.
pub proof fn law_listed_keys_select_styles(candidates: Seq<StyleCandidate>)
    requires
        candidates_of_archive(candidates),
    ensures
        forall|j: int|
            0 <= j < sort_by_display(offered_listings(candidates)).len() ==> selects_independent_style(
                #[trigger] sort_by_display(offered_listings(candidates))[j].key,
            ),
{
    broadcast use group_to_multiset_ensures;

    let offered = offered_listings(candidates);
    let sorted = sort_by_display(offered);
    lemma_offered_keys_select_styles(candidates);
    law_listings_sorted(offered);
    assert forall|j: int| 0 <= j < sorted.len() implies selects_independent_style(
        #[trigger] sorted[j].key,
    ) by {
        assert(sorted.contains(sorted[j]));
        assert(sorted.to_multiset().count(sorted[j]) > 0);
        assert(offered.to_multiset().count(sorted[j]) > 0);
        assert(offered.contains(sorted[j]));
        let i = choose|i: int| 0 <= i < offered.len() && offered[i] == sorted[j];
        assert(selects_independent_style(offered[i].key));
    }
}

proof fn lemma_missing_in_group(group: Seq<Seq<char>>, keys: Seq<Seq<char>>)
    ensures
        missing_in_group(group, keys) is None <==> forall|k: int|
            0 <= k < group.len() ==> keys.contains(#[trigger] group[k]),
        missing_in_group(group, keys) matches Some(key) ==> !keys.contains(key) && group.contains(
            key,
        ),
    decreases group.len(),
{
    if group.len() > 0 {
        lemma_missing_in_group(group.drop_first(), keys);
        if keys.contains(group[0]) {
            if missing_in_group(group.drop_first(), keys) is None {
                assert forall|k: int| 0 <= k < group.len() implies keys.contains(#[trigger] group[k]) by {
                    if k > 0 {
                        assert(group[k] == group.drop_first()[k - 1]);
                    }
                }
            } else {
                let key = missing_in_group(group.drop_first(), keys)->0;
                let i = choose|i: int| 0 <= i < group.drop_first().len() && group.drop_first()[i] == key;
                assert(group[i + 1] == key);
            }
        } else {
            assert(group.contains(group[0]));
        }
    }
}

/// Citing fails exactly when some cited key is not in the bibliography, and
/// then it names such a key, one that was cited.
pub proof fn law_missing_key_is_cited_and_absent(groups: Seq<Seq<Seq<char>>>, keys: Seq<Seq<char>>)
    ensures
        first_missing_key(groups, keys) is None <==> forall|g: int, k: int|
            0 <= g < groups.len() && 0 <= k < groups[g].len() ==> keys.contains(
                #[trigger] groups[g][k],
            ),
        first_missing_key(groups, keys) matches Some(key) ==> !keys.contains(key) && exists|g: int|
            0 <= g < groups.len() && #[trigger] groups[g].contains(key),
    decreases groups.len(),
{
    if groups.len() > 0 {
        lemma_missing_in_group(groups[0], keys);
        law_missing_key_is_cited_and_absent(groups.drop_first(), keys);
        let rest = groups.drop_first();
        match missing_in_group(groups[0], keys) {
            Some(key) => {
                let k = choose|k: int| 0 <= k < groups[0].len() && groups[0][k] == key;
                assert(!keys.contains(groups[0][k]));
            },
            None => {
                if first_missing_key(rest, keys) is None {
                    assert forall|g: int, k: int|
                        0 <= g < groups.len() && 0 <= k < groups[g].len() implies keys.contains(
                        #[trigger] groups[g][k],
                    ) by {
                        if g > 0 {
                            assert(groups[g] == rest[g - 1]);
                        }
                    }
                } else {
                    let key = first_missing_key(rest, keys)->0;
                    let g = choose|g: int| 0 <= g < rest.len() && #[trigger] rest[g].contains(key);
                    assert(groups[g + 1] == rest[g]);
                    let k = choose|k: int| 0 <= k < rest[g].len() && rest[g][k] == key;
                    assert(groups[g + 1][k] == key);
                }
            },
        }
    }
}

/// Expanding the tabs of two pieces of text one after the other is
/// expanding the tabs of the whole: the second piece is laid out from the
/// column where the first ends.
pub proof fn law_expand_tabs_concat(x: Seq<char>, y: Seq<char>, start: int)
    ensures
        expand_tabs_spec(x + y, start) == expand_tabs_spec(x, start) + expand_tabs_spec(
            y,
            end_column(x, start),
        ),
    decreases y.len(),
{
    if y.len() == 0 {
        assert(x + y =~= x);
        assert(expand_tabs_spec(x, start) + Seq::<char>::empty() =~= expand_tabs_spec(x, start));
    } else {
        let xy = x + y;
        assert(xy.drop_last() =~= x + y.drop_last());
        assert(xy.last() == y.last());
        law_expand_tabs_concat(x, y.drop_last(), start);
        lemma_end_column_concat(x, y.drop_last(), start);
        let a = expand_tabs_spec(x, start);
        let b = expand_tabs_spec(y.drop_last(), end_column(x, start));
        if y.last() == '\t' {
            let n = char_columns(y.last(), end_column(y.drop_last(), end_column(x, start))) as nat;
            assert(a + b + Seq::new(n, |k: int| ' ') =~= a + (b + Seq::new(n, |k: int| ' ')));
        } else {
            assert((a + b).push(y.last()) =~= a + b.push(y.last()));
        }
    }
}

/// Text without tabs is its own expansion, from any column.
pub proof fn law_expand_tabs_without_tabs(text: Seq<char>, start: int)
    requires
        !text.contains('\t'),
    ensures
        expand_tabs_spec(text, start) == text,
    decreases text.len(),
{
    if text.len() > 0 {
        assert(!text.drop_last().contains('\t')) by {
            if text.drop_last().contains('\t') {
                let i = choose|i: int| 0 <= i < text.drop_last().len() && text.drop_last()[i] == '\t';
                assert(text[i] == '\t');
            }
        }
        assert(text.last() != '\t') by {
            assert(text[text.len() - 1] == text.last());
        }
        law_expand_tabs_without_tabs(text.drop_last(), start);
        assert(text.drop_last().push(text.last()) =~= text);
    }
}

/// Text without tabs occupies the same number of columns from any start
/// column.
pub proof fn law_width_without_tabs(text: Seq<char>, s1: int, s2: int)
    requires
        !text.contains('\t'),
    ensures
        end_column(text, s1) - s1 == end_column(text, s2) - s2,
    decreases text.len(),
{
    if text.len() > 0 {
        assert(!text.drop_last().contains('\t')) by {
            if text.drop_last().contains('\t') {
                let i = choose|i: int| 0 <= i < text.drop_last().len() && text.drop_last()[i] == '\t';
                assert(text[i] == '\t');
            }
        }
        assert(text.last() != '\t') by {
            assert(text[text.len() - 1] == text.last());
        }
        law_width_without_tabs(text.drop_last(), s1, s2);
    }
}

/// Stepping back over white space a second time stays where the first step
/// stopped: the place for a missing comma is found again from itself.
pub proof fn law_skip_white_space_back_idempotent(chars: Seq<char>, k: int)
    requires
        0 <= k <= chars.len(),
    ensures
        skip_white_space_back(chars, skip_white_space_back(chars, k)) == skip_white_space_back(
            chars,
            k,
        ),
{
    law_skip_white_space_back(chars, k);
}

/// The character that display column `c` falls on starts at column `c`,
/// when some character starts there: for the column where the `k`-th
/// character starts, the walk towards it (see `stop_index`, which
/// `byte_offset_at_display_column` follows) stops at or before `k`, on a
/// character that starts at that same column; and where every character
/// takes at least one column, it stops at `k` itself.
pub proof fn law_display_column_lands_on_its_character(chars: Seq<char>, k: int)
    requires
        0 <= k <= chars.len(),
    ensures
        stop_index(chars, end_column(chars.take(k), 0)) <= k,
        end_column(chars.take(stop_index(chars, end_column(chars.take(k), 0))), 0) == end_column(
            chars.take(k),
            0,
        ),
        (forall|i: int|
            0 <= i < chars.len() ==> #[trigger] char_columns(chars[i], end_column(chars.take(i), 0))
                >= 1) ==> stop_index(chars, end_column(chars.take(k), 0)) == k,
{
    let t = end_column(chars.take(k), 0);
    lemma_end_column_prefix(chars, k, 0);
    lemma_stop_index_before(chars, t, k);
    lemma_stop_index_from(chars, t, 0);
    let s = stop_index(chars, t);
    if s > 0 {
        assert(!stops_at(chars, t, s - 1));
    } else {
        assert(chars.take(0) =~= Seq::<char>::empty());
    }
    if s < k {
        assert(stops_at(chars, t, s));
        lemma_end_column_prefix(chars.take(k), s + 1, 0);
        assert(chars.take(k).take(s + 1) =~= chars.take(s + 1));
        assert(chars.take(s + 1) =~= chars.take(s).push(chars[s]));
        assert(chars.take(s + 1).drop_last() =~= chars.take(s));
        if forall|i: int|
            0 <= i < chars.len() ==> #[trigger] char_columns(chars[i], end_column(chars.take(i), 0))
                >= 1 {
            assert(char_columns(chars[s], end_column(chars.take(s), 0)) >= 1);
        }
    }
}

/// Byte lengths of prefixes grow with the prefix.
proof fn lemma_utf8_len_prefixes(chars: Seq<char>, i: int, j: int)
    requires
        0 <= i <= j <= chars.len(),
    ensures
        utf8_len(chars.take(i)) + (j - i) <= utf8_len(chars.take(j)),
    decreases j - i,
{
    if i < j {
        lemma_utf8_len_prefixes(chars, i, j - 1);
        lemma_utf8_len_push(chars.take(j - 1), chars[j - 1]);
        assert(chars.take(j) =~= chars.take(j - 1).push(chars[j - 1]));
    }
}

/// At the byte offset where the `m`-th character starts, exactly `m`
/// characters lie within the offset.
pub proof fn lemma_chars_within_boundary(chars: Seq<char>, m: int)
    requires
        0 <= m <= chars.len(),
    ensures
        chars_within(chars, utf8_len(chars.take(m)) as int) == m,
{
    let off = utf8_len(chars.take(m)) as int;
    lemma_chars_within(chars, off);
    let c = chars_within(chars, off) as int;
    if c < m {
        lemma_utf8_len_prefixes(chars, c + 1, m);
    } else if c > m {
        lemma_utf8_len_prefixes(chars, m + 1, c);
        lemma_utf8_len_prefixes(chars, m, m + 1);
    }
}

/// The offset found for a missing comma is a fixed point: looking for the
/// comma again from that offset gives the same offset (see
/// `missing_comma_offset`).
pub proof fn law_missing_comma_offset_fixed(chars: Seq<char>, offset: int)
    ensures
        ({
            let r = utf8_len(chars.take(skip_white_space_back(chars, chars_within(chars, offset) as int)));
            utf8_len(chars.take(skip_white_space_back(chars, chars_within(chars, r as int) as int)))
                == r
        }),
{
    lemma_chars_within(chars, offset);
    let k = chars_within(chars, offset) as int;
    law_skip_white_space_back(chars, k);
    let m = skip_white_space_back(chars, k);
    lemma_chars_within_boundary(chars, m);
    law_skip_white_space_back_idempotent(chars, k);
}

/// Two candidates with the same names that both describe their style are
/// offered alike and listed alike.
proof fn lemma_same_listing(a: StyleCandidate, b: StyleCandidate)
    requires
        a.names.len() > 0,
        a.names@.map_values(|n: String| n@) == b.names@.map_values(|n: String| n@),
        describes_style(a),
        describes_style(b),
    ensures
        is_offered(a) == is_offered(b),
        listing_of(a) == listing_of(b),
{
    assert(b.names@.map_values(|n: String| n@).len() == b.names@.len());
    assert(a.names@.map_values(|n: String| n@)[0] == a.names@[0]@);
    assert(b.names@.map_values(|n: String| n@)[0] == b.names@[0]@);
}

/// Candidates that agree index for index are offered and listed alike, up
/// to any length.
proof fn lemma_same_offered_listings(c1: Seq<StyleCandidate>, c2: Seq<StyleCandidate>, j: int)
    requires
        0 <= j <= c1.len(),
        c1.len() == c2.len(),
        forall|k: int|
            0 <= k < c1.len() ==> is_offered(#[trigger] c1[k]) == is_offered(c2[k]) && listing_of(
                c1[k],
            ) == listing_of(c2[k]),
    ensures
        offered_listings(c1.take(j)) == offered_listings(c2.take(j)),
    decreases j,
{
    if j > 0 {
        lemma_same_offered_listings(c1, c2, j - 1);
        assert(c1.take(j).drop_last() =~= c1.take(j - 1));
        assert(c2.take(j).drop_last() =~= c2.take(j - 1));
        assert(c1.take(j).last() == c1[j - 1]);
        assert(c2.take(j).last() == c2[j - 1]);
    } else {
        assert(c1.take(0) =~= c2.take(0));
    }
}

/// The candidates that are the archive's styles are as many as the archive
/// has: no two readings of the archive differ in length.
proof fn lemma_archive_candidates_len(c1: Seq<StyleCandidate>, c2: Seq<StyleCandidate>)
    requires
        candidates_of_archive(c1),
        candidates_of_archive(c2),
    ensures
        c2.len() <= c1.len(),
{
    if c1.len() < c2.len() {
        let k = c2.len() - 1;
        assert(c2[k].names.len() > 0);
        let n = c2[k].names@[0]@;
        assert(is_archive_name(n));
        let (k1, i1) = choose|k1: int, i1: int|
            #![trigger c1[k1].names@[i1]]
            0 <= k1 < c1.len() && 0 <= i1 < c1[k1].names.len() && c1[k1].names@[i1]@ == n;
        assert(archive_index_of(c1[k1].names@[i1]@) == k1);
        assert(archive_index_of(c2[k].names@[0]@) == k);
    }
}

/// Listing the embedded styles gives the same document on every call: any
/// two sequences of candidates that are the archive's styles, in archive
/// order (as `list_styles` reads them), give the same JSON.
pub proof fn law_styles_document_determined(c1: Seq<StyleCandidate>, c2: Seq<StyleCandidate>)
    requires
        candidates_of_archive(c1),
        candidates_of_archive(c2),
    ensures
        styles_document(c1) == styles_document(c2),
{
    lemma_archive_candidates_len(c1, c2);
    lemma_archive_candidates_len(c2, c1);
    assert forall|k: int| 0 <= k < c1.len() implies is_offered(#[trigger] c1[k]) == is_offered(c2[k])
        && listing_of(c1[k]) == listing_of(c2[k]) by {
        assert(c1[k].names.len() > 0);
        assert(describes_style(c1[k]));
        assert(describes_style(c2[k]));
        assert(c1[k].names@.map_values(|n: String| n@) == archive_style_names(k));
        assert(c2[k].names@.map_values(|n: String| n@) == archive_style_names(k));
        lemma_same_listing(c1[k], c2[k]);
    }
    lemma_same_offered_listings(c1, c2, c1.len() as int);
    assert(c1.take(c1.len() as int) =~= c1);
    assert(c2.take(c2.len() as int) =~= c2);
}

/// Two descriptions of the same entry are written alike.
proof fn lemma_same_entry_json(a: EntryOut, b: EntryOut, entry: crate::bindings::EntryFields)
    requires
        describes_entry(a, entry),
        describes_entry(b, entry),
    ensures
        entry_json(a) == entry_json(b),
{
    reveal(entry_json);
    let an = a.authors@.map_values(|n: String| n@);
    let bn = b.authors@.map_values(|n: String| n@);
    assert(an.len() == a.authors@.len() && bn.len() == b.authors@.len());
    assert forall|i: int| 0 <= i < a.authors@.len() implies a.authors@[i]@ == b.authors@[i]@ by {
        assert(an[i] == a.authors@[i]@);
        assert(bn[i] == b.authors@[i]@);
    }
    assert(a.authors@.map_values(|s: String| crate::json::json_string(s@)) =~= b.authors@.map_values(
        |s: String| crate::json::json_string(s@),
    ));
    assert(strings_json(a.authors@) == strings_json(b.authors@));
}

/// Listing the entries of a bibliography gives the same document on every
/// call: any two descriptions of the same entries are written alike (see
/// `json::list_entries` and `HayagrivaCtx::list_entries`).
pub proof fn law_entries_document_determined(
    a: Seq<EntryOut>,
    b: Seq<EntryOut>,
    entries: Seq<crate::bindings::EntryFields>,
)
    requires
        describes_entries(a, entries),
        describes_entries(b, entries),
    ensures
        entries_json(a) == entries_json(b),
{
    assert forall|i: int| 0 <= i < a.len() implies entry_json(#[trigger] a[i]) == entry_json(b[i]) by {
        assert(describes_entry(a[i], entries[i]));
        assert(describes_entry(b[i], entries[i]));
        lemma_same_entry_json(a[i], b[i], entries[i]);
    }
    assert(a.map_values(|e: EntryOut| entry_json(e)) =~= b.map_values(|e: EntryOut| entry_json(e)));
}

/// The rendered JSON keeps the order of the rendering: the `i`-th object of
/// its `citations` array is written from the `i`-th rendered citation (the
/// one requested for the `i`-th citation group), and the `i`-th object of
/// its bibliography items from the `i`-th bibliography entry.
pub proof fn law_render_json_keeps_order(doc: DocView)
    ensures
        render_json(doc) == seq!['{'] + json_member(
            "citations"@,
            json_array(
                Seq::new(doc.citations.len(), |i: int| citation_json(doc.citations[i].citation)),
            ),
        ) + seq![','] + json_member(
            "bibliography"@,
            seq!['{'] + json_member(
                "items"@,
                json_array(Seq::new(doc_items(doc).len(), |i: int| item_json(doc_items(doc)[i]))),
            ) + seq!['}'],
        ) + seq!['}'],
{
    assert(Seq::new(doc.citations.len(), |i: int| citation_json(doc.citations[i].citation))
        =~= doc.citations.map_values(|c: crate::document::CitationView| citation_json(c.citation)));
    assert(Seq::new(doc_items(doc).len(), |i: int| item_json(doc_items(doc)[i])) =~= doc_items(
        doc,
    ).map_values(|item: BibItemView| item_json(item)));
}

/// Each field of a listed entry is the entry's own: its key, its title,
/// its authors' names in order, its year, its first parent's title as the
/// container title, its volume, its issue and its page range, each under
/// its own name in the entry's JSON object.
pub proof fn law_entry_json_fields(out: EntryOut, entry: crate::bindings::EntryFields)
    requires
        describes_entry(out, entry),
    ensures
        entry_json(out) == seq!['{'] + json_member("key"@, json_string(entry.key)) + seq![',']
            + json_member("title"@, json_opt_string(entry.title)) + seq![','] + json_member(
            "authors"@,
            json_array(
                match entry.authors {
                    Some(names) => names.map_values(|n: Seq<char>| json_string(n)),
                    None => Seq::<Seq<char>>::empty(),
                },
            ),
        ) + seq![','] + json_member("year"@, json_opt_integer(entry.year)) + seq![',']
            + json_member(
            "container_title"@,
            json_opt_string(
                if entry.parents.len() > 0 {
                    entry.parents[0].title
                } else {
                    None
                },
            ),
        ) + seq![','] + json_member("volume"@, json_opt_string(entry.volume)) + seq![',']
            + json_member("issue"@, json_opt_string(entry.issue)) + seq![','] + json_member(
            "page_range"@,
            json_opt_string(entry.page_range),
        ) + seq!['}'],
{
    reveal(entry_json);
    let names = match entry.authors {
        Some(ns) => ns,
        None => Seq::<Seq<char>>::empty(),
    };
    assert(out.authors@.map_values(|n: String| n@) == names);
    assert(out.authors@.map_values(|s: String| json_string(s@)) =~= names.map_values(
        |n: Seq<char>| json_string(n),
    )) by {
        assert forall|i: int| 0 <= i < names.len() implies out.authors@[i]@ == names[i] by {
            assert(out.authors@.map_values(|n: String| n@)[i] == out.authors@[i]@);
        }
    }
    assert(strings_json(out.authors@) == json_array(names.map_values(|n: Seq<char>| json_string(n))));
}

/// The styles offered are the archive's independent in-text styles, and
/// each is listed as the archive describes it: under the least of its names,
/// with its display name, its default locale and the format of its first
/// citation-format category, all as the archive gives them for the style.
pub proof fn law_listing_follows_archive(candidates: Seq<StyleCandidate>, k: int)
    requires
        candidates_of_archive(candidates),
        0 <= k < candidates.len(),
    ensures
        ({
            let names = archive_style_names(k);
            let name = names[0];
            &&& is_offered(candidates[k]) <==> is_independent_style(name) && style_class_of(name)
                == StyleClassKind::InText
            &&& is_offered(candidates[k]) ==> listing_of(candidates[k]) == (StyleListingView {
                key: min_style_key(names),
                display_name: style_display_name_of(name),
                default_locale: style_default_locale_of(name),
                citation_format: match first_citation_format(style_categories_of(name)) {
                    Some(f) => Some(citation_format_name(f)),
                    None => None,
                },
            })
        }),
{
    let c = candidates[k];
    assert(c.names.len() > 0);
    assert(describes_style(c));
    assert(c.names@.map_values(|n: String| n@) == archive_style_names(k));
    assert(c.names@.map_values(|n: String| n@)[0] == c.names@[0]@);
}

/// Whether `s` holds no white space.
pub open spec fn no_white_space(s: Seq<char>) -> bool {
    forall|j: int| 0 <= j < s.len() ==> !is_white_space(#[trigger] s[j])
}

/// The pieces of `s` cut at white space hold no white space, and together,
/// in order, they are the characters of `s` that are not white space.
proof fn lemma_split_at_white_space(s: Seq<char>)
    ensures
        split_at_white_space(s).len() > 0,
        forall|i: int|
            0 <= i < split_at_white_space(s).len() ==> no_white_space(
                #[trigger] split_at_white_space(s)[i],
            ),
        split_at_white_space(s).flatten() == s.filter(|c: char| !is_white_space(c)),
    decreases s.len(),
{
    let pred = |c: char| !is_white_space(c);
    if s.len() == 0 {
        assert(s.filter(pred) =~= Seq::<char>::empty()) by {
            reveal_with_fuel(Seq::filter, 1);
        }
        let p = split_at_white_space(s);
        assert(p =~= seq![Seq::<char>::empty()]);
        seq![Seq::<char>::empty()].lemma_flatten_one_element();
    } else {
        let rest = s.drop_last();
        let c = s.last();
        lemma_split_at_white_space(rest);
        let parts = split_at_white_space(rest);
        assert(s.filter(pred) == if pred(c) {
            rest.filter(pred).push(c)
        } else {
            rest.filter(pred)
        }) by {
            reveal_with_fuel(Seq::filter, 1);
        }
        if is_white_space(c) {
            parts.lemma_flatten_push(Seq::<char>::empty());
            assert(parts.flatten() + Seq::<char>::empty() =~= parts.flatten());
            let p = split_at_white_space(s);
            assert forall|i: int| 0 <= i < p.len() implies no_white_space(#[trigger] p[i]) by {
                if i < parts.len() {
                    assert(p[i] == parts[i]);
                }
            }
        } else {
            let init = parts.drop_last();
            let last = parts.last();
            assert(parts =~= init.push(last));
            init.lemma_flatten_push(last);
            init.lemma_flatten_push(last.push(c));
            let p = split_at_white_space(s);
            assert(p =~= init.push(last.push(c)));
            assert(init.flatten() + last.push(c) =~= (init.flatten() + last).push(c));
            assert forall|i: int| 0 <= i < p.len() implies no_white_space(#[trigger] p[i]) by {
                if i < parts.len() - 1 {
                    assert(p[i] == parts[i]);
                } else {
                    assert(no_white_space(parts[parts.len() - 1]));
                    assert(p[i] == last.push(c));
                    assert forall|j: int| 0 <= j < p[i].len() implies !is_white_space(#[trigger] p[i][j]) by {
                        if j < last.len() {
                            assert(p[i][j] == last[j]);
                        }
                    }
                }
            }
        }
    }
}

/// Dropping empty pieces keeps what the pieces hold together.
proof fn lemma_flatten_without_empty(parts: Seq<Seq<char>>)
    ensures
        parts.filter(|w: Seq<char>| w.len() > 0).flatten() == parts.flatten(),
    decreases parts.len(),
{
    let pred = |w: Seq<char>| w.len() > 0;
    if parts.len() == 0 {
        assert(parts.filter(pred) =~= Seq::<Seq<char>>::empty()) by {
            reveal_with_fuel(Seq::filter, 1);
        }
        assert(parts =~= Seq::<Seq<char>>::empty());
    } else {
        let init = parts.drop_last();
        let last = parts.last();
        lemma_flatten_without_empty(init);
        assert(parts =~= init.push(last));
        init.lemma_flatten_push(last);
        assert(parts.filter(pred) == if pred(last) {
            init.filter(pred).push(last)
        } else {
            init.filter(pred)
        }) by {
            reveal_with_fuel(Seq::filter, 1);
        }
        if pred(last) {
            init.filter(pred).lemma_flatten_push(last);
        } else {
            assert(last =~= Seq::<char>::empty());
            assert(init.flatten() + last =~= init.flatten());
        }
    }
}

/// The words of a line are its maximal runs of characters other than white
/// space: each word is non-empty and holds no white space, and the words
/// joined back in order are the line's characters other than white space.
/// So a group of keys separated by white space, however much, never has an
/// empty key.
pub proof fn law_words_are_runs(s: Seq<char>)
    ensures
        forall|i: int|
            0 <= i < words(s).len() ==> (#[trigger] words(s)[i]).len() > 0 && no_white_space(
                words(s)[i],
            ),
        words(s).flatten() == s.filter(|c: char| !is_white_space(c)),
        !s.contains(',') ==> forall|i: int|
            0 <= i < group_of_line(s).len() ==> (#[trigger] group_of_line(s)[i]).len() > 0,
{
    let parts = split_at_white_space(s);
    let pred = |w: Seq<char>| w.len() > 0;
    lemma_split_at_white_space(s);
    lemma_flatten_without_empty(parts);
    assert forall|i: int| 0 <= i < words(s).len() implies (#[trigger] words(s)[i]).len() > 0
        && no_white_space(words(s)[i]) by {
        parts.lemma_filter_pred(pred, i);
        parts.lemma_filter_contains_rev(pred, words(s)[i]);
        let k = choose|k: int| 0 <= k < parts.len() && parts[k] == words(s)[i];
        assert(no_white_space(parts[k]));
    }
}

/// The ellipsis that marks a cut side takes three columns, where a full
/// stop takes one.
proof fn lemma_ellipsis_columns(start: int)
    requires
        unicode_width_of('.') == Some(1usize),
    ensures
        end_column(ellipsis(), start) == start + 3,
        !ellipsis().contains('\t'),
{
    let e = ellipsis();
    let e0 = Seq::<char>::empty();
    assert(end_column(e0, start) == start);
    lemma_end_column_concat(e0, seq!['.'], start);
    lemma_end_column_concat(seq!['.'], seq!['.'], start);
    lemma_end_column_concat(seq!['.', '.'], seq!['.'], start);
    assert(seq!['.'].drop_last() =~= e0);
    assert(char_columns('.', start) == 1);
    assert(char_columns('.', start + 1) == 1);
    assert(char_columns('.', start + 2) == 1);
    assert(end_column(seq!['.'], start) == end_column(e0, start) + char_columns('.', start));
    assert(end_column(seq!['.'], start + 1) == start + 2) by {
        assert(end_column(seq!['.'], start + 1) == end_column(e0, start + 1) + char_columns('.', start + 1));
    }
    assert(end_column(seq!['.'], start + 2) == start + 3) by {
        assert(end_column(seq!['.'], start + 2) == end_column(e0, start + 2) + char_columns('.', start + 2));
    }
    assert(seq!['.'] + seq!['.'] =~= seq!['.', '.']);
    assert(seq!['.', '.'] + seq!['.'] =~= e);
    assert(!e.contains('\t')) by {
        if e.contains('\t') {
            let i = choose|i: int| 0 <= i < e.len() && e[i] == '\t';
        }
    }
}

/// The `...` shown where a side is cut, or nothing.
pub open spec fn cut_mark(cut: bool) -> Seq<char> {
    if cut {
        ellipsis()
    } else {
        Seq::<char>::empty()
    }
}

/// The excerpt of a diagnostic marks the position it is for: the excerpt is
/// a piece `line[a..b]` of the line around the position, its tabs expanded
/// at their columns in the line, with `...` before it exactly when it does
/// not start the line and `...` after it exactly when it does not end the
/// line; and the marked column is the column, within that excerpt, where
/// the text of `line[a..p]` ends after the leading `...` (if any): the caret
/// stands right before the excerpt of the marked character. (Given the
/// width table's one column for a full stop and for a space.)
pub proof fn law_context_window_marks_position(line: Seq<char>, p: int)
    requires
        0 <= p <= line.len(),
        unicode_width_of('.') == Some(1usize),
        unicode_width_of(' ') == Some(1usize),
    ensures
        exists|a: int, b: int|
            #![trigger line.subrange(a, b)]
            0 <= a <= p && a <= b <= line.len() && context_window(line, p).0 == cut_mark(a > 0)
                + expand_tabs_spec(line.subrange(a, b), end_column(line.take(a), 0)) + cut_mark(
                b < line.len(),
            ) && context_window(line, p).1 == end_column(
                cut_mark(a > 0) + expand_tabs_spec(line.subrange(a, p), end_column(line.take(a), 0)),
                0,
            ),
{
    let marker = text_width(line.take(p), 0);
    let full = text_width(line, 0);
    let radius = CONTEXT_RADIUS as int;
    lemma_end_column_prefix(line, p, 0);
    lemma_end_column_prefix(line, 0, 0);
    assert(line.take(0) =~= Seq::<char>::empty());
    let (a, b) = if full <= 2 * radius {
        (0int, line.len() as int)
    } else {
        let window_start = if marker >= radius {
            marker - radius
        } else {
            0
        };
        let window_end = if marker + radius <= full {
            marker + radius
        } else {
            full
        };
        lemma_stop_index_before(line, window_start, p);
        lemma_stop_index_from(line, window_end, 0);
        lemma_stop_index_from(line, window_start, 0);
        lemma_stop_index_monotone(line, window_start, window_end);
        (stop_index(line, window_start), stop_index(line, window_end))
    };
    let ca = end_column(line.take(a), 0);
    let piece = line.subrange(a, p);
    let e = expand_tabs_spec(piece, ca);
    let mark = cut_mark(a > 0);
    law_expand_tabs_keeps_columns(piece, ca);
    law_expand_tabs_removes_tabs(piece, ca);
    lemma_end_column_concat(mark, e, 0);
    let mc = end_column(mark, 0);
    if a > 0 {
        lemma_ellipsis_columns(0);
    } else {
        assert(mark =~= Seq::<char>::empty());
    }
    law_width_without_tabs(e, mc, ca);
    if full <= 2 * radius {
        assert(line.subrange(0, line.len() as int) =~= line);
        assert(piece =~= line.take(p));
        assert(mark + expand_tabs_spec(line.subrange(a, b), ca) + cut_mark(b < line.len())
            =~= expand_tabs_spec(line, 0));
    } else {
        assert(line.take(p) =~= line.take(a) + piece);
        lemma_end_column_concat(line.take(a), piece, 0);
    }
    assert(context_window(line, p).0 == mark + expand_tabs_spec(line.subrange(a, b), ca) + cut_mark(
        b < line.len(),
    ));
    assert(context_window(line, p).1 == end_column(mark + e, 0));
}

} // verus!
