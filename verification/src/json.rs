//! The JSON documents handed to a host: rendered citations and
//! bibliography entries as formatting runs, the entries of the loaded
//! bibliography, and the embedded styles and locales. Strings are quoted by
//! miniserde; the objects and arrays around them are written here, in the
//! field order the documents define.

use vstd::prelude::*;
use crate::bindings::{
    json_quote, json_i32, library_entries, library_len, library_key_at, library_nth,
    entry_title, EntryFields, EntryRef, PersonRef,
    entry_authors, entry_year, entry_parents, person_name_first, entry_volume, entry_issue, entry_page_range,
};
use hayagriva::Library;
use crate::chars::{
    chars_of, append_chars, decimal, is_white_space, is_whitespace, string_from_chars, sub_chars,
};
use crate::document::{
    Child, TextFormat, FontStyle, FontVariant, FontWeight, TextDecoration, VerticalAlign,
    plain_formatting, plain_formatting_spec, BibItem, BibItemView, CitationView, DocView, RenderedDoc,
    RenderedCitation,
};

verus! {

broadcast use vstd::string::group_string_axioms;

/// Lower-case hexadecimal digit for `d < 16`.
pub open spec fn hex_digit(d: nat) -> char {
    if d < 10 {
        ((d + 48) as u32) as char
    } else {
        ((d + 87) as u32) as char
    }
}

/// How one character is written inside a JSON string.
pub open spec fn json_escape_char(c: char) -> Seq<char> {
    if c == '"' {
        seq!['\\', '"']
    } else if c == '\\' {
        seq!['\\', '\\']
    } else if c == '\u{8}' {
        seq!['\\', 'b']
    } else if c == '\t' {
        seq!['\\', 't']
    } else if c == '\n' {
        seq!['\\', 'n']
    } else if c == '\u{c}' {
        seq!['\\', 'f']
    } else if c == '\r' {
        seq!['\\', 'r']
    } else if (c as u32) < 0x20 {
        seq!['\\', 'u', '0', '0', hex_digit((c as u32 / 16) as nat), hex_digit((c as u32 % 16) as nat)]
    } else {
        seq![c]
    }
}

/// The characters of `s`, each escaped for a JSON string.
pub open spec fn json_escape(s: Seq<char>) -> Seq<char>
    decreases s.len(),
{
    if s.len() == 0 {
        seq![]
    } else {
        json_escape(s.drop_last()) + json_escape_char(s.last())
    }
}

/// `s` as a JSON string literal.
#[verifier::opaque]
pub open spec fn json_string(s: Seq<char>) -> Seq<char> {
    seq!['"'] + json_escape(s) + seq!['"']
}

/// `n` as a JSON number.
pub open spec fn json_integer(n: int) -> Seq<char> {
    if n < 0 {
        seq!['-'] + decimal((-n) as nat)
    } else {
        decimal(n as nat)
    }
}

/// `b` as a JSON literal.
pub open spec fn json_bool(b: bool) -> Seq<char> {
    if b {
        seq!['t', 'r', 'u', 'e']
    } else {
        seq!['f', 'a', 'l', 's', 'e']
    }
}

/// The JSON `null` literal.
pub open spec fn json_null() -> Seq<char> {
    seq!['n', 'u', 'l', 'l']
}

/// An optional string: the string, or `null`.
pub open spec fn json_opt_string(s: Option<Seq<char>>) -> Seq<char> {
    match s {
        Some(t) => json_string(t),
        None => json_null(),
    }
}

/// `items` separated by commas.
pub open spec fn comma_joined(items: Seq<Seq<char>>) -> Seq<char>
    decreases items.len(),
{
    if items.len() == 0 {
        seq![]
    } else if items.len() == 1 {
        items[0]
    } else {
        comma_joined(items.drop_last()) + seq![','] + items.last()
    }
}

/// A JSON array of the already written `items`.
pub open spec fn json_array(items: Seq<Seq<char>>) -> Seq<char> {
    seq!['['] + comma_joined(items) + seq![']']
}

/// One `"key":value` member of a JSON object.
pub open spec fn json_member(key: Seq<char>, value: Seq<char>) -> Seq<char> {
    json_string(key) + seq![':'] + value
}

/// Appends `s` as a JSON string.
fn push_json_string(out: &mut Vec<char>, s: &str)
    ensures
        final(out)@ == old(out)@ + json_string(s@),
{
    let quoted = json_quote(s);
    let cs = chars_of(quoted.as_str());
    append_chars(out, &cs);
}

/// Appends `b` as a JSON literal.
fn push_json_bool(out: &mut Vec<char>, b: bool)
    ensures
        final(out)@ == old(out)@ + json_bool(b),
{
    let ghost start = out@;
    if b {
        out.push('t');
        out.push('r');
        out.push('u');
        out.push('e');
    } else {
        out.push('f');
        out.push('a');
        out.push('l');
        out.push('s');
        out.push('e');
    }
    proof {
        assert(out@ =~= start + json_bool(b));
    }
}

/// Appends `null`.
fn push_json_null(out: &mut Vec<char>)
    ensures
        final(out)@ == old(out)@ + json_null(),
{
    let ghost start = out@;
    out.push('n');
    out.push('u');
    out.push('l');
    out.push('l');
    proof {
        assert(out@ =~= start + json_null());
    }
}

/// Appends `"key":` for a member name.
fn push_key(out: &mut Vec<char>, key: &str)
    ensures
        final(out)@ == old(out)@ + json_string(key@) + seq![':'],
{
    push_json_string(out, key);
    out.push(':');
}

/// A run of text with one formatting, as written to JSON.
pub struct Run {
    pub text: String,
    pub italic: bool,
    pub font_weight: &'static str,
    pub small_caps: bool,
    pub underline: bool,
    pub vertical_align: &'static str,
    pub url: Option<String>,
}

/// A `Run` as plain values.
pub struct RunView {
    pub text: Seq<char>,
    pub italic: bool,
    pub font_weight: Seq<char>,
    pub small_caps: bool,
    pub underline: bool,
    pub vertical_align: Seq<char>,
    pub url: Option<Seq<char>>,
}

/// An optional string as plain values.
pub open spec fn opt_view(s: Option<String>) -> Option<Seq<char>> {
    match s {
        Some(t) => Some(t@),
        None => None,
    }
}

impl View for Run {
    type V = RunView;

    open spec fn view(&self) -> RunView {
        RunView {
            text: self.text@,
            italic: self.italic,
            font_weight: self.font_weight@,
            small_caps: self.small_caps,
            underline: self.underline,
            vertical_align: self.vertical_align@,
            url: opt_view(self.url),
        }
    }
}

/// The views of `runs`.
pub open spec fn runs_view(runs: Seq<Run>) -> Seq<RunView> {
    runs.map_values(|r: Run| r@)
}

/// The JSON name of a font weight.
pub open spec fn font_weight_name(weight: FontWeight) -> Seq<char> {
    match weight {
        FontWeight::Normal => "normal"@,
        FontWeight::Bold => "bold"@,
        FontWeight::Light => "light"@,
    }
}

/// The JSON name of a vertical alignment.
pub open spec fn vertical_align_name(align: VerticalAlign) -> Seq<char> {
    match align {
        VerticalAlign::NoAlign => "none"@,
        VerticalAlign::Baseline => "baseline"@,
        VerticalAlign::Sup => "sup"@,
        VerticalAlign::Sub => "sub"@,
    }
}

/// The JSON name of a font weight.
pub fn font_weight_str(weight: FontWeight) -> (name: &'static str)
    ensures
        name@ == font_weight_name(weight),
{
    match weight {
        FontWeight::Normal => "normal",
        FontWeight::Bold => "bold",
        FontWeight::Light => "light",
    }
}

/// The JSON name of a vertical alignment.
pub fn vertical_align_str(align: VerticalAlign) -> (name: &'static str)
    ensures
        name@ == vertical_align_name(align),
{
    match align {
        VerticalAlign::NoAlign => "none",
        VerticalAlign::Baseline => "baseline",
        VerticalAlign::Sup => "sup",
        VerticalAlign::Sub => "sub",
    }
}

/// The run of `text` set with `formatting`, linking to `url` if any.
pub open spec fn run_of(text: Seq<char>, formatting: TextFormat, url: Option<Seq<char>>) -> RunView {
    RunView {
        text,
        italic: formatting.font_style == FontStyle::Italic,
        font_weight: font_weight_name(formatting.font_weight),
        small_caps: formatting.font_variant == FontVariant::SmallCaps,
        underline: formatting.text_decoration == TextDecoration::Underline,
        vertical_align: vertical_align_name(formatting.vertical_align),
        url,
    }
}

/// The run of `text` set with `formatting`, linking to `url` if any.
pub fn run_from_formatting(text: String, formatting: &TextFormat, url: Option<String>) -> (run: Run)
    ensures
        run@ == run_of(text@, *formatting, opt_view(url)),
{
    Run {
        text,
        italic: formatting.font_style == FontStyle::Italic,
        font_weight: font_weight_str(formatting.font_weight),
        small_caps: formatting.font_variant == FontVariant::SmallCaps,
        underline: formatting.text_decoration == TextDecoration::Underline,
        vertical_align: vertical_align_str(formatting.vertical_align),
        url,
    }
}

/// A run of unformatted `text`.
pub fn plain_run(text: String) -> (run: Run)
    ensures
        run@ == run_of(text@, plain_formatting_spec(), None),
{
    let formatting = plain_formatting();
    run_from_formatting(text, &formatting, None)
}

/// The runs of one node, in reading order: text and links become one run
/// each, markup becomes an unformatted run, elements contribute the runs of
/// their children, placeholders contribute nothing.
pub open spec fn child_runs(child: Child) -> Seq<RunView>
    decreases child,
{
    match child {
        Child::Text { text, formatting } => seq![run_of(text@, formatting, None)],
        Child::Elem { children, .. } => children_runs(children@),
        Child::Markup { text } => seq![run_of(text@, plain_formatting_spec(), None)],
        Child::Link { text, formatting, url } => seq![run_of(text@, formatting, Some(url@))],
        Child::Transparent { .. } => seq![],
    }
}

/// The runs of `children`, one after the other.
pub open spec fn children_runs(children: Seq<Child>) -> Seq<RunView>
    decreases children,
{
    if children.len() == 0 {
        seq![]
    } else {
        children_runs(children.drop_last()) + child_runs(children.last())
    }
}

/// Appends the runs of `children` (see `children_runs`).
pub fn push_children(children: &Vec<Child>, out: &mut Vec<Run>)
    ensures
        runs_view(final(out)@) == runs_view(old(out)@) + children_runs(children@),
    decreases children,
{
    let mut i: usize = 0;
    proof {
        assert(children@.take(0) =~= Seq::<Child>::empty());
        assert(runs_view(out@) =~= runs_view(old(out)@) + children_runs(children@.take(0)));
    }
    while i < children.len()
        invariant
            i <= children.len(),
            runs_view(out@) == runs_view(old(out)@) + children_runs(children@.take(i as int)),
        decreases children.len() - i,
    {
        proof {
            assert(decreases_to!(children => children@));
            assert(decreases_to!(children@ => children@[i as int]));
        }
        push_child(&children[i], out);
        proof {
            assert(children@.take(i + 1).drop_last() =~= children@.take(i as int));
            assert(children@.take(i + 1).last() == children@[i as int]);
        }
        i = i + 1;
    }
    proof {
        assert(children@.take(i as int) =~= children@);
    }
}

/// Appends the runs of one node (see `child_runs`).
pub fn push_child(child: &Child, out: &mut Vec<Run>)
    ensures
        runs_view(final(out)@) == runs_view(old(out)@) + child_runs(*child),
    decreases child,
{
    let ghost start = out@;
    match child {
        Child::Text { text, formatting } => {
            out.push(run_from_formatting(text.clone(), formatting, None));
        },
        Child::Elem { children, .. } => {
            push_children(children, out);
        },
        Child::Markup { text } => {
            out.push(plain_run(text.clone()));
        },
        Child::Link { text, formatting, url } => {
            out.push(run_from_formatting(text.clone(), formatting, Some(url.clone())));
        },
        Child::Transparent { .. } => {},
    }
    proof {
        assert(runs_view(out@) =~= runs_view(start) + child_runs(*child));
    }
}

/// The runs of `children`.
pub fn runs(children: &Vec<Child>) -> (out: Vec<Run>)
    ensures
        runs_view(out@) == children_runs(children@),
{
    let mut out: Vec<Run> = Vec::new();
    proof {
        assert(runs_view(out@) =~= Seq::<RunView>::empty());
    }
    push_children(children, &mut out);
    proof {
        assert(Seq::<RunView>::empty() + children_runs(children@) =~= children_runs(children@));
    }
    out
}

/// Whether some text, link or placeholder in `child` is set as superscript.
pub open spec fn child_any_sup(child: Child) -> bool
    decreases child,
{
    match child {
        Child::Text { formatting, .. } => formatting.vertical_align == VerticalAlign::Sup,
        Child::Elem { children, .. } => children_any_sup(children@),
        Child::Markup { .. } => false,
        Child::Link { formatting, .. } => formatting.vertical_align == VerticalAlign::Sup,
        Child::Transparent { formatting } => formatting.vertical_align == VerticalAlign::Sup,
    }
}

/// Whether some node of `children` holds superscript (see `child_any_sup`).
pub open spec fn children_any_sup(children: Seq<Child>) -> bool
    decreases children,
{
    if children.len() == 0 {
        false
    } else {
        children_any_sup(children.drop_last()) || child_any_sup(children.last())
    }
}

fn child_sup(child: &Child) -> (b: bool)
    ensures
        b == child_any_sup(*child),
    decreases child,
{
    match child {
        Child::Text { formatting, .. } => formatting.vertical_align == VerticalAlign::Sup,
        Child::Elem { children, .. } => children_sup(children),
        Child::Markup { .. } => false,
        Child::Link { formatting, .. } => formatting.vertical_align == VerticalAlign::Sup,
        Child::Transparent { formatting } => formatting.vertical_align == VerticalAlign::Sup,
    }
}

fn children_sup(children: &Vec<Child>) -> (b: bool)
    ensures
        b == children_any_sup(children@),
    decreases children,
{
    let mut i: usize = 0;
    proof {
        assert(children@.take(0) =~= Seq::<Child>::empty());
    }
    while i < children.len()
        invariant
            i <= children.len(),
            !children_any_sup(children@.take(i as int)),
        decreases children.len() - i,
    {
        proof {
            assert(decreases_to!(children => children@));
            assert(decreases_to!(children@ => children@[i as int]));
            assert(children@.take(i + 1).drop_last() =~= children@.take(i as int));
            assert(children@.take(i + 1).last() == children@[i as int]);
        }
        if child_sup(&children[i]) {
            proof {
                lemma_any_sup_prefix(children@, i + 1);
            }
            return true;
        }
        i = i + 1;
    }
    proof {
        assert(children@.take(i as int) =~= children@);
    }
    false
}

proof fn lemma_any_sup_prefix(children: Seq<Child>, k: int)
    requires
        0 <= k <= children.len(),
        children_any_sup(children.take(k)),
    ensures
        children_any_sup(children),
    decreases children.len(),
{
    if k < children.len() {
        assert(children.drop_last().take(k) =~= children.take(k));
        lemma_any_sup_prefix(children.drop_last(), k);
    } else {
        assert(children.take(k) =~= children);
    }
}

/// Whether any run of `children` is set as superscript. A citation is either
/// plain or, in numeric-superscript styles, superscript as a whole, so one
/// flag stands for it.
pub fn any_sup(children: &Vec<Child>) -> (sup: bool)
    ensures
        sup == children_any_sup(children@),
{
    children_sup(children)
}

/// The texts of `runs`, one after the other.
pub open spec fn runs_text(runs: Seq<RunView>) -> Seq<char>
    decreases runs.len(),
{
    if runs.len() == 0 {
        seq![]
    } else {
        runs_text(runs.drop_last()) + runs.last().text
    }
}

/// The text of `children` without formatting.
pub fn plain_text(children: &Vec<Child>) -> (text: String)
    ensures
        text@ == runs_text(children_runs(children@)),
{
    let rs = runs(children);
    let mut out: Vec<char> = Vec::new();
    let mut i: usize = 0;
    proof {
        assert(runs_view(rs@).take(0) =~= Seq::<RunView>::empty());
    }
    while i < rs.len()
        invariant
            i <= rs.len(),
            out@ == runs_text(runs_view(rs@).take(i as int)),
        decreases rs.len() - i,
    {
        let cs = chars_of(rs[i].text.as_str());
        append_chars(&mut out, &cs);
        proof {
            let v = runs_view(rs@);
            assert(v.take(i + 1).drop_last() =~= v.take(i as int));
        }
        i = i + 1;
    }
    proof {
        assert(runs_view(rs@).take(i as int) =~= runs_view(rs@));
    }
    string_from_chars(&out)
}

/// `s` without its leading white space.
pub open spec fn trim_start_chars(s: Seq<char>) -> Seq<char>
    decreases s.len(),
{
    if s.len() > 0 && is_white_space(s[0]) {
        trim_start_chars(s.drop_first())
    } else {
        s
    }
}

/// `s` without its trailing white space.
pub open spec fn trim_end_chars(s: Seq<char>) -> Seq<char>
    decreases s.len(),
{
    if s.len() > 0 && is_white_space(s.last()) {
        trim_end_chars(s.drop_last())
    } else {
        s
    }
}

/// `str::trim_start`.
pub fn trim_start_str(s: &str) -> (t: String)
    ensures
        t@ == trim_start_chars(s@),
{
    let cs = chars_of(s);
    let mut i: usize = 0;
    proof {
        assert(cs@.skip(0) =~= cs@);
    }
    while i < cs.len() && is_whitespace(cs[i])
        invariant
            i <= cs.len(),
            trim_start_chars(cs@.skip(i as int)) == trim_start_chars(cs@),
        decreases cs.len() - i,
    {
        proof {
            assert(cs@.skip(i as int).drop_first() =~= cs@.skip(i + 1));
        }
        i = i + 1;
    }
    let rest = sub_chars(&cs, i, cs.len());
    proof {
        assert(rest@ =~= cs@.skip(i as int));
    }
    string_from_chars(&rest)
}

/// `str::trim_end`.
pub fn trim_end_str(s: &str) -> (t: String)
    ensures
        t@ == trim_end_chars(s@),
{
    let cs = chars_of(s);
    let mut i: usize = cs.len();
    proof {
        assert(cs@.take(i as int) =~= cs@);
    }
    while i > 0 && is_whitespace(cs[i - 1])
        invariant
            i <= cs.len(),
            trim_end_chars(cs@.take(i as int)) == trim_end_chars(cs@),
        decreases i,
    {
        proof {
            assert(cs@.take(i as int).drop_last() =~= cs@.take(i - 1));
        }
        i = i - 1;
    }
    let rest = sub_chars(&cs, 0, i);
    proof {
        assert(rest@ =~= cs@.take(i as int));
    }
    string_from_chars(&rest)
}

/// `run` with its text replaced by `text`.
pub open spec fn with_text(run: RunView, text: Seq<char>) -> RunView {
    RunView { text, ..run }
}

/// `runs` with leading white space removed: runs left empty by it are
/// dropped, and the first run that keeps text loses its leading white space.
pub open spec fn trim_front_runs(runs: Seq<RunView>) -> Seq<RunView>
    decreases runs.len(),
{
    if runs.len() == 0 {
        runs
    } else if trim_start_chars(runs[0].text).len() == 0 {
        trim_front_runs(runs.drop_first())
    } else {
        runs.update(0, with_text(runs[0], trim_start_chars(runs[0].text)))
    }
}

/// `runs` with trailing white space removed, as `trim_front_runs` does at
/// the front.
pub open spec fn trim_back_runs(runs: Seq<RunView>) -> Seq<RunView>
    decreases runs.len(),
{
    if runs.len() == 0 {
        runs
    } else if trim_end_chars(runs.last().text).len() == 0 {
        trim_back_runs(runs.drop_last())
    } else {
        runs.update(runs.len() - 1, with_text(runs.last(), trim_end_chars(runs.last().text)))
    }
}

/// `runs` with white space trimmed at both edges.
pub open spec fn trim_runs(runs: Seq<RunView>) -> Seq<RunView> {
    trim_back_runs(trim_front_runs(runs))
}

/// Removes the white space at both edges of `runs` (see `trim_runs`).
pub fn trim_run_edges(runs: &mut Vec<Run>)
    ensures
        runs_view(final(runs)@) == trim_runs(runs_view(old(runs)@)),
{
    let ghost given = runs_view(runs@);
    loop
        invariant_except_break
            trim_front_runs(runs_view(runs@)) == trim_front_runs(given),
        ensures
            runs_view(runs@) == trim_front_runs(given),
        decreases runs.len(),
    {
        if runs.len() == 0 {
            break;
        }
        let trimmed = trim_start_str(runs[0].text.as_str());
        if trimmed.as_str().is_empty() {
            let ghost before = runs_view(runs@);
            runs.remove(0);
            proof {
                assert(runs_view(runs@) =~= before.drop_first());
            }
        } else {
            let ghost before = runs_view(runs@);
            let mut run = runs.remove(0);
            run.text = trimmed;
            runs.insert(0, run);
            proof {
                assert(runs_view(runs@) =~= before.update(
                    0,
                    with_text(before[0], trim_start_chars(before[0].text)),
                ));
            }
            break;
        }
    }
    let ghost front = runs_view(runs@);
    loop
        invariant_except_break
            trim_back_runs(runs_view(runs@)) == trim_back_runs(front),
        ensures
            runs_view(runs@) == trim_back_runs(front),
        decreases runs.len(),
    {
        if runs.len() == 0 {
            break;
        }
        let last = runs.len() - 1;
        let trimmed = trim_end_str(runs[last].text.as_str());
        if trimmed.as_str().is_empty() {
            let ghost before = runs_view(runs@);
            runs.pop();
            proof {
                assert(runs_view(runs@) =~= before.drop_last());
            }
        } else {
            let ghost before = runs_view(runs@);
            let mut run = runs.remove(last);
            run.text = trimmed;
            runs.push(run);
            proof {
                assert(runs_view(runs@) =~= before.update(
                    before.len() - 1,
                    with_text(before.last(), trim_end_chars(before.last().text)),
                ));
            }
            break;
        }
    }
}

/// Whether the last run ends with white space.
pub open spec fn ends_with_white_space(runs: Seq<RunView>) -> bool {
    runs.len() > 0 && runs.last().text.len() > 0 && is_white_space(runs.last().text.last())
}

/// Whether the first run starts with white space.
pub open spec fn starts_with_white_space(runs: Seq<RunView>) -> bool {
    runs.len() > 0 && runs[0].text.len() > 0 && is_white_space(runs[0].text[0])
}

/// Whether the last run ends with white space.
pub fn ends_with_whitespace(runs: &[Run]) -> (b: bool)
    ensures
        b == ends_with_white_space(runs_view(runs@)),
{
    if runs.len() == 0 {
        return false;
    }
    let cs = chars_of(runs[runs.len() - 1].text.as_str());
    cs.len() > 0 && is_whitespace(cs[cs.len() - 1])
}

/// Whether the first run starts with white space.
pub fn starts_with_whitespace(runs: &[Run]) -> (b: bool)
    ensures
        b == starts_with_white_space(runs_view(runs@)),
{
    if runs.len() == 0 {
        return false;
    }
    let cs = chars_of(runs[0].text.as_str());
    cs.len() > 0 && is_whitespace(cs[0])
}

/// Joining one more item adds a comma unless it is the first.
pub proof fn lemma_comma_joined_push(items: Seq<Seq<char>>, item: Seq<char>)
    ensures
        comma_joined(items.push(item)) == if items.len() == 0 {
            item
        } else {
            comma_joined(items) + seq![','] + item
        },
{
    assert(items.push(item).drop_last() =~= items);
}

/// A run as a JSON object.
#[verifier::opaque]
pub open spec fn run_json(run: RunView) -> Seq<char> {
    seq!['{'] + json_member("text"@, json_string(run.text)) + seq![','] + json_member(
        "italic"@,
        json_bool(run.italic),
    ) + seq![','] + json_member("font_weight"@, json_string(run.font_weight)) + seq![',']
        + json_member("small_caps"@, json_bool(run.small_caps)) + seq![','] + json_member(
        "underline"@,
        json_bool(run.underline),
    ) + seq![','] + json_member("vertical_align"@, json_string(run.vertical_align)) + seq![',']
        + json_member("url"@, json_opt_string(run.url)) + seq!['}']
}

/// Runs as a JSON array.
pub open spec fn runs_json(runs: Seq<RunView>) -> Seq<char> {
    json_array(runs.map_values(|r: RunView| run_json(r)))
}

/// Appends a `"key":"value"` member.
fn push_member_str(out: &mut Vec<char>, key: &str, value: &str)
    ensures
        final(out)@ == old(out)@ + json_member(key@, json_string(value@)),
{
    let ghost start = out@;
    push_key(out, key);
    push_json_string(out, value);
    proof {
        assert(out@ =~= start + json_member(key@, json_string(value@)));
    }
}

/// Appends a `"key":true|false` member.
fn push_member_bool(out: &mut Vec<char>, key: &str, value: bool)
    ensures
        final(out)@ == old(out)@ + json_member(key@, json_bool(value)),
{
    let ghost start = out@;
    push_key(out, key);
    push_json_bool(out, value);
    proof {
        assert(out@ =~= start + json_member(key@, json_bool(value)));
    }
}

/// The first four members of a run object, with their separators.
pub open spec fn run_json_head(run: RunView) -> Seq<char> {
    json_member("text"@, json_string(run.text)) + seq![','] + json_member(
        "italic"@,
        json_bool(run.italic),
    ) + seq![','] + json_member("font_weight"@, json_string(run.font_weight)) + seq![',']
        + json_member("small_caps"@, json_bool(run.small_caps))
}

/// The last three members of a run object, with their separators.
pub open spec fn run_json_tail(run: RunView) -> Seq<char> {
    json_member("underline"@, json_bool(run.underline)) + seq![','] + json_member(
        "vertical_align"@,
        json_string(run.vertical_align),
    ) + seq![','] + json_member("url"@, json_opt_string(run.url))
}

proof fn lemma_run_json_parts(run: RunView)
    ensures
        run_json(run) == seq!['{'] + run_json_head(run) + seq![','] + run_json_tail(run) + seq![
            '}',
        ],
{
    reveal(run_json);
    assert(run_json(run) =~= seq!['{'] + run_json_head(run) + seq![','] + run_json_tail(run)
        + seq!['}']);
}

fn push_run_json_head(out: &mut Vec<char>, run: &Run)
    ensures
        final(out)@ == old(out)@ + run_json_head(run@),
{
    let ghost start = out@;
    push_member_str(out, "text", run.text.as_str());
    let ghost a = out@;
    out.push(',');
    push_member_bool(out, "italic", run.italic);
    let ghost b = out@;
    out.push(',');
    push_member_str(out, "font_weight", run.font_weight);
    let ghost c = out@;
    out.push(',');
    push_member_bool(out, "small_caps", run.small_caps);
    proof {
        let r = run@;
        assert(a =~= start + json_member("text"@, json_string(r.text)));
        assert(b =~= a + seq![','] + json_member("italic"@, json_bool(r.italic)));
        assert(c =~= b + seq![','] + json_member("font_weight"@, json_string(r.font_weight)));
        assert(out@ =~= c + seq![','] + json_member("small_caps"@, json_bool(r.small_caps)));
        assert(out@ =~= start + run_json_head(r));
    }
}

fn push_run_json_tail(out: &mut Vec<char>, run: &Run)
    ensures
        final(out)@ == old(out)@ + run_json_tail(run@),
{
    let ghost start = out@;
    push_member_bool(out, "underline", run.underline);
    let ghost a = out@;
    out.push(',');
    push_member_str(out, "vertical_align", run.vertical_align);
    let ghost b = out@;
    out.push(',');
    push_key(out, "url");
    let ghost c = out@;
    match &run.url {
        Some(url) => push_json_string(out, url.as_str()),
        None => push_json_null(out),
    }
    proof {
        let r = run@;
        assert(out@ =~= c + json_opt_string(r.url));
        assert(out@ =~= b + seq![','] + json_member("url"@, json_opt_string(r.url)));
        assert(out@ =~= start + run_json_tail(r));
    }
}

/// Appends a run as a JSON object.
fn push_run_json(out: &mut Vec<char>, run: &Run)
    ensures
        final(out)@ == old(out)@ + run_json(run@),
{
    let ghost start = out@;
    out.push('{');
    push_run_json_head(out, run);
    out.push(',');
    push_run_json_tail(out, run);
    out.push('}');
    proof {
        lemma_run_json_parts(run@);
        assert(out@ =~= start + run_json(run@));
    }
}

/// Appends runs as a JSON array.
fn push_runs_json(out: &mut Vec<char>, runs: &Vec<Run>)
    ensures
        final(out)@ == old(out)@ + runs_json(runs_view(runs@)),
{
    let ghost start = out@;
    let ghost items = runs_view(runs@).map_values(|r: RunView| run_json(r));
    out.push('[');
    let mut i: usize = 0;
    proof {
        assert(items.take(0) =~= Seq::<Seq<char>>::empty());
    }
    while i < runs.len()
        invariant
            i <= runs.len(),
            items == runs_view(runs@).map_values(|r: RunView| run_json(r)),
            out@ == start + seq!['['] + comma_joined(items.take(i as int)),
        decreases runs.len() - i,
    {
        proof {
            lemma_comma_joined_push(items.take(i as int), items[i as int]);
            assert(items.take(i + 1) =~= items.take(i as int).push(items[i as int]));
        }
        if i > 0 {
            out.push(',');
        }
        push_run_json(out, &runs[i]);
        i = i + 1;
    }
    out.push(']');
    proof {
        assert(items.take(i as int) =~= items);
        assert(out@ =~= start + runs_json(runs_view(runs@)));
    }
}

/// A rendered citation as a JSON object: its text and whether it is set
/// as superscript.
#[verifier::opaque]
pub open spec fn citation_json(children: Seq<Child>) -> Seq<char> {
    seq!['{'] + json_member("text"@, json_string(runs_text(children_runs(children)))) + seq![
        ',',
    ] + json_member("sup"@, json_bool(children_any_sup(children))) + seq!['}']
}

/// Appends a rendered citation as a JSON object.
fn push_citation_json(out: &mut Vec<char>, children: &Vec<Child>)
    ensures
        final(out)@ == old(out)@ + citation_json(children@),
{
    let ghost start = out@;
    let text = plain_text(children);
    let sup = any_sup(children);
    out.push('{');
    push_key(out, "text");
    push_json_string(out, text.as_str());
    out.push(',');
    push_key(out, "sup");
    push_json_bool(out, sup);
    out.push('}');
    proof {
        reveal(citation_json);
        assert(out@ =~= start + citation_json(children@));
    }
}

/// A bibliography entry as written: its key, the runs of its set-apart
/// first field, and the runs of its content.
pub struct BibliographyItemOut {
    pub key: String,
    pub prefix_runs: Vec<Run>,
    pub runs: Vec<Run>,
}

/// The runs of an optional first field.
pub open spec fn first_field_runs(first: Option<Child>) -> Seq<RunView> {
    match first {
        Some(c) => child_runs(c),
        None => seq![],
    }
}

/// The prefix runs of an entry: the trimmed runs of its first field, the
/// last of them followed by a space when both they and the content are
/// non-empty and neither side has white space where they meet (a label
/// `[1]` becomes the one run `[1] `).
pub open spec fn item_prefix_runs(item: BibItemView) -> Seq<RunView> {
    let prefix = trim_runs(first_field_runs(item.first_field));
    let content = item_content_runs(item);
    if prefix.len() > 0 && content.len() > 0 && !ends_with_white_space(prefix)
        && !starts_with_white_space(content) {
        prefix.update(prefix.len() - 1, with_text(prefix.last(), prefix.last().text.push(' ')))
    } else {
        prefix
    }
}

/// The content runs of an entry, trimmed.
pub open spec fn item_content_runs(item: BibItemView) -> Seq<RunView> {
    trim_runs(children_runs(item.content))
}

/// A rendered bibliography entry, ready to be written (see
/// `item_prefix_runs` and `item_content_runs`).
pub fn bibliography_item_out(item: &BibItem) -> (out: BibliographyItemOut)
    ensures
        out.key@ == item.key@,
        runs_view(out.prefix_runs@) == item_prefix_runs(item@),
        runs_view(out.runs@) == item_content_runs(item@),
{
    let mut prefix_runs: Vec<Run> = Vec::new();
    proof {
        assert(runs_view(prefix_runs@) =~= Seq::<RunView>::empty());
    }
    match &item.first_field {
        Some(first) => {
            push_child(first.node(), &mut prefix_runs);
            proof {
                assert(Seq::<RunView>::empty() + child_runs(first@) =~= child_runs(first@));
            }
        },
        None => {},
    }
    trim_run_edges(&mut prefix_runs);
    let mut content_runs = runs(item.content.nodes());
    trim_run_edges(&mut content_runs);
    if prefix_runs.len() > 0 && content_runs.len() > 0 && !ends_with_whitespace(
        prefix_runs.as_slice(),
    ) && !starts_with_whitespace(content_runs.as_slice()) {
        let ghost before = runs_view(prefix_runs@);
        let last = prefix_runs.len() - 1;
        let mut run = prefix_runs.remove(last);
        let mut text = chars_of(run.text.as_str());
        text.push(' ');
        run.text = string_from_chars(&text);
        prefix_runs.push(run);
        proof {
            assert(runs_view(prefix_runs@) =~= before.update(
                before.len() - 1,
                with_text(before.last(), before.last().text.push(' ')),
            ));
        }
    }
    BibliographyItemOut { key: item.key.clone(), prefix_runs, runs: content_runs }
}

/// A bibliography entry as a JSON object.
#[verifier::opaque]
pub open spec fn item_json(item: BibItemView) -> Seq<char> {
    seq!['{'] + json_member("key"@, json_string(item.key)) + seq![','] + json_member(
        "prefix_runs"@,
        runs_json(item_prefix_runs(item)),
    ) + seq![','] + json_member("runs"@, runs_json(item_content_runs(item))) + seq!['}']
}

/// Appends a bibliography entry as a JSON object.
fn push_item_json(out: &mut Vec<char>, item: &BibItem)
    ensures
        final(out)@ == old(out)@ + item_json(item@),
{
    let ghost start = out@;
    let written = bibliography_item_out(item);
    out.push('{');
    push_key(out, "key");
    push_json_string(out, written.key.as_str());
    out.push(',');
    push_key(out, "prefix_runs");
    push_runs_json(out, &written.prefix_runs);
    out.push(',');
    push_key(out, "runs");
    push_runs_json(out, &written.runs);
    out.push('}');
    proof {
        reveal(item_json);
        assert(out@ =~= start + item_json(item@));
    }
}

/// The bibliography entries of a rendering (none if the style has no
/// bibliography).
pub open spec fn doc_items(doc: DocView) -> Seq<BibItemView> {
    match doc.bibliography {
        Some(items) => items,
        None => seq![],
    }
}

/// A rendering as the JSON document handed to the host: the citations in
/// order, then the bibliography entries.
pub open spec fn render_json(doc: DocView) -> Seq<char> {
    seq!['{'] + json_member(
        "citations"@,
        json_array(doc.citations.map_values(|c: CitationView| citation_json(c.citation))),
    ) + seq![','] + json_member(
        "bibliography"@,
        seq!['{'] + json_member(
            "items"@,
            json_array(doc_items(doc).map_values(|item: BibItemView| item_json(item))),
        ) + seq!['}'],
    ) + seq!['}']
}

/// Appends the citations as a JSON array.
fn push_citations_json(out: &mut Vec<char>, citations: &Vec<RenderedCitation>)
    ensures
        final(out)@ == old(out)@ + json_array(
            citations@.map_values(|c: RenderedCitation| citation_json(c.citation@)),
        ),
{
    let ghost start = out@;
    let ghost cits = citations@.map_values(|c: RenderedCitation| citation_json(c.citation@));
    out.push('[');
    let mut i: usize = 0;
    proof {
        assert(cits.take(0) =~= Seq::<Seq<char>>::empty());
    }
    while i < citations.len()
        invariant
            i <= citations.len(),
            cits == citations@.map_values(|c: RenderedCitation| citation_json(c.citation@)),
            out@ == start + seq!['['] + comma_joined(cits.take(i as int)),
        decreases citations.len() - i,
    {
        proof {
            lemma_comma_joined_push(cits.take(i as int), cits[i as int]);
            assert(cits.take(i + 1) =~= cits.take(i as int).push(cits[i as int]));
        }
        if i > 0 {
            out.push(',');
        }
        push_citation_json(out, citations[i].citation.nodes());
        i = i + 1;
    }
    out.push(']');
    proof {
        assert(cits.take(i as int) =~= cits);
        assert(out@ =~= start + json_array(cits));
    }
}

/// Appends the bibliography entries as a JSON array.
fn push_items_json(out: &mut Vec<char>, items: &Vec<BibItem>)
    ensures
        final(out)@ == old(out)@ + json_array(
            items@.map_values(|item: BibItem| item_json(item@)),
        ),
{
    let ghost start = out@;
    let ghost its = items@.map_values(|item: BibItem| item_json(item@));
    out.push('[');
    let mut j: usize = 0;
    proof {
        assert(its.take(0) =~= Seq::<Seq<char>>::empty());
    }
    while j < items.len()
        invariant
            j <= items.len(),
            its == items@.map_values(|item: BibItem| item_json(item@)),
            out@ == start + seq!['['] + comma_joined(its.take(j as int)),
        decreases items.len() - j,
    {
        proof {
            lemma_comma_joined_push(its.take(j as int), its[j as int]);
            assert(its.take(j + 1) =~= its.take(j as int).push(its[j as int]));
        }
        if j > 0 {
            out.push(',');
        }
        push_item_json(out, &items[j]);
        j = j + 1;
    }
    out.push(']');
    proof {
        assert(its.take(j as int) =~= its);
        assert(out@ =~= start + json_array(its));
    }
}

/// The JSON document for a rendering (see `render_json`).
pub fn render_result(result: RenderedDoc) -> (json: String)
    ensures
        json@ == render_json(result@),
{
    let mut out: Vec<char> = Vec::new();
    out.push('{');
    push_key(&mut out, "citations");
    push_citations_json(&mut out, &result.citations);
    let ghost after_citations = out@;
    out.push(',');
    push_key(&mut out, "bibliography");
    out.push('{');
    push_key(&mut out, "items");
    let empty: Vec<BibItem> = Vec::new();
    let items: &Vec<BibItem> = match &result.bibliography {
        Some(items) => items,
        None => &empty,
    };
    proof {
        assert(items@.map_values(|item: BibItem| item@) =~= doc_items(result@));
    }
    let ghost before_items = out@;
    push_items_json(&mut out, items);
    out.push('}');
    out.push('}');
    proof {
        let its = json_array(doc_items(result@).map_values(|item: BibItemView| item_json(item)));
        assert(doc_items(result@).map_values(|item: BibItemView| item_json(item)) =~= items@.map_values(
            |item: BibItem| item_json(item@),
        ));
        assert(result@.citations.map_values(|c: CitationView| citation_json(c.citation)) =~= result.citations@.map_values(
            |c: RenderedCitation| citation_json(c.citation@),
        ));
        assert(out@ =~= after_citations + seq![','] + json_member(
            "bibliography"@,
            seq!['{'] + json_member("items"@, its) + seq!['}'],
        ) + seq!['}']);
        assert(out@ =~= render_json(result@));
    }
    string_from_chars(&out)
}

/// An embedded style as a JSON object: its key, display name and default
/// locale.
pub open spec fn style_json(key: Seq<char>, display_name: Seq<char>, default_locale: Option<Seq<char>>) -> Seq<char> {
    seq!['{'] + json_member("key"@, json_string(key)) + seq![','] + json_member(
        "display_name"@,
        json_string(display_name),
    ) + seq![','] + json_member("default_locale"@, json_opt_string(default_locale)) + seq!['}']
}

/// The styles `(key, display name, default locale)` as a JSON array.
pub open spec fn styles_json(styles: Seq<(Seq<char>, Seq<char>, Option<Seq<char>>)>) -> Seq<char> {
    json_array(
        styles.map_values(
            |s: (Seq<char>, Seq<char>, Option<Seq<char>>)| style_json(s.0, s.1, s.2),
        ),
    )
}

/// The plain values of a `(key, display name, default locale)` triple.
pub open spec fn style_triple_view(s: (String, String, Option<String>)) -> (
    Seq<char>,
    Seq<char>,
    Option<Seq<char>>,
) {
    (s.0@, s.1@, opt_view(s.2))
}

/// The styles `(key, display name, default locale)` as a JSON array (see
/// `styles_json`).
pub fn list_styles(styles: &[(String, String, Option<String>)]) -> (json: String)
    ensures
        json@ == styles_json(styles@.map_values(|s: (String, String, Option<String>)| style_triple_view(s))),
{
    let ghost items = styles@.map_values(
        |s: (String, String, Option<String>)| style_json(s.0@, s.1@, opt_view(s.2)),
    );
    let mut out: Vec<char> = Vec::new();
    out.push('[');
    let mut i: usize = 0;
    proof {
        assert(items.take(0) =~= Seq::<Seq<char>>::empty());
    }
    while i < styles.len()
        invariant
            i <= styles.len(),
            items == styles@.map_values(
                |s: (String, String, Option<String>)| style_json(s.0@, s.1@, opt_view(s.2)),
            ),
            out@ == seq!['['] + comma_joined(items.take(i as int)),
        decreases styles.len() - i,
    {
        proof {
            lemma_comma_joined_push(items.take(i as int), items[i as int]);
            assert(items.take(i + 1) =~= items.take(i as int).push(items[i as int]));
        }
        if i > 0 {
            out.push(',');
        }
        let ghost before = out@;
        let style = &styles[i];
        out.push('{');
        push_member_str(&mut out, "key", style.0.as_str());
        out.push(',');
        push_member_str(&mut out, "display_name", style.1.as_str());
        out.push(',');
        push_key(&mut out, "default_locale");
        match &style.2 {
            Some(locale) => push_json_string(&mut out, locale.as_str()),
            None => push_json_null(&mut out),
        }
        out.push('}');
        proof {
            assert(out@ =~= before + style_json(style.0@, style.1@, opt_view(style.2)));
        }
        i = i + 1;
    }
    out.push(']');
    proof {
        assert(items.take(i as int) =~= items);
        assert(items =~= styles@.map_values(|s: (String, String, Option<String>)| style_triple_view(s)).map_values(
            |s: (Seq<char>, Seq<char>, Option<Seq<char>>)| style_json(s.0, s.1, s.2),
        ));
    }
    string_from_chars(&out)
}

/// The locale codes as a JSON array of strings.
pub open spec fn locales_json(locales: Seq<Seq<char>>) -> Seq<char> {
    json_array(locales.map_values(|l: Seq<char>| json_string(l)))
}

/// The locale codes as a JSON array of strings.
pub fn list_locales(locales: &[String]) -> (json: String)
    ensures
        json@ == locales_json(locales@.map_values(|l: String| l@)),
{
    let ghost items = locales@.map_values(|l: String| json_string(l@));
    let mut out: Vec<char> = Vec::new();
    out.push('[');
    let mut i: usize = 0;
    proof {
        assert(items.take(0) =~= Seq::<Seq<char>>::empty());
    }
    while i < locales.len()
        invariant
            i <= locales.len(),
            items == locales@.map_values(|l: String| json_string(l@)),
            out@ == seq!['['] + comma_joined(items.take(i as int)),
        decreases locales.len() - i,
    {
        proof {
            lemma_comma_joined_push(items.take(i as int), items[i as int]);
            assert(items.take(i + 1) =~= items.take(i as int).push(items[i as int]));
        }
        if i > 0 {
            out.push(',');
        }
        push_json_string(&mut out, locales[i].as_str());
        i = i + 1;
    }
    out.push(']');
    proof {
        assert(items.take(i as int) =~= items);
        assert(items =~= locales@.map_values(|l: String| l@).map_values(|l: Seq<char>| json_string(l)));
    }
    string_from_chars(&out)
}

/// One bibliography entry as offered to a citation picker.
pub struct EntryOut {
    pub key: String,
    pub title: Option<String>,
    pub authors: Vec<String>,
    pub year: Option<i32>,
    pub container_title: Option<String>,
    pub volume: Option<String>,
    pub issue: Option<String>,
    pub page_range: Option<String>,
}

/// A list of strings as a JSON array.
pub open spec fn strings_json(items: Seq<String>) -> Seq<char> {
    json_array(items.map_values(|s: String| json_string(s@)))
}

/// An optional integer: the number, or `null`.
pub open spec fn json_opt_integer(n: Option<i32>) -> Seq<char> {
    match n {
        Some(v) => json_integer(v as int),
        None => json_null(),
    }
}

/// An entry as a JSON object.
#[verifier::opaque]
pub open spec fn entry_json(entry: EntryOut) -> Seq<char> {
    seq!['{'] + json_member("key"@, json_string(entry.key@)) + seq![','] + json_member(
        "title"@,
        json_opt_string(opt_view(entry.title)),
    ) + seq![','] + json_member("authors"@, strings_json(entry.authors@)) + seq![',']
        + json_member("year"@, json_opt_integer(entry.year)) + seq![','] + json_member(
        "container_title"@,
        json_opt_string(opt_view(entry.container_title)),
    ) + seq![','] + json_member("volume"@, json_opt_string(opt_view(entry.volume))) + seq![',']
        + json_member("issue"@, json_opt_string(opt_view(entry.issue))) + seq![','] + json_member(
        "page_range"@,
        json_opt_string(opt_view(entry.page_range)),
    ) + seq!['}']
}

/// Appends a `"key":"value"|null` member.
fn push_member_opt_str(out: &mut Vec<char>, key: &str, value: &Option<String>)
    ensures
        final(out)@ == old(out)@ + json_member(key@, json_opt_string(opt_view(*value))),
{
    let ghost start = out@;
    push_key(out, key);
    match value {
        Some(v) => push_json_string(out, v.as_str()),
        None => push_json_null(out),
    }
    proof {
        assert(out@ =~= start + json_member(key@, json_opt_string(opt_view(*value))));
    }
}

/// Appends a list of strings as a JSON array.
fn push_strings_json(out: &mut Vec<char>, items: &Vec<String>)
    ensures
        final(out)@ == old(out)@ + strings_json(items@),
{
    let ghost start = out@;
    let ghost quoted = items@.map_values(|s: String| json_string(s@));
    out.push('[');
    let mut i: usize = 0;
    proof {
        assert(quoted.take(0) =~= Seq::<Seq<char>>::empty());
    }
    while i < items.len()
        invariant
            i <= items.len(),
            quoted == items@.map_values(|s: String| json_string(s@)),
            out@ == start + seq!['['] + comma_joined(quoted.take(i as int)),
        decreases items.len() - i,
    {
        proof {
            lemma_comma_joined_push(quoted.take(i as int), quoted[i as int]);
            assert(quoted.take(i + 1) =~= quoted.take(i as int).push(quoted[i as int]));
        }
        if i > 0 {
            out.push(',');
        }
        push_json_string(out, items[i].as_str());
        i = i + 1;
    }
    out.push(']');
    proof {
        assert(quoted.take(i as int) =~= quoted);
        assert(out@ =~= start + strings_json(items@));
    }
}

/// Appends an entry as a JSON object.
#[verifier::spinoff_prover]
fn push_entry_json(out: &mut Vec<char>, entry: &EntryOut)
    ensures
        final(out)@ == old(out)@ + entry_json(*entry),
{
    let ghost start = out@;
    out.push('{');
    push_member_str(out, "key", entry.key.as_str());
    let ghost a = out@;
    out.push(',');
    push_member_opt_str(out, "title", &entry.title);
    let ghost b = out@;
    out.push(',');
    push_key(out, "authors");
    push_strings_json(out, &entry.authors);
    let ghost c = out@;
    out.push(',');
    push_key(out, "year");
    match entry.year {
        Some(year) => {
            let digits = json_i32(year);
            let cs = chars_of(digits.as_str());
            append_chars(out, &cs);
        },
        None => push_json_null(out),
    }
    let ghost d = out@;
    out.push(',');
    push_member_opt_str(out, "container_title", &entry.container_title);
    let ghost e = out@;
    out.push(',');
    push_member_opt_str(out, "volume", &entry.volume);
    let ghost f = out@;
    out.push(',');
    push_member_opt_str(out, "issue", &entry.issue);
    let ghost g = out@;
    out.push(',');
    push_member_opt_str(out, "page_range", &entry.page_range);
    out.push('}');
    proof {
        reveal(entry_json);
        assert(d =~= c + seq![','] + json_member("year"@, json_opt_integer(entry.year)));
        assert(c =~= b + seq![','] + json_member("authors"@, strings_json(entry.authors@)));
        assert(out@ =~= start + entry_json(*entry));
    }
}

/// Entries as a JSON array.
pub open spec fn entries_json(entries: Seq<EntryOut>) -> Seq<char> {
    json_array(entries.map_values(|e: EntryOut| entry_json(e)))
}

/// Entries as a JSON array (see `entries_json`).
pub fn entries_to_json(entries: &Vec<EntryOut>) -> (json: String)
    ensures
        json@ == entries_json(entries@),
{
    let ghost items = entries@.map_values(|e: EntryOut| entry_json(e));
    let mut out: Vec<char> = Vec::new();
    out.push('[');
    let mut i: usize = 0;
    proof {
        assert(items.take(0) =~= Seq::<Seq<char>>::empty());
    }
    while i < entries.len()
        invariant
            i <= entries.len(),
            items == entries@.map_values(|e: EntryOut| entry_json(e)),
            out@ == seq!['['] + comma_joined(items.take(i as int)),
        decreases entries.len() - i,
    {
        proof {
            lemma_comma_joined_push(items.take(i as int), items[i as int]);
            assert(items.take(i + 1) =~= items.take(i as int).push(items[i as int]));
        }
        if i > 0 {
            out.push(',');
        }
        push_entry_json(&mut out, &entries[i]);
        i = i + 1;
    }
    out.push(']');
    proof {
        assert(items.take(i as int) =~= items);
    }
    string_from_chars(&out)
}

/// The authors of `entry`, each named given name first, in full and with
/// any prefix after the given name; none when the entry has no authors.
fn author_names(entry: &EntryRef) -> (names: Vec<String>)
    ensures
        names@.map_values(|n: String| n@) == match entry@.authors {
            Some(ns) => ns,
            None => Seq::<Seq<char>>::empty(),
        },
{
    let mut names: Vec<String> = Vec::new();
    match entry_authors(entry) {
        Some(people) => {
            let ghost ns = people@.map_values(|p: PersonRef| p@);
            let mut i: usize = 0;
            while i < people.len()
                invariant
                    i <= people.len(),
                    ns == people@.map_values(|p: PersonRef| p@),
                    names.len() == i,
                    forall|k: int| 0 <= k < i ==> (#[trigger] names@[k])@ == ns[k],
                decreases people.len() - i,
            {
                names.push(person_name_first(&people[i], false, false));
                i = i + 1;
            }
            proof {
                assert(names@.map_values(|n: String| n@) =~= ns);
            }
        },
        None => {
            proof {
                assert(names@.map_values(|n: String| n@) =~= Seq::<Seq<char>>::empty());
            }
        },
    }
    names
}

/// The title of the first parent of `entry` (the container it appeared
/// in), if it has a parent with a title.
fn container_title(entry: &EntryRef) -> (title: Option<String>)
    ensures
        opt_view(title) == if entry@.parents.len() > 0 {
            entry@.parents[0].title
        } else {
            None
        },
{
    let parents = entry_parents(entry);
    if parents.len() > 0 {
        proof {
            assert(parents@.map_values(|p: EntryRef| p@)[0] == parents@[0]@);
        }
        entry_title(&parents[0])
    } else {
        None
    }
}

/// Whether `out` describes the entry `entry`: its key, its title, its
/// authors (none when it has none), its year,
/// the title of its first parent (the container it appeared in), its volume,
/// issue and page range.
pub open spec fn describes_entry(out: EntryOut, entry: EntryFields) -> bool {
    &&& out.key@ == entry.key
    &&& opt_view(out.title) == entry.title
    &&& out.authors@.map_values(|n: String| n@) == match entry.authors {
        Some(ns) => ns,
        None => Seq::<Seq<char>>::empty(),
    }
    &&& out.year == entry.year
    &&& opt_view(out.container_title) == if entry.parents.len() > 0 {
        entry.parents[0].title
    } else {
        None
    }
    &&& opt_view(out.volume) == entry.volume
    &&& opt_view(out.issue) == entry.issue
    &&& opt_view(out.page_range) == entry.page_range
}

/// Whether `outs` describe `entries`, one for one and in order.
pub open spec fn describes_entries(outs: Seq<EntryOut>, entries: Seq<EntryFields>) -> bool {
    &&& outs.len() == entries.len()
    &&& forall|i: int| 0 <= i < outs.len() ==> describes_entry(#[trigger] outs[i], entries[i])
}

/// The entries of `library`, in library order, as the JSON document a
/// citation picker searches: one object per entry (see `describes_entry`;
/// the authors are each named given name first, in full).
pub fn list_entries(library: &Library) -> (json: String)
    ensures
        exists|entries: Seq<EntryOut>|
            #![trigger entries_json(entries)]
            describes_entries(entries, library_entries(*library)) && json@ == entries_json(entries),
{
    let n = library_len(library);
    let mut entries: Vec<EntryOut> = Vec::new();
    let mut i: usize = 0;
    while i < n
        invariant
            n == library_entries(*library).len(),
            i <= n,
            entries.len() == i,
            forall|j: int|
                0 <= j < i ==> describes_entry(#[trigger] entries@[j], library_entries(*library)[j]),
        decreases n - i,
    {
        let entry = library_nth(library, i);
        let key = library_key_at(library, i);
        entries.push(
            EntryOut {
                key,
                title: entry_title(&entry),
                authors: author_names(&entry),
                year: entry_year(&entry),
                container_title: container_title(&entry),
                volume: entry_volume(&entry),
                issue: entry_issue(&entry),
                page_range: entry_page_range(&entry),
            },
        );
        i = i + 1;
    }
    entries_to_json(&entries)
}

} // verus!
