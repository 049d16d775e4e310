//! A command-line renderer over the same core: its arguments, its citation
//! file format (one group of keys per line), and the lines it prints for a
//! style. Reading files and printing are left to the program around it.

use vstd::prelude::*;
use crate::chars::{append_chars, chars_of, owned, string_from_chars, decimal, decimal_chars};
use crate::styles::chars_equal;
use crate::json::{trim_start_chars, trim_end_chars};
use crate::chars::{is_white_space, is_whitespace, sub_chars};
use crate::bibliography::{join_lines, BibError};
use crate::bindings::{
    archived_style_display_name, archived_style_get, archived_styles, is_archive_name,
    biblatex_outcome, entry_keys, is_locale_code, parse_biblatex, rendering_of,
    style_default_locale_of, style_display_name_of, Bibliography, ChosenStyle, EmbeddedLocales, EntryRef,
    archive_index_of, archive_style_names, is_independent_style, same_description,
    style_default_locale,
};
use crate::ctx::{
    all_from, first_missing_key, groups_keys, groups_view, refs_view, render_citations, resolve_keys,
};
use crate::json::opt_view;
use crate::styles::{
    ensure_locale_exists, locale_not_found_message, min_style_key,
    recommended_style_key,
};
use crate::terminal::{
    lines_view, push_line, rendered_lines, report_lines, style_heading, style_heading_text,
};

verus! {

/// How rendered text is written: with terminal colors, or as plain text.
#[derive(Clone, Copy, PartialEq, Eq, Structural, Debug)]
pub enum OutputFormat {
    Vt100,
    Plain,
}

impl OutputFormat {
    /// Whether text is written with terminal colors.
    pub open spec fn vt100(self) -> bool {
        self == OutputFormat::Vt100
    }
}

/// What the command line asks for.
pub struct Config {
    pub bib_path: String,
    pub style_name: Option<String>,
    pub locale: Option<String>,
    pub cite_path: String,
    pub output_format: OutputFormat,
}

/// The outcome of reading the arguments: a run, or a request for help.
pub enum Args {
    Run(Config),
    Help,
}

/// The usage line.
pub open spec fn usage_text() -> Seq<char> {
    "usage: cargo run --bin hayagriva_lite -- --bib <file.bib> [--style <style-name>] [--locale <locale>] [--plain] --cite <file.txt>"@
}

/// The usage line.
pub fn usage() -> (u: &'static str)
    ensures
        u@ == usage_text(),
{
    "usage: cargo run --bin hayagriva_lite -- --bib <file.bib> [--style <style-name>] [--locale <locale>] [--plain] --cite <file.txt>"
}

/// Two line feeds and the usage line, closing an argument error.
pub open spec fn usage_suffix() -> Seq<char> {
    seq!['\n', '\n'] + usage_text()
}

/// The error for a required flag that was not given.
pub open spec fn missing_argument_message(flag: Seq<char>) -> Seq<char> {
    "missing required argument: "@ + flag + usage_suffix()
}

/// The error for a flag given without its value.
pub open spec fn missing_value_message(flag: Seq<char>) -> Seq<char> {
    "missing value for "@ + flag + usage_suffix()
}

/// The error for an argument that is not a flag of this program.
pub open spec fn unknown_argument_message(arg: Seq<char>) -> Seq<char> {
    "unknown argument: "@ + arg + usage_suffix()
}

/// `head`, `middle`, then two line feeds and the usage line.
fn with_usage(head: &str, middle: &str) -> (s: String)
    ensures
        s@ == head@ + middle@ + usage_suffix(),
{
    let mut out = chars_of(head);
    let m = chars_of(middle);
    append_chars(&mut out, &m);
    out.push('\n');
    out.push('\n');
    let u = chars_of(usage());
    append_chars(&mut out, &u);
    proof {
        assert(out@ =~= head@ + middle@ + usage_suffix());
    }
    string_from_chars(&out)
}

/// The error for a required flag that was not given.
pub fn missing_argument(flag: &str) -> (message: String)
    ensures
        message@ == missing_argument_message(flag@),
{
    with_usage("missing required argument: ", flag)
}

/// Takes the value that follows `flag` from the front of the remaining
/// arguments.
pub fn next_value(args: &mut Vec<String>, flag: &str) -> (value: Result<String, String>)
    ensures
        old(args)@.len() == 0 ==> (value matches Err(m) && m@ == missing_value_message(flag@))
            && final(args)@ == old(args)@,
        old(args)@.len() > 0 ==> value == Ok::<String, String>(old(args)@[0]) && final(args)@
            == old(args)@.drop_first(),
{
    if args.len() == 0 {
        return Err(with_usage("missing value for ", flag));
    }
    let v = args.remove(0);
    proof {
        assert(args@ =~= old(args)@.drop_first());
    }
    Ok(v)
}

/// Whether `a` and `b` hold the same characters.
pub fn str_eq(a: &str, b: &str) -> (eq: bool)
    ensures
        eq == (a@ == b@),
{
    let x = chars_of(a);
    let y = chars_of(b);
    chars_equal(&x, &y)
}

/// What has been read of the arguments so far.
pub struct ArgsSoFar {
    pub bib: Option<Seq<char>>,
    pub style: Option<Seq<char>>,
    pub locale: Option<Seq<char>>,
    pub cite: Option<Seq<char>>,
    pub plain: bool,
}

/// A run, a request for help, or an error message, as plain values.
pub enum ArgsOutcome {
    Run(ArgsSoFar),
    Help,
    Error(Seq<char>),
}

/// Reading the remaining `args` after what was read so far: `--bib`,
/// `--style`, `--locale` and `--cite` take the next argument as their value
/// (a later one replaces an earlier one), `--plain` asks for plain text,
/// `--help` and `-h` for help; anything else is an error. At the end both
/// `--bib` and `--cite` are required, `--bib` first.
pub open spec fn read_args(args: Seq<Seq<char>>, so_far: ArgsSoFar) -> ArgsOutcome
    decreases args.len(),
{
    if args.len() == 0 {
        if so_far.bib is None {
            ArgsOutcome::Error(missing_argument_message("--bib"@))
        } else if so_far.cite is None {
            ArgsOutcome::Error(missing_argument_message("--cite"@))
        } else {
            ArgsOutcome::Run(so_far)
        }
    } else {
        let arg = args[0];
        let rest = args.drop_first();
        if arg == "--bib"@ || arg == "--style"@ || arg == "--locale"@ || arg == "--cite"@ {
            if rest.len() == 0 {
                ArgsOutcome::Error(missing_value_message(arg))
            } else if arg == "--bib"@ {
                read_args(rest.drop_first(), ArgsSoFar { bib: Some(rest[0]), ..so_far })
            } else if arg == "--style"@ {
                read_args(rest.drop_first(), ArgsSoFar { style: Some(rest[0]), ..so_far })
            } else if arg == "--locale"@ {
                read_args(rest.drop_first(), ArgsSoFar { locale: Some(rest[0]), ..so_far })
            } else {
                read_args(rest.drop_first(), ArgsSoFar { cite: Some(rest[0]), ..so_far })
            }
        } else if arg == "--plain"@ {
            read_args(rest, ArgsSoFar { plain: true, ..so_far })
        } else if arg == "--help"@ || arg == "-h"@ {
            ArgsOutcome::Help
        } else {
            ArgsOutcome::Error(unknown_argument_message(arg))
        }
    }
}

/// Nothing read yet.
pub open spec fn nothing_read() -> ArgsSoFar {
    ArgsSoFar { bib: None, style: None, locale: None, cite: None, plain: false }
}

/// An optional string as plain values.
pub open spec fn opt_chars(s: Option<String>) -> Option<Seq<char>> {
    match s {
        Some(t) => Some(t@),
        None => None,
    }
}

/// The plain values of a configuration.
pub open spec fn config_view(config: Config) -> ArgsSoFar {
    ArgsSoFar {
        bib: Some(config.bib_path@),
        style: opt_chars(config.style_name),
        locale: opt_chars(config.locale),
        cite: Some(config.cite_path@),
        plain: config.output_format == OutputFormat::Plain,
    }
}

/// Reads the program's arguments (without the program name), as
/// `read_args` says.
pub fn parse_args(args: Vec<String>) -> (r: Result<Args, String>)
    ensures
        match read_args(args@.map_values(|a: String| a@), nothing_read()) {
            ArgsOutcome::Run(read) => r matches Ok(Args::Run(config)) && config_view(config) == read,
            ArgsOutcome::Help => r matches Ok(Args::Help),
            ArgsOutcome::Error(m) => r matches Err(e) && e@ == m,
        },
{
    let mut rest = args;
    let mut bib_path: Option<String> = None;
    let mut style_name: Option<String> = None;
    let mut locale: Option<String> = None;
    let mut cite_path: Option<String> = None;
    let mut output_format = OutputFormat::Vt100;
    let ghost whole = read_args(rest@.map_values(|a: String| a@), nothing_read());
    proof {
        assert(whole == read_args(
            rest@.map_values(|a: String| a@),
            ArgsSoFar {
                bib: opt_chars(bib_path),
                style: opt_chars(style_name),
                locale: opt_chars(locale),
                cite: opt_chars(cite_path),
                plain: output_format == OutputFormat::Plain,
            },
        ));
    }
    while rest.len() > 0
        invariant
            whole == read_args(args@.map_values(|a: String| a@), nothing_read()),
            whole == read_args(
                rest@.map_values(|a: String| a@),
                ArgsSoFar {
                    bib: opt_chars(bib_path),
                    style: opt_chars(style_name),
                    locale: opt_chars(locale),
                    cite: opt_chars(cite_path),
                    plain: output_format == OutputFormat::Plain,
                },
            ),
        decreases rest.len(),
    {
        let ghost views = rest@.map_values(|a: String| a@);
        let ghost so_far = ArgsSoFar {
            bib: opt_chars(bib_path),
            style: opt_chars(style_name),
            locale: opt_chars(locale),
            cite: opt_chars(cite_path),
            plain: output_format == OutputFormat::Plain,
        };
        let arg = rest.remove(0);
        proof {
            assert(rest@.map_values(|a: String| a@) =~= views.drop_first());
            assert(views[0] == arg@);
        }
        let a = arg.as_str();
        if str_eq(a, "--bib") || str_eq(a, "--style") || str_eq(a, "--locale") || str_eq(a, "--cite") {
            let ghost before_value = rest@;
            let value = next_value(&mut rest, a)?;
            proof {
                assert(rest@.map_values(|x: String| x@) =~= before_value.map_values(|x: String| x@).drop_first());
                assert(value@ == views.drop_first()[0]);
            }
            if str_eq(a, "--bib") {
                bib_path = Some(value);
            } else if str_eq(a, "--style") {
                style_name = Some(value);
            } else if str_eq(a, "--locale") {
                locale = Some(value);
            } else {
                cite_path = Some(value);
            }
        } else if str_eq(a, "--plain") {
            output_format = OutputFormat::Plain;
        } else if str_eq(a, "--help") || str_eq(a, "-h") {
            proof {
                assert(read_args(views, so_far) == ArgsOutcome::Help);
            }
            return Ok(Args::Help);
        } else {
            return Err(with_usage("unknown argument: ", a));
        }
    }
    proof {
        assert(rest@.map_values(|a: String| a@) =~= Seq::<Seq<char>>::empty());
    }
    let bib_path = match bib_path {
        Some(p) => p,
        None => {
            return Err(missing_argument("--bib"));
        },
    };
    let cite_path = match cite_path {
        Some(p) => p,
        None => {
            return Err(missing_argument("--cite"));
        },
    };
    Ok(Args::Run(Config { bib_path, style_name, locale, cite_path, output_format }))
}

/// `s` split at every `sep` (`n` separators give `n + 1` pieces).
pub open spec fn split_at_char(s: Seq<char>, sep: char) -> Seq<Seq<char>>
    decreases s.len(),
{
    if s.len() == 0 {
        seq![seq![]]
    } else {
        let parts = split_at_char(s.drop_last(), sep);
        if s.last() == sep {
            parts.push(seq![])
        } else {
            parts.update(parts.len() - 1, parts.last().push(s.last()))
        }
    }
}

/// `s` split at every white-space character.
pub open spec fn split_at_white_space(s: Seq<char>) -> Seq<Seq<char>>
    decreases s.len(),
{
    if s.len() == 0 {
        seq![seq![]]
    } else {
        let parts = split_at_white_space(s.drop_last());
        if is_white_space(s.last()) {
            parts.push(seq![])
        } else {
            parts.update(parts.len() - 1, parts.last().push(s.last()))
        }
    }
}

/// The words of `s`: its maximal runs of non-white-space characters
/// (`str::split_whitespace`).
pub open spec fn words(s: Seq<char>) -> Seq<Seq<char>> {
    split_at_white_space(s).filter(|w: Seq<char>| w.len() > 0)
}

/// `s` without white space at either end (`str::trim`).
pub open spec fn trim_chars(s: Seq<char>) -> Seq<char> {
    trim_end_chars(trim_start_chars(s))
}

/// The keys of one line of a citation file: comma-separated (each trimmed)
/// if the line holds a comma, else separated by white space.
pub open spec fn group_of_line(line: Seq<char>) -> Seq<Seq<char>> {
    if line.contains(',') {
        split_at_char(line, ',').map_values(|k: Seq<char>| trim_chars(k))
    } else {
        words(line)
    }
}

/// Whether a line holds no group: it is blank, or a comment.
pub open spec fn is_skipped_line(line: Seq<char>) -> bool {
    let t = trim_chars(line);
    t.len() == 0 || t[0] == '#'
}

/// The error for a line whose group has an empty key, at one-based line
/// `number` of the file at `path`.
pub open spec fn invalid_group_message(path: Seq<char>, number: nat) -> Seq<char> {
    "invalid citation group at "@ + path + seq![':'] + decimal(number)
}

/// The groups of the lines from index `k` on, or the error for the first
/// line whose group has an empty key.
pub open spec fn groups_from_lines(lines: Seq<Seq<char>>, k: int, path: Seq<char>) -> Result<
    Seq<Seq<Seq<char>>>,
    Seq<char>,
>
    decreases lines.len() - k,
{
    if k >= lines.len() || k < 0 {
        Ok(seq![])
    } else if is_skipped_line(lines[k]) {
        groups_from_lines(lines, k + 1, path)
    } else {
        let group = group_of_line(trim_chars(lines[k]));
        if exists|i: int| 0 <= i < group.len() && #[trigger] group[i].len() == 0 {
            Err(invalid_group_message(path, (k + 1) as nat))
        } else {
            match groups_from_lines(lines, k + 1, path) {
                Ok(rest) => Ok(seq![group] + rest),
                Err(e) => Err(e),
            }
        }
    }
}

/// The citation groups in the text of a citation file, one group per line
/// (lines split at line feeds; a carriage return before one is trimmed with
/// the other white space), skipping blank lines and lines starting with `#`.
pub open spec fn citation_groups_text(input: Seq<char>, path: Seq<char>) -> Result<
    Seq<Seq<Seq<char>>>,
    Seq<char>,
> {
    groups_from_lines(split_at_char(input, '\n'), 0, path)
}

/// `chars` split at every `sep`.
fn split_chars(chars: &Vec<char>, sep: char) -> (parts: Vec<Vec<char>>)
    ensures
        parts@.map_values(|p: Vec<char>| p@) == split_at_char(chars@, sep),
{
    let mut parts: Vec<Vec<char>> = Vec::new();
    parts.push(Vec::new());
    let mut i: usize = 0;
    proof {
        assert(chars@.take(0) =~= Seq::<char>::empty());
        assert(parts@.map_values(|p: Vec<char>| p@) =~= seq![Seq::<char>::empty()]);
    }
    while i < chars.len()
        invariant
            i <= chars.len(),
            parts.len() > 0,
            parts@.map_values(|p: Vec<char>| p@) == split_at_char(chars@.take(i as int), sep),
        decreases chars.len() - i,
    {
        let ghost before = parts@.map_values(|p: Vec<char>| p@);
        proof {
            assert(chars@.take(i + 1).drop_last() =~= chars@.take(i as int));
            assert(chars@.take(i + 1).last() == chars@[i as int]);
        }
        if chars[i] == sep {
            parts.push(Vec::new());
            proof {
                assert(parts@.map_values(|p: Vec<char>| p@) =~= before.push(seq![]));
            }
        } else {
            let last = parts.len() - 1;
            let mut piece = parts.remove(last);
            piece.push(chars[i]);
            parts.push(piece);
            proof {
                assert(parts@.map_values(|p: Vec<char>| p@) =~= before.update(
                    before.len() - 1,
                    before.last().push(chars@[i as int]),
                ));
            }
        }
        i = i + 1;
    }
    proof {
        assert(chars@.take(i as int) =~= chars@);
    }
    parts
}

/// The words of `chars` (see `words`).
fn words_of(chars: &Vec<char>) -> (ws: Vec<Vec<char>>)
    ensures
        ws@.map_values(|p: Vec<char>| p@) == words(chars@),
{
    let mut parts: Vec<Vec<char>> = Vec::new();
    parts.push(Vec::new());
    let mut i: usize = 0;
    proof {
        assert(chars@.take(0) =~= Seq::<char>::empty());
        assert(parts@.map_values(|p: Vec<char>| p@) =~= seq![Seq::<char>::empty()]);
    }
    while i < chars.len()
        invariant
            i <= chars.len(),
            parts.len() > 0,
            parts@.map_values(|p: Vec<char>| p@) == split_at_white_space(chars@.take(i as int)),
        decreases chars.len() - i,
    {
        let ghost before = parts@.map_values(|p: Vec<char>| p@);
        proof {
            assert(chars@.take(i + 1).drop_last() =~= chars@.take(i as int));
            assert(chars@.take(i + 1).last() == chars@[i as int]);
        }
        if is_whitespace(chars[i]) {
            parts.push(Vec::new());
            proof {
                assert(parts@.map_values(|p: Vec<char>| p@) =~= before.push(seq![]));
            }
        } else {
            let last = parts.len() - 1;
            let mut piece = parts.remove(last);
            piece.push(chars[i]);
            parts.push(piece);
            proof {
                assert(parts@.map_values(|p: Vec<char>| p@) =~= before.update(
                    before.len() - 1,
                    before.last().push(chars@[i as int]),
                ));
            }
        }
        i = i + 1;
    }
    proof {
        assert(chars@.take(i as int) =~= chars@);
    }
    let ghost all = parts@.map_values(|p: Vec<char>| p@);
    let mut ws: Vec<Vec<char>> = Vec::new();
    let mut j: usize = 0;
    proof {
        assert(all.take(0).filter(|w: Seq<char>| w.len() > 0) =~= Seq::<Seq<char>>::empty());
        assert(ws@.map_values(|p: Vec<char>| p@) =~= Seq::<Seq<char>>::empty());
    }
    while j < parts.len()
        invariant
            j <= parts.len(),
            all == parts@.map_values(|p: Vec<char>| p@),
            ws@.map_values(|p: Vec<char>| p@) == all.take(j as int).filter(|w: Seq<char>| w.len() > 0),
        decreases parts.len() - j,
    {
        let ghost before = ws@.map_values(|p: Vec<char>| p@);
        proof {
            assert(all.take(j + 1).drop_last() =~= all.take(j as int));
            reveal_with_fuel(Seq::filter, 1);
        }
        if parts[j].len() > 0 {
            ws.push(sub_chars(&parts[j], 0, parts[j].len()));
            proof {
                assert(parts@[j as int]@.subrange(0, parts@[j as int]@.len() as int) =~= parts@[j as int]@);
                assert(ws@.map_values(|p: Vec<char>| p@) =~= before.push(all[j as int]));
            }
        } else {
            proof {
                assert(ws@.map_values(|p: Vec<char>| p@) =~= before);
            }
        }
        j = j + 1;
    }
    proof {
        assert(all.take(j as int) =~= all);
    }
    ws
}

/// `chars` without white space at either end.
pub fn trim_vec(chars: &Vec<char>) -> (t: Vec<char>)
    ensures
        t@ == trim_chars(chars@),
{
    let mut start: usize = 0;
    proof {
        assert(chars@.skip(0) =~= chars@);
    }
    while start < chars.len() && is_whitespace(chars[start])
        invariant
            start <= chars.len(),
            trim_start_chars(chars@.skip(start as int)) == trim_start_chars(chars@),
        decreases chars.len() - start,
    {
        proof {
            assert(chars@.skip(start as int).drop_first() =~= chars@.skip(start + 1));
        }
        start = start + 1;
    }
    proof {
        assert(trim_start_chars(chars@.skip(start as int)) == chars@.skip(start as int));
    }
    let ghost front = chars@.skip(start as int);
    let mut end: usize = chars.len();
    proof {
        assert(chars@.subrange(start as int, end as int) =~= front);
    }
    while end > start && is_whitespace(chars[end - 1])
        invariant
            start <= end <= chars.len(),
            front == chars@.skip(start as int),
            trim_end_chars(chars@.subrange(start as int, end as int)) == trim_end_chars(front),
        decreases end,
    {
        proof {
            assert(chars@.subrange(start as int, end as int).drop_last() =~= chars@.subrange(
                start as int,
                end - 1,
            ));
        }
        end = end - 1;
    }
    sub_chars(chars, start, end)
}

/// Whether `chars` holds `c`.
fn contains_char(chars: &Vec<char>, c: char) -> (b: bool)
    ensures
        b == chars@.contains(c),
{
    let mut i: usize = 0;
    while i < chars.len()
        invariant
            i <= chars.len(),
            forall|k: int| 0 <= k < i ==> chars@[k] != c,
        decreases chars.len() - i,
    {
        if chars[i] == c {
            return true;
        }
        i = i + 1;
    }
    false
}

/// The keys of a trimmed line (see `group_of_line`).
fn group_of(line: &Vec<char>) -> (group: Vec<Vec<char>>)
    ensures
        group@.map_values(|p: Vec<char>| p@) == group_of_line(line@),
{
    if contains_char(line, ',') {
        let parts = split_chars(line, ',');
        let ghost pv = parts@.map_values(|p: Vec<char>| p@);
        let mut out: Vec<Vec<char>> = Vec::new();
        let mut i: usize = 0;
        while i < parts.len()
            invariant
                i <= parts.len(),
                out.len() == i,
                pv == parts@.map_values(|p: Vec<char>| p@),
                out@.map_values(|p: Vec<char>| p@) == pv.take(i as int).map_values(
                    |k: Seq<char>| trim_chars(k),
                ),
            decreases parts.len() - i,
        {
            let ghost before = out@.map_values(|p: Vec<char>| p@);
            let ghost prev_out = out@;
            let t = trim_vec(&parts[i]);
            let ghost tv = t@;
            out.push(t);
            proof {
                assert(pv[i as int] == parts@[i as int]@);
                assert(out@ =~= prev_out.push(out@[i as int]));
                assert(out@[i as int]@ == tv);
                assert(pv.take(i + 1) =~= pv.take(i as int).push(pv[i as int]));
                assert forall|j: int| #![trigger out@[j]] 0 <= j < i + 1 implies out@.map_values(
                    |p: Vec<char>| p@,
                )[j] == pv.take(i + 1).map_values(|k: Seq<char>| trim_chars(k))[j] by {
                    if j < i {
                        assert(out@[j] == prev_out[j]);
                        assert(before[j] == pv.take(i as int).map_values(
                            |k: Seq<char>| trim_chars(k),
                        )[j]);
                    }
                }
                assert(out@.map_values(|p: Vec<char>| p@) =~= pv.take(i + 1).map_values(
                    |k: Seq<char>| trim_chars(k),
                ));
            }
            i = i + 1;
        }
        proof {
            assert(pv.take(i as int) =~= pv);
        }
        out
    } else {
        words_of(line)
    }
}

/// The strings made of `parts`.
fn strings_of(parts: &Vec<Vec<char>>) -> (strings: Vec<String>)
    ensures
        strings@.map_values(|s: String| s@) == parts@.map_values(|p: Vec<char>| p@),
{
    let mut out: Vec<String> = Vec::new();
    let mut i: usize = 0;
    while i < parts.len()
        invariant
            i <= parts.len(),
            out.len() == i,
            out@.map_values(|s: String| s@) == parts@.take(i as int).map_values(|p: Vec<char>| p@),
        decreases parts.len() - i,
    {
        let ghost prev_out = out@;
        let ghost before = out@.map_values(|s: String| s@);
        out.push(string_from_chars(&parts[i]));
        proof {
            assert(out@ =~= prev_out.push(out@[i as int]));
            assert(parts@.take(i + 1) =~= parts@.take(i as int).push(parts@[i as int]));
            assert forall|j: int| #![trigger out@[j]] 0 <= j < i + 1 implies out@.map_values(
                |s: String| s@,
            )[j] == parts@.take(i + 1).map_values(|p: Vec<char>| p@)[j] by {
                if j < i {
                    assert(out@[j] == prev_out[j]);
                    assert(before[j] == parts@.take(i as int).map_values(|p: Vec<char>| p@)[j]);
                }
            }
            assert(out@.map_values(|s: String| s@) =~= parts@.take(i + 1).map_values(
                |p: Vec<char>| p@,
            ));
        }
        i = i + 1;
    }
    proof {
        assert(parts@.take(i as int) =~= parts@);
    }
    out
}

/// The error for an invalid group at one-based line `number` of `path`.
fn invalid_group(path: &str, number: usize) -> (message: String)
    ensures
        message@ == invalid_group_message(path@, number as nat),
{
    let mut out = chars_of("invalid citation group at ");
    let p = chars_of(path);
    append_chars(&mut out, &p);
    out.push(':');
    let digits = decimal_chars(number);
    append_chars(&mut out, &digits);
    string_from_chars(&out)
}

/// The citation groups in the text of the citation file at `path` (see
/// `citation_groups_text`).
pub fn read_citation_groups(input: &str, path: &str) -> (groups: Result<Vec<Vec<String>>, String>)
    ensures
        match citation_groups_text(input@, path@) {
            Ok(gs) => groups matches Ok(g) && g@.map_values(
                |x: Vec<String>| x@.map_values(|k: String| k@),
            ) == gs,
            Err(m) => groups matches Err(e) && e@ == m,
        },
{
    let chars = chars_of(input);
    let lines = split_chars(&chars, '\n');
    let ghost lv = lines@.map_values(|p: Vec<char>| p@);
    let mut groups: Vec<Vec<String>> = Vec::new();
    let mut k: usize = 0;
    while k < lines.len()
        invariant
            k <= lines.len(),
            lv == lines@.map_values(|p: Vec<char>| p@),
            lv == split_at_char(input@, '\n'),
            groups_from_lines(lv, 0, path@) == match groups_from_lines(lv, k as int, path@) {
                Ok(rest) => Ok(
                    groups@.map_values(|x: Vec<String>| x@.map_values(|s: String| s@)) + rest,
                ),
                Err(e) => Err(e),
            },
        decreases lines.len() - k,
    {
        let line = trim_vec(&lines[k]);
        proof {
            assert(lv[k as int] == lines@[k as int]@);
        }
        let ghost done = groups@.map_values(|x: Vec<String>| x@.map_values(|s: String| s@));
        if line.len() == 0 || line[0] == '#' {
            proof {
                assert(groups_from_lines(lv, k as int, path@) == groups_from_lines(lv, k + 1, path@));
            }
        } else {
            let group = group_of(&line);
            let ghost gv = group@.map_values(|p: Vec<char>| p@);
            let mut i: usize = 0;
            while i < group.len()
                invariant
                    i <= group.len(),
                    gv == group@.map_values(|p: Vec<char>| p@),
                    forall|j: int| 0 <= j < i ==> gv[j].len() > 0,
                    k < lines.len(),
                    lv == lines@.map_values(|p: Vec<char>| p@),
                    line@ == trim_chars(lv[k as int]),
                    !is_skipped_line(lv[k as int]),
                    gv == group_of_line(line@),
                    lv == split_at_char(input@, '\n'),
                    groups_from_lines(lv, 0, path@) == match groups_from_lines(lv, k as int, path@) {
                        Ok(rest) => Ok(
                            groups@.map_values(|x: Vec<String>| x@.map_values(|s: String| s@)) + rest,
                        ),
                        Err(e) => Err(e),
                    },
                decreases group.len() - i,
            {
                if group[i].len() == 0 {
                    proof {
                        assert(gv[i as int].len() == 0);
                        assert(groups_from_lines(lv, k as int, path@) == Err::<Seq<Seq<Seq<char>>>, Seq<char>>(
                            invalid_group_message(path@, (k + 1) as nat),
                        ));
                    }
                    return Err(invalid_group(path, k + 1));
                }
                i = i + 1;
            }
            let keys = strings_of(&group);
            proof {
                assert(!(exists|j: int| 0 <= j < gv.len() && #[trigger] gv[j].len() == 0));
                let tail = groups_from_lines(lv, k + 1, path@);
                assert(groups_from_lines(lv, k as int, path@) == match tail {
                    Ok(rest) => Ok(seq![gv] + rest),
                    Err(e) => Err(e),
                });
            }
            groups.push(keys);
            proof {
                let now = groups@.map_values(|x: Vec<String>| x@.map_values(|s: String| s@));
                assert(now =~= done.push(gv));
                match groups_from_lines(lv, k + 1, path@) {
                    Ok(rest) => {
                        assert(done + (seq![gv] + rest) =~= now + rest);
                    },
                    Err(e) => {},
                }
            }
        }
        k = k + 1;
    }
    proof {
        assert(groups_from_lines(lv, k as int, path@) == Ok::<Seq<Seq<Seq<char>>>, Seq<char>>(seq![]));
        assert(groups@.map_values(|x: Vec<String>| x@.map_values(|s: String| s@)) + Seq::<Seq<Seq<char>>>::empty()
            =~= groups@.map_values(|x: Vec<String>| x@.map_values(|s: String| s@)));
    }
    Ok(groups)
}

/// Why a run of the program stops early; each reason has its own exit
/// status.
pub enum Failure {
    /// The arguments are wrong (status 2).
    Usage(String),
    /// The bibliography cannot be read or parsed (status 3).
    Bibliography(String),
    /// The chosen style cannot be used (status 4).
    Style(String),
    /// The chosen locale is not embedded (status 5).
    Locale(String),
    /// The citation file cannot be read or holds an invalid group (status 6).
    CitationFile(String),
    /// The citation file holds no group (status 7).
    NoCitationGroups,
    /// A cited key is not in the bibliography (status 8).
    UnknownKey(String),
}

/// The message when the citation file holds no group.
pub open spec fn no_citation_groups_message() -> Seq<char> {
    "citation text file does not contain any citation groups"@
}

impl Failure {
    /// The exit status for this failure.
    pub open spec fn code(&self) -> int {
        match self {
            Failure::Usage(_) => 2,
            Failure::Bibliography(_) => 3,
            Failure::Style(_) => 4,
            Failure::Locale(_) => 5,
            Failure::CitationFile(_) => 6,
            Failure::NoCitationGroups => 7,
            Failure::UnknownKey(_) => 8,
        }
    }

    /// The message printed for this failure.
    pub open spec fn text(&self) -> Seq<char> {
        match self {
            Failure::Usage(m) => m@,
            Failure::Bibliography(m) => m@,
            Failure::Style(m) => m@,
            Failure::Locale(m) => m@,
            Failure::CitationFile(m) => m@,
            Failure::NoCitationGroups => no_citation_groups_message(),
            Failure::UnknownKey(m) => m@,
        }
    }

    /// The exit status for this failure (see `code`).
    pub fn exit_code(&self) -> (status: i32)
        ensures
            status == self.code(),
    {
        match self {
            Failure::Usage(_) => 2,
            Failure::Bibliography(_) => 3,
            Failure::Style(_) => 4,
            Failure::Locale(_) => 5,
            Failure::CitationFile(_) => 6,
            Failure::NoCitationGroups => 7,
            Failure::UnknownKey(_) => 8,
        }
    }

    /// The message printed for this failure (see `text`).
    pub fn message(&self) -> (m: String)
        ensures
            m@ == self.text(),
    {
        match self {
            Failure::Usage(m) => m.clone(),
            Failure::Bibliography(m) => m.clone(),
            Failure::Style(m) => m.clone(),
            Failure::Locale(m) => m.clone(),
            Failure::CitationFile(m) => m.clone(),
            Failure::NoCitationGroups => owned("citation text file does not contain any citation groups"),
            Failure::UnknownKey(m) => m.clone(),
        }
    }
}

/// The message for a bibliography that does not parse: the path, then what
/// hayagriva says of each error, one per line.
pub open spec fn bibliography_failure_message(path: Seq<char>, errors: Seq<BibError>) -> Seq<char> {
    "failed to parse bibliography `"@ + path + "`:\n"@ + join_lines(
        errors.map_values(|e: BibError| e.display@),
    )
}

/// What hayagriva says of each error, one per line.
fn error_lines(errors: &Vec<BibError>) -> (text: Vec<char>)
    ensures
        text@ == join_lines(errors@.map_values(|e: BibError| e.display@)),
{
    let ghost lines = errors@.map_values(|e: BibError| e.display@);
    let mut out: Vec<char> = Vec::new();
    let mut i: usize = 0;
    proof {
        assert(lines.take(0) =~= Seq::<Seq<char>>::empty());
    }
    while i < errors.len()
        invariant
            i <= errors.len(),
            lines == errors@.map_values(|e: BibError| e.display@),
            out@ == join_lines(lines.take(i as int)),
        decreases errors.len() - i,
    {
        proof {
            assert(lines.take(i + 1).drop_last() =~= lines.take(i as int));
        }
        if i > 0 {
            out.push('\n');
        }
        let cs = chars_of(errors[i].display.as_str());
        append_chars(&mut out, &cs);
        i = i + 1;
    }
    proof {
        assert(lines.take(i as int) =~= lines);
    }
    out
}

/// The bibliography in the BibLaTeX text `input` read from `path`, or the
/// message listing hayagriva's errors.
pub fn parse_bibliography(input: &str, path: &str) -> (r: Result<Bibliography, String>)
    ensures
        match biblatex_outcome(input@) {
            Ok(entries) => r matches Ok(library) && library@ == entries && library.source()
                == input@,
            Err(errors) => r matches Err(m) && m@ == bibliography_failure_message(path@, errors),
        },
{
    match parse_biblatex(input) {
        Ok(library) => Ok(library),
        Err(errors) => {
            let mut out = chars_of("failed to parse bibliography `");
            let p = chars_of(path);
            append_chars(&mut out, &p);
            let mid = chars_of("`:\n");
            append_chars(&mut out, &mid);
            let details = error_lines(&errors);
            append_chars(&mut out, &details);
            Err(string_from_chars(&out))
        },
    }
}

/// The embedded locales, after checking that the chosen locale, if any, is
/// one of them: it fails exactly when a code is chosen that no embedded
/// locale has.
pub fn locales_for(locale: &Option<String>) -> (r: Result<EmbeddedLocales, String>)
    ensures
        match locale {
            None => r is Ok,
            Some(code) => (r is Ok <==> is_locale_code(code@)) && (r matches Err(m) ==> m@
                == locale_not_found_message(code@)),
        },
{
    let locales = EmbeddedLocales::new();
    match locale {
        None => Ok(locales),
        Some(code) => {
            match ensure_locale_exists(code.as_str(), locales.codes()) {
                Ok(()) => Ok(locales),
                Err(m) => Err(m),
            }
        },
    }
}

/// The citation groups of the citation file `input` read from `path` (see
/// `citation_groups_text`); a file without any group is refused too.
pub fn load_citation_groups(input: &str, path: &str) -> (r: Result<Vec<Vec<String>>, Failure>)
    ensures
        match citation_groups_text(input@, path@) {
            Ok(gs) => if gs.len() == 0 {
                r matches Err(Failure::NoCitationGroups)
            } else {
                r matches Ok(g) && groups_view(g@) == gs
            },
            Err(m) => r matches Err(Failure::CitationFile(e)) && e@ == m,
        },
{
    match read_citation_groups(input, path) {
        Ok(groups) => {
            if groups.len() == 0 {
                Err(Failure::NoCitationGroups)
            } else {
                Ok(groups)
            }
        },
        Err(m) => Err(Failure::CitationFile(m)),
    }
}

/// The message for a cited key the bibliography at `bib_path` lacks.
pub open spec fn unknown_key_message(key: Seq<char>, bib_path: Seq<char>) -> Seq<char> {
    "citation key `"@ + key + "` was not found in `"@ + bib_path + "`"@
}

/// The bibliography's entries under the keys of each group, group by
/// group; the first key the bibliography lacks is reported instead.
pub fn resolve_citation_groups<'a>(
    library: &'a Bibliography,
    groups: &Vec<Vec<String>>,
    bib_path: &str,
) -> (r: Result<Vec<Vec<EntryRef<'a>>>, String>)
    ensures
        match first_missing_key(groups_view(groups@), entry_keys(library@)) {
            Some(key) => r matches Err(m) && m@ == unknown_key_message(key, bib_path@),
            None => r matches Ok(entries) && groups_keys(refs_view(entries@)) == groups_view(
                groups@,
            ) && all_from(entries@, library.source()) && forall|i: int, j: int|
                0 <= i < entries.len() && 0 <= j < entries@[i].len() ==> library@.contains(
                    #[trigger] entries@[i]@[j]@,
                ),
        },
{
    match resolve_keys(library, groups) {
        Ok(entries) => Ok(entries),
        Err(key) => {
            let mut out = chars_of("citation key `");
            let k = chars_of(key.as_str());
            append_chars(&mut out, &k);
            let mid = chars_of("` was not found in `");
            append_chars(&mut out, &mid);
            let p = chars_of(bib_path);
            append_chars(&mut out, &p);
            out.push('`');
            proof {
                reveal_strlit("`");
                assert(out@ =~= unknown_key_message(key@, bib_path@));
            }
            Err(string_from_chars(&out))
        },
    }
}

/// The report of one style over the citation groups resolved in
/// `bibliography`: the lines (see `report_lines`) of what the style renders
/// with `locale` for one citation per group, in order, under the style's
/// default locale.
pub fn style_report<'a>(
    bibliography: &Bibliography,
    style: &'a ChosenStyle,
    locale: &Option<String>,
    locales: &'a EmbeddedLocales,
    groups: &Vec<Vec<EntryRef<'a>>>,
    format: OutputFormat,
) -> (lines: Vec<String>)
    requires
        all_from(groups@, bibliography.source()),
    ensures
        lines_view(lines@) == report_lines(
            style_default_locale_of(style@),
            rendering_of(
                bibliography.source(),
                groups_keys(refs_view(groups@)),
                style@,
                opt_view(*locale),
            ),
            format.vt100(),
        ),
{
    let default_locale = style_default_locale(style);
    let doc = render_citations(bibliography, groups, style, locale, locales);
    rendered_lines(&default_locale, &doc, format)
}

/// The message when an embedded style turns out to be a dependent one.
pub open spec fn dependent_style_message() -> Seq<char> {
    "embedded style is not an independent CSL style"@
}

/// One style's part of the report of all styles: the style's names, its
/// heading and its report.
pub struct StyleBlock {
    pub names: Seq<Seq<char>>,
    pub heading: Seq<char>,
    pub report: Seq<Seq<char>>,
}

/// Whether a block reports a style for citation groups of keys `cited` of
/// the bibliography parsed from `source`, with `locale`: the style has names
/// and is independent, the heading names the style's display name and the
/// least of its names (see `style_heading_text` and `min_style_key`), and
/// the report is that of what the style renders for one citation per group,
/// under its default locale (see `style_report`).
pub open spec fn is_style_block(
    block: StyleBlock,
    source: Seq<char>,
    cited: Seq<Seq<Seq<char>>>,
    locale: Option<Seq<char>>,
    vt100: bool,
) -> bool {
    &&& block.names.len() > 0
    &&& is_independent_style(block.names[0])
    &&& block.heading == style_heading_text(
        style_display_name_of(block.names[0]),
        min_style_key(block.names),
    )
    &&& block.report == report_lines(
        style_default_locale_of(block.names[0]),
        rendering_of(source, cited, block.names[0], locale),
        vt100,
    )
}

/// Whether the `k`-th block is of the style at position `k` of the archive,
/// with that style's names.
pub open spec fn in_archive_order(blocks: Seq<StyleBlock>) -> bool {
    &&& forall|k: int| 0 <= k < blocks.len() ==> (#[trigger] blocks[k]).names == archive_style_names(k)
    &&& forall|k: int, j: int|
        0 <= k < blocks.len() && 0 <= j < blocks[k].names.len() ==> archive_index_of(
            #[trigger] blocks[k].names[j],
        ) == k
}

/// Whether every style of the archive is independent.
pub open spec fn archive_all_independent() -> bool {
    forall|n: Seq<char>| #[trigger] is_archive_name(n) ==> is_independent_style(n)
}

/// Whether the blocks cover the archive: their names are exactly the
/// archive's names.
pub open spec fn covers_archive(blocks: Seq<StyleBlock>) -> bool {
    forall|n: Seq<char>|
        #[trigger] is_archive_name(n) <==> exists|k: int, j: int|
            #![trigger blocks[k].names[j]]
            0 <= k < blocks.len() && 0 <= j < blocks[k].names.len() && blocks[k].names[j] == n
}

/// The lines of blocks: each block's heading and report, an empty line
/// between one block and the next.
pub open spec fn blocks_lines(blocks: Seq<StyleBlock>) -> Seq<Seq<char>>
    decreases blocks.len(),
{
    if blocks.len() == 0 {
        seq![]
    } else {
        let before = blocks_lines(blocks.drop_last());
        let gap: Seq<Seq<char>> = if blocks.len() > 1 {
            seq![Seq::<char>::empty()]
        } else {
            seq![]
        };
        before + gap + seq![blocks.last().heading] + blocks.last().report
    }
}

/// The reports of all embedded styles, in archive order, each after a
/// heading (see `style_heading`) and separated by an empty line. It fails
/// exactly when some style of the archive is dependent: the reports of the
/// styles before the first dependent one, with the empty line that would
/// have preceded it, come back with its message. Without a failure, there
/// is a block for every style of the archive.
pub fn all_styles_report<'a>(
    bibliography: &Bibliography,
    locale: &Option<String>,
    locales: &'a EmbeddedLocales,
    groups: &Vec<Vec<EntryRef<'a>>>,
    format: OutputFormat,
) -> (r: (Vec<String>, Option<String>))
    requires
        all_from(groups@, bibliography.source()),
    ensures
        r.1 is None <==> archive_all_independent(),
        r.1 matches Some(m) ==> m@ == dependent_style_message(),
        exists|blocks: Seq<StyleBlock>|
            #![trigger blocks_lines(blocks)]
            (forall|k: int|
                0 <= k < blocks.len() ==> is_style_block(
                    #[trigger] blocks[k],
                    bibliography.source(),
                    groups_keys(refs_view(groups@)),
                    opt_view(*locale),
                    format.vt100(),
                )) && in_archive_order(blocks) && (r.1 is None ==> covers_archive(blocks)) && (
            r.1 is Some ==> exists|n: Seq<char>|
                #[trigger] is_archive_name(n) && archive_index_of(n) == blocks.len()
                    && !is_independent_style(n)) && lines_view(r.0@) == match r.1 {
                None => blocks_lines(blocks),
                Some(_) => blocks_lines(blocks) + if blocks.len() > 0 {
                    seq![Seq::<char>::empty()]
                } else {
                    Seq::<Seq<char>>::empty()
                },
            },
{
    let ghost n = groups_keys(refs_view(groups@));
    let ghost vt100 = format.vt100();
    let styles = archived_styles();
    let mut lines: Vec<String> = Vec::new();
    let ghost mut blocks: Seq<StyleBlock> = Seq::empty();
    let mut i: usize = 0;
    proof {
        assert(lines_view(lines@) =~= blocks_lines(blocks));
    }
    while i < styles.len()
        invariant
            i <= styles.len(),
            blocks.len() == i,
            n == groups_keys(refs_view(groups@)),
            vt100 == format.vt100(),
            forall|k: int|
                0 <= k < styles.len() ==> (#[trigger] styles@[k])@.len() > 0 && styles@[k].selected_by()
                    == styles@[k]@[0] && styles@[k]@ == archive_style_names(k),
            forall|a: int, j: int|
                0 <= a < styles.len() && 0 <= j < styles@[a]@.len() ==> archive_index_of(
                    #[trigger] styles@[a]@[j],
                ) == a && same_description(styles@[a]@[j], styles@[a]@[0]),
            forall|nm: Seq<char>|
                #[trigger] is_archive_name(nm) <==> exists|a: int, j: int|
                    #![trigger styles@[a]@[j]]
                    0 <= a < styles.len() && 0 <= j < styles@[a]@.len() && styles@[a]@[j] == nm,
            forall|k: int| 0 <= k < i ==> is_independent_style(#[trigger] styles@[k]@[0]),
            all_from(groups@, bibliography.source()),
            forall|k: int|
                0 <= k < blocks.len() ==> is_style_block(
                    #[trigger] blocks[k],
                    bibliography.source(),
                    n,
                    opt_view(*locale),
                    vt100,
                ),
            forall|k: int| 0 <= k < blocks.len() ==> (#[trigger] blocks[k]).names == styles@[k]@,
            lines_view(lines@) == blocks_lines(blocks),
        decreases styles.len() - i,
    {
        let ghost before = lines_view(lines@);
        if i > 0 {
            push_line(&mut lines, string_from_chars(&Vec::new()));
            proof {
                assert(lines_view(lines@) =~= before + seq![Seq::<char>::empty()]);
            }
        } else {
            proof {
                assert(lines_view(lines@) =~= before + Seq::<Seq<char>>::empty());
            }
        }
        let archived = &styles[i];
        let style = match archived_style_get(archived) {
            Some(style) => style,
            None => {
                proof {
                    let nm = styles@[i as int]@[0];
                    assert(is_archive_name(nm));
                    assert(!archive_all_independent());
                    assert(in_archive_order(blocks)) by {
                        assert forall|k: int, j: int|
                            0 <= k < blocks.len() && 0 <= j < blocks[k].names.len() implies archive_index_of(
                            #[trigger] blocks[k].names[j],
                        ) == k by {
                            assert(blocks[k].names == styles@[k]@);
                        }
                    }
                }
                let cs = chars_of("embedded style is not an independent CSL style");
                return (lines, Some(string_from_chars(&cs)));
            },
        };
        let display_name = archived_style_display_name(archived);
        let names = archived.names();
        let key = recommended_style_key(names);
        let heading = style_heading(display_name.as_str(), key.as_str());
        let ghost heading_view = heading@;
        push_line(&mut lines, heading);
        let report = style_report(bibliography, &style, locale, locales, groups, format);
        let ghost headed = lines_view(lines@);
        let mut j: usize = 0;
        proof {
            assert(headed + lines_view(report@).take(0) =~= headed);
        }
        while j < report.len()
            invariant
                j <= report.len(),
                lines_view(lines@) == headed + lines_view(report@).take(j as int),
            decreases report.len() - j,
        {
            push_line(&mut lines, report[j].clone());
            proof {
                assert(headed + lines_view(report@).take(j + 1) =~= (headed + lines_view(
                    report@,
                ).take(j as int)).push(report@[j as int]@));
            }
            j = j + 1;
        }
        proof {
            assert(lines_view(report@).take(j as int) =~= lines_view(report@));
            let block = StyleBlock {
                names: archived@,
                heading: heading_view,
                report: lines_view(report@),
            };
            assert(block.heading == style_heading_text(
                style_display_name_of(block.names[0]),
                min_style_key(block.names),
            ));
            assert(style@ == block.names[0]);
            assert(is_style_block(block, bibliography.source(), n, opt_view(*locale), vt100));
            let next = blocks.push(block);
            assert(next.drop_last() =~= blocks);
            assert(lines_view(lines@) =~= blocks_lines(next));
            assert forall|k: int| 0 <= k < next.len() implies (#[trigger] next[k]).names == styles@[k]@ by {
                if k < blocks.len() {
                    assert(next[k] == blocks[k]);
                }
            }
            blocks = next;
        }
        i = i + 1;
    }
    proof {
        assert forall|nm: Seq<char>| #[trigger] is_archive_name(nm) implies is_independent_style(nm) by {
            let (a, j) = choose|a: int, j: int|
                #![trigger styles@[a]@[j]]
                0 <= a < styles.len() && 0 <= j < styles@[a]@.len() && styles@[a]@[j] == nm;
            assert(same_description(styles@[a]@[j], styles@[a]@[0]));
            assert(is_independent_style(styles@[a]@[0]));
        }
        assert(in_archive_order(blocks)) by {
            assert forall|k: int, j: int|
                0 <= k < blocks.len() && 0 <= j < blocks[k].names.len() implies archive_index_of(
                #[trigger] blocks[k].names[j],
            ) == k by {
                assert(blocks[k].names == styles@[k]@);
            }
        }
        assert forall|nm: Seq<char>| #[trigger] is_archive_name(nm) <==> exists|k: int, j: int|
            #![trigger blocks[k].names[j]]
            0 <= k < blocks.len() && 0 <= j < blocks[k].names.len() && blocks[k].names[j] == nm by {
            if is_archive_name(nm) {
                let (a, j) = choose|a: int, j: int|
                    #![trigger styles@[a]@[j]]
                    0 <= a < styles.len() && 0 <= j < styles@[a]@.len() && styles@[a]@[j] == nm;
                assert(blocks[a].names[j] == nm);
            }
            if exists|k: int, j: int|
                #![trigger blocks[k].names[j]]
                0 <= k < blocks.len() && 0 <= j < blocks[k].names.len() && blocks[k].names[j] == nm {
                let (k, j) = choose|k: int, j: int|
                    #![trigger blocks[k].names[j]]
                    0 <= k < blocks.len() && 0 <= j < blocks[k].names.len() && blocks[k].names[j] == nm;
                assert(styles@[k]@[j] == nm);
            }
        }
    }
    (lines, None)
}

} // verus!
