//! Reading a BibLaTeX bibliography: the errors hayagriva reports, as plain
//! values, and the messages that show where in the source each one lies.

use vstd::prelude::*;
use crate::chars::{append_chars, chars_of, decimal, decimal_chars, string_from_chars, utf8_len};
use crate::diagnostics::{
    chars_within, context_fits, count_newlines, lemma_end_column_prefix,
    lemma_line_bounds, location, location_fits, missing_comma_offset,
    skip_white_space_back, source_context, source_context_spec, source_location,
    checked_end_column, line_bounds_chars,
};

verus! {

/// A token the BibLaTeX parser can expect or meet.
#[derive(Clone, Copy, PartialEq, Eq, Structural, Debug)]
pub enum TokenKind {
    Identifier,
    OpeningBrace,
    ClosingBrace,
    Comma,
    QuotationMark,
    Equals,
    DecimalPoint,
}

/// What went wrong while parsing the BibLaTeX source.
pub enum ParseProblem {
    UnexpectedEof,
    Unexpected(TokenKind),
    Expected(TokenKind),
    UnknownAbbreviation(String),
    MalformedCommand,
    DuplicateKey(String),
    ResolutionError,
    /// A kind this library does not tell apart.
    Other,
}

/// Whether the source failed to parse or a field failed to convert.
pub enum BibErrorKind {
    Parse(ParseProblem),
    Type,
}

/// One error reported for a BibLaTeX source.
pub struct BibError {
    pub kind: BibErrorKind,
    /// Byte range of the source the error is about.
    pub span_start: usize,
    pub span_end: usize,
    /// What biblatex says of the error's kind (its `Display`).
    pub kind_message: String,
    /// What hayagriva says of the whole error (its `Display`).
    pub display: String,
}

/// Whether `error` is a parse error that expected a comma at an empty span:
/// the parser then reports the start of the next field.
pub open spec fn is_missing_comma(error: BibError) -> bool {
    &&& error.span_start >= error.span_end
    &&& error.kind matches BibErrorKind::Parse(ParseProblem::Expected(TokenKind::Comma))
}

/// The byte offset a message about `error` points at: for a missing comma,
/// just after the previous field's value (see `missing_comma_offset`);
/// otherwise the start of the error's span.
pub open spec fn error_offset(error: BibError, source: Seq<char>) -> int {
    if is_missing_comma(error) {
        utf8_len(
            source.take(
                skip_white_space_back(source, chars_within(source, error.span_start as int) as int),
            ),
        ) as int
    } else {
        error.span_start as int
    }
}

/// How a message about `error` begins.
pub open spec fn error_heading(error: BibError) -> Seq<char> {
    match error.kind {
        BibErrorKind::Parse(_) => "biblatex parse error: "@,
        BibErrorKind::Type => "biblatex type error: "@,
    }
}

/// The message about `error` in `source`: the heading, what biblatex says of
/// the error's kind, ` at line L, column C`, a line feed, and the excerpt of
/// the line with a caret under the position. When the line is too wide for
/// its columns to be numbered in a `usize`, only the heading and what
/// biblatex says.
pub open spec fn formatted_error(error: BibError, source: Seq<char>) -> Seq<char> {
    let offset = error_offset(error, source);
    let (line, column) = location(source, offset);
    if location_fits(source, offset) && context_fits(source, offset) {
        error_heading(error) + error.kind_message@ + " at line "@ + decimal(line as nat)
            + ", column "@ + decimal(column as nat) + seq!['\n'] + source_context_spec(
            source,
            offset,
            line as nat,
        )
    } else {
        error_heading(error) + error.kind_message@
    }
}

/// Whether the position of byte `offset` can be numbered and shown.
fn position_fits(source: &str, offset: usize) -> (b: bool)
    ensures
        b == (location_fits(source@, offset as int) && context_fits(source@, offset as int)),
{
    let chars = chars_of(source);
    let (start, end, position) = line_bounds_chars(&chars, offset);
    proof {
        lemma_line_bounds(chars@, offset as int);
    }
    let mut newlines: usize = 0;
    let mut i: usize = 0;
    while i < start
        invariant
            i <= start <= chars.len(),
            newlines <= i,
            newlines == count_newlines(chars@.take(i as int)),
        decreases start - i,
    {
        proof {
            crate::diagnostics::lemma_count_newlines_push(chars@.take(i as int), chars@[i as int]);
            assert(chars@.take(i + 1) =~= chars@.take(i as int).push(chars@[i as int]));
        }
        if chars[i] == '\n' {
            newlines = newlines + 1;
        }
        i = i + 1;
    }
    if newlines == usize::MAX {
        return false;
    }
    let line_end = checked_end_column(&chars, start, end);
    let position_end = checked_end_column(&chars, start, position);
    proof {
        let line = chars@.subrange(start as int, end as int);
        assert(chars@.subrange(start as int, position as int) =~= line.take(position - start));
        lemma_end_column_prefix(line, position - start, 0);
    }
    match line_end {
        Some(width) => width <= usize::MAX - crate::diagnostics::CONTEXT_RADIUS && match position_end {
            Some(p) => p < usize::MAX,
            None => false,
        },
        None => false,
    }
}

/// The message about one BibLaTeX error (see `formatted_error`).
pub fn format_biblatex_error(error: &BibError, source: &str) -> (message: String)
    ensures
        message@ == formatted_error(*error, source@),
{
    let missing_comma = error.span_start >= error.span_end && match &error.kind {
        BibErrorKind::Parse(ParseProblem::Expected(TokenKind::Comma)) => true,
        _ => false,
    };
    let offset = if missing_comma {
        missing_comma_offset(source, error.span_start)
    } else {
        error.span_start
    };
    let mut out: Vec<char> = Vec::new();
    let heading = match &error.kind {
        BibErrorKind::Parse(_) => chars_of("biblatex parse error: "),
        BibErrorKind::Type => chars_of("biblatex type error: "),
    };
    append_chars(&mut out, &heading);
    let kind_message = chars_of(error.kind_message.as_str());
    append_chars(&mut out, &kind_message);
    if !position_fits(source, offset) {
        return string_from_chars(&out);
    }
    let (line, column) = source_location(source, offset);
    let at_line = chars_of(" at line ");
    append_chars(&mut out, &at_line);
    let line_digits = decimal_chars(line);
    append_chars(&mut out, &line_digits);
    let at_column = chars_of(", column ");
    append_chars(&mut out, &at_column);
    let column_digits = decimal_chars(column);
    append_chars(&mut out, &column_digits);
    out.push('\n');
    let context = source_context(source, offset, line);
    let context_chars = chars_of(context.as_str());
    append_chars(&mut out, &context_chars);
    string_from_chars(&out)
}

/// `lines` joined by line feeds.
pub open spec fn join_lines(lines: Seq<Seq<char>>) -> Seq<char>
    decreases lines.len(),
{
    if lines.len() == 0 {
        seq![]
    } else if lines.len() == 1 {
        lines[0]
    } else {
        join_lines(lines.drop_last()) + seq!['\n'] + lines.last()
    }
}

/// The messages about `errors`, one after the other, joined by line feeds.
pub open spec fn formatted_errors(errors: Seq<BibError>, source: Seq<char>) -> Seq<char> {
    join_lines(errors.map_values(|e: BibError| formatted_error(e, source)))
}

/// The messages about all `errors` in `source` (see `formatted_errors`).
pub fn format_biblatex_errors(errors: &Vec<BibError>, source: &str) -> (message: String)
    ensures
        message@ == formatted_errors(errors@, source@),
{
    let ghost lines = errors@.map_values(|e: BibError| formatted_error(e, source@));
    let mut out: Vec<char> = Vec::new();
    let mut i: usize = 0;
    proof {
        assert(lines.take(0) =~= Seq::<Seq<char>>::empty());
    }
    while i < errors.len()
        invariant
            i <= errors.len(),
            lines == errors@.map_values(|e: BibError| formatted_error(e, source@)),
            out@ == join_lines(lines.take(i as int)),
        decreases errors.len() - i,
    {
        proof {
            assert(lines.take(i + 1).drop_last() =~= lines.take(i as int));
        }
        if i > 0 {
            out.push('\n');
        }
        let message = format_biblatex_error(&errors[i], source);
        let cs = chars_of(message.as_str());
        append_chars(&mut out, &cs);
        i = i + 1;
    }
    proof {
        assert(lines.take(i as int) =~= lines);
    }
    string_from_chars(&out)
}

} // verus!
