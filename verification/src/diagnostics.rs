//! Locating and showing a position of a BibLaTeX source in an error message:
//! display columns (tabs and wide characters), line bounds, one-based
//! line/column numbers, and a one-line excerpt with a caret under the
//! position.
//!
//! Positions that callers pass and get back are byte offsets into the UTF-8
//! source. The contracts speak of characters: the byte offset of the `i`-th
//! character of `s` is `utf8_len(s@.take(i))`.

use vstd::prelude::*;
use crate::bindings::{unicode_char_width, unicode_width_of};
use crate::chars::{
    char_len_utf8, chars_of, lemma_utf8_len_prefix, lemma_utf8_len_push, str_byte_len,
    string_from_chars, utf8_len, utf8_width, is_white_space, is_whitespace, decimal,
    decimal_chars, sub_chars, append_chars,
};

verus! {

broadcast use vstd::string::group_string_axioms, vstd::utf8::group_utf8_lib,
    vstd::slice::group_slice_axioms;

/// Columns between tab stops.
pub const TAB_WIDTH: usize = 4;

/// Columns shown on either side of the marked position when a line is too
/// long to show whole.
pub const CONTEXT_RADIUS: usize = 40;

/// Columns that `c` occupies when it starts at `column`: a tab reaches the
/// next tab stop, any other character takes its Unicode width (0 for
/// control characters).
pub open spec fn char_columns(c: char, column: int) -> int {
    if c == '\t' {
        TAB_WIDTH - column % (TAB_WIDTH as int)
    } else {
        match unicode_width_of(c) {
            Some(w) => w as int,
            None => 0,
        }
    }
}

/// The column reached after laying out `chars` from column `start`.
pub open spec fn end_column(chars: Seq<char>, start: int) -> int
    decreases chars.len(),
{
    if chars.len() == 0 {
        start
    } else {
        let before = end_column(chars.drop_last(), start);
        before + char_columns(chars.last(), before)
    }
}

/// Columns that `chars` occupy when laid out from column `start`.
pub open spec fn text_width(chars: Seq<char>, start: int) -> int {
    end_column(chars, start) - start
}

proof fn lemma_char_columns_nonneg(c: char, column: int)
    ensures
        0 <= char_columns(c, column),
        c == '\t' ==> 1 <= char_columns(c, column) <= TAB_WIDTH,
{
}

/// Laying out one more character moves the column by that character's width.
proof fn lemma_end_column_push(chars: Seq<char>, c: char, start: int)
    ensures
        end_column(chars.push(c), start) == end_column(chars, start) + char_columns(
            c,
            end_column(chars, start),
        ),
{
    assert(chars.push(c).drop_last() =~= chars);
}

/// The column never moves backwards: a prefix ends at or before the whole.
pub proof fn lemma_end_column_prefix(chars: Seq<char>, i: int, start: int)
    requires
        0 <= i <= chars.len(),
    ensures
        start <= end_column(chars.take(i), start) <= end_column(chars, start),
    decreases chars.len(),
{
    if chars.len() == 0 {
        assert(chars.take(i) =~= chars);
    } else if i == chars.len() {
        assert(chars.take(i) =~= chars);
        lemma_end_column_prefix(chars.drop_last(), i - 1, start);
        lemma_char_columns_nonneg(chars.last(), end_column(chars.drop_last(), start));
    } else {
        lemma_end_column_prefix(chars.drop_last(), i, start);
        assert(chars.drop_last().take(i) =~= chars.take(i));
        lemma_end_column_prefix(chars.drop_last(), chars.len() - 1, start);
        assert(chars.drop_last().take(chars.len() - 1) =~= chars.drop_last());
        lemma_char_columns_nonneg(chars.last(), end_column(chars.drop_last(), start));
    }
}

/// Columns that `character` occupies when it starts at `column`.
pub fn char_display_width(character: char, column: usize) -> (w: usize)
    ensures
        w == char_columns(character, column as int),
{
    if character == '\t' {
        TAB_WIDTH - column % TAB_WIDTH
    } else {
        match unicode_char_width(character) {
            Some(w) => w,
            None => 0,
        }
    }
}

/// The column reached after laying out `chars[from..to]` from `start`.
fn columns_of(chars: &Vec<char>, from: usize, to: usize, start: usize) -> (column: usize)
    requires
        from <= to <= chars.len(),
        end_column(chars@.subrange(from as int, to as int), start as int) <= usize::MAX,
    ensures
        column == end_column(chars@.subrange(from as int, to as int), start as int),
{
    let ghost piece = chars@.subrange(from as int, to as int);
    let mut column = start;
    let mut i: usize = from;
    proof {
        assert(piece.take(0) =~= Seq::<char>::empty());
    }
    while i < to
        invariant
            from <= i <= to <= chars.len(),
            piece == chars@.subrange(from as int, to as int),
            column == end_column(piece.take(i - from), start as int),
            end_column(piece, start as int) <= usize::MAX,
        decreases to - i,
    {
        proof {
            lemma_end_column_push(piece.take(i - from), piece[i - from], start as int);
            assert(piece.take(i - from + 1) =~= piece.take(i - from).push(piece[i - from]));
            lemma_end_column_prefix(piece, i - from + 1, start as int);
        }
        column = column + char_display_width(chars[i], column);
        i = i + 1;
    }
    proof {
        assert(piece.take(i - from) =~= piece);
    }
    column
}

/// Columns that `text` occupies when laid out from `start_column`.
pub fn display_width(text: &str, start_column: usize) -> (w: usize)
    requires
        end_column(text@, start_column as int) <= usize::MAX,
    ensures
        w == text_width(text@, start_column as int),
{
    let chars = chars_of(text);
    proof {
        assert(chars@.subrange(0, chars@.len() as int) =~= chars@);
        lemma_end_column_prefix(chars@, 0, start_column as int);
    }
    let column = columns_of(&chars, 0, chars.len(), start_column);
    column - start_column
}

/// `text` with every tab replaced by the spaces that reach the same tab stop,
/// laid out from column `start`.
pub open spec fn expand_tabs_spec(chars: Seq<char>, start: int) -> Seq<char>
    decreases chars.len(),
{
    if chars.len() == 0 {
        seq![]
    } else {
        let c = chars.last();
        let before = expand_tabs_spec(chars.drop_last(), start);
        if c == '\t' {
            before + Seq::new(
                char_columns(c, end_column(chars.drop_last(), start)) as nat,
                |k: int| ' ',
            )
        } else {
            before.push(c)
        }
    }
}

/// `chars[from..to]` with its tabs expanded, laid out from `start`.
fn expand_range(chars: &Vec<char>, from: usize, to: usize, start: usize) -> (out: Vec<char>)
    requires
        from <= to <= chars.len(),
        end_column(chars@.subrange(from as int, to as int), start as int) <= usize::MAX,
    ensures
        out@ == expand_tabs_spec(chars@.subrange(from as int, to as int), start as int),
{
    let ghost piece = chars@.subrange(from as int, to as int);
    let mut column = start;
    let mut out: Vec<char> = Vec::new();
    let mut i: usize = from;
    proof {
        assert(piece.take(0) =~= Seq::<char>::empty());
    }
    while i < to
        invariant
            from <= i <= to <= chars.len(),
            piece == chars@.subrange(from as int, to as int),
            column == end_column(piece.take(i - from), start as int),
            out@ == expand_tabs_spec(piece.take(i - from), start as int),
            end_column(piece, start as int) <= usize::MAX,
        decreases to - i,
    {
        let ghost prefix = piece.take(i - from);
        proof {
            lemma_end_column_push(prefix, piece[i - from], start as int);
            assert(piece.take(i - from + 1) =~= prefix.push(piece[i - from]));
            assert(piece.take(i - from + 1).drop_last() =~= prefix);
            lemma_end_column_prefix(piece, i - from + 1, start as int);
        }
        let character = chars[i];
        if character == '\t' {
            let spaces = char_display_width(character, column);
            let ghost base = out@;
            let mut k: usize = 0;
            while k < spaces
                invariant
                    k <= spaces,
                    out@ == base + Seq::new(k as nat, |j: int| ' '),
                decreases spaces - k,
            {
                out.push(' ');
                k = k + 1;
                proof {
                    assert(out@ =~= base + Seq::new(k as nat, |j: int| ' '));
                }
            }
            column = column + spaces;
        } else {
            out.push(character);
            column = column + char_display_width(character, column);
        }
        i = i + 1;
    }
    proof {
        assert(piece.take(i - from) =~= piece);
    }
    out
}

/// `text` with every tab replaced by the spaces up to the next tab stop,
/// laid out from `start_column`.
pub fn expand_tabs(text: &str, start_column: usize) -> (expanded: String)
    requires
        end_column(text@, start_column as int) <= usize::MAX,
    ensures
        expanded@ == expand_tabs_spec(text@, start_column as int),
{
    let chars = chars_of(text);
    proof {
        assert(chars@.subrange(0, chars@.len() as int) =~= chars@);
    }
    let out = expand_range(&chars, 0, chars.len(), start_column);
    string_from_chars(&out)
}

/// Whether the walk over `chars` towards column `target` stops at the
/// `i`-th character: its column has reached `target`, or its width would
/// carry past it.
pub open spec fn stops_at(chars: Seq<char>, target: int, i: int) -> bool {
    end_column(chars.take(i), 0) >= target || end_column(chars.take(i + 1), 0) > target
}

/// The first index from `i` on at which the walk towards `target` stops, or
/// the length of `chars` if it never does.
pub open spec fn stop_index_from(chars: Seq<char>, target: int, i: int) -> int
    decreases chars.len() - i,
{
    if i >= chars.len() {
        chars.len() as int
    } else if stops_at(chars, target, i) {
        i
    } else {
        stop_index_from(chars, target, i + 1)
    }
}

/// Index of the character that sits at display column `target` of `chars`
/// (laid out from column 0): the first character whose column has reached
/// `target` or whose width would carry past it; the length of `chars` if
/// there is none.
pub open spec fn stop_index(chars: Seq<char>, target: int) -> int {
    stop_index_from(chars, target, 0)
}

/// `stop_index_from` is the first stopping index at or after `i`.
pub proof fn lemma_stop_index_from(chars: Seq<char>, target: int, i: int)
    requires
        0 <= i <= chars.len(),
    ensures
        i <= stop_index_from(chars, target, i) <= chars.len(),
        forall|j: int| i <= j < stop_index_from(chars, target, i) ==> !stops_at(chars, target, j),
        stop_index_from(chars, target, i) < chars.len() ==> stops_at(
            chars,
            target,
            stop_index_from(chars, target, i),
        ),
    decreases chars.len() - i,
{
    if i < chars.len() && !stops_at(chars, target, i) {
        lemma_stop_index_from(chars, target, i + 1);
    }
}

/// The first stopping index is characterised by the stops before it.
pub proof fn lemma_stop_index_unique(chars: Seq<char>, target: int, k: int)
    requires
        0 <= k <= chars.len(),
        forall|j: int| 0 <= j < k ==> !stops_at(chars, target, j),
        k < chars.len() ==> stops_at(chars, target, k),
    ensures
        stop_index(chars, target) == k,
{
    lemma_stop_index_from(chars, target, 0);
    let s = stop_index(chars, target);
    if s < k {
        assert(!stops_at(chars, target, s));
    } else if k < s {
        assert(!stops_at(chars, target, k));
    }
}

/// Index of the character of `chars` at display column `target` (see
/// `stop_index`).
fn stop_index_of(chars: &Vec<char>, target: usize) -> (k: usize)
    ensures
        k == stop_index(chars@, target as int),
{
    let mut column: usize = 0;
    let mut i: usize = 0;
    proof {
        lemma_stop_index_from(chars@, target as int, 0);
        assert(chars@.take(0) =~= Seq::<char>::empty());
    }
    while i < chars.len()
        invariant
            i <= chars.len(),
            column == end_column(chars@.take(i as int), 0),
            forall|j: int| 0 <= j < i ==> !stops_at(chars@, target as int, j),
        decreases chars.len() - i,
    {
        let character = chars[i];
        proof {
            lemma_end_column_push(chars@.take(i as int), character, 0);
            assert(chars@.take(i + 1) =~= chars@.take(i as int).push(character));
        }
        if column >= target {
            proof {
                lemma_stop_index_unique(chars@, target as int, i as int);
            }
            return i;
        }
        let width = char_display_width(character, column);
        match column.checked_add(width) {
            Some(next_column) => {
                if next_column > target {
                    proof {
                        lemma_stop_index_unique(chars@, target as int, i as int);
                    }
                    return i;
                }
                column = next_column;
            },
            None => {
                proof {
                    lemma_stop_index_unique(chars@, target as int, i as int);
                }
                return i;
            },
        }
        i = i + 1;
    }
    proof {
        lemma_stop_index_unique(chars@, target as int, i as int);
    }
    i
}

/// Byte offset of the character of `text` that sits at display column
/// `target_column` (see `stop_index`), or the length of `text`.
pub fn byte_offset_at_display_column(text: &str, target_column: usize) -> (offset: usize)
    ensures
        offset == utf8_len(text@.take(stop_index(text@, target_column as int))),
{
    let chars = chars_of(text);
    let total = str_byte_len(text);
    let k = stop_index_of(&chars, target_column);
    proof {
        lemma_stop_index_from(chars@, target_column as int, 0);
    }
    byte_offset_of(&chars, k, total)
}

/// Number of leading characters of `chars` whose whole encodings lie within
/// the first `offset` bytes.
pub open spec fn chars_within(chars: Seq<char>, offset: int) -> nat
    decreases chars.len(),
{
    if chars.len() == 0 || utf8_width(chars[0]) > offset {
        0
    } else {
        1 + chars_within(chars.drop_first(), offset - utf8_width(chars[0]))
    }
}

/// `chars_within` counts exactly the characters that end at or before
/// `offset`.
pub proof fn lemma_chars_within(chars: Seq<char>, offset: int)
    ensures
        chars_within(chars, offset) <= chars.len(),
        utf8_len(chars.take(chars_within(chars, offset) as int)) <= offset || (chars_within(
            chars,
            offset,
        ) == 0 && offset < 0),
        chars_within(chars, offset) < chars.len() ==> utf8_len(
            chars.take(chars_within(chars, offset) + 1int),
        ) > offset,
    decreases chars.len(),
{
    let k = chars_within(chars, offset);
    if chars.len() == 0 {
        assert(chars.take(0) =~= Seq::<char>::empty());
    } else if utf8_width(chars[0]) > offset {
        assert(chars.take(0) =~= Seq::<char>::empty());
        assert(chars.take(1) =~= Seq::<char>::empty().push(chars[0]));
        lemma_utf8_len_push(Seq::<char>::empty(), chars[0]);
        assert(utf8_len(Seq::<char>::empty()) == 0);
    } else {
        let rest = chars.drop_first();
        let w = utf8_width(chars[0]);
        lemma_chars_within(rest, offset - w);
        let j = chars_within(rest, offset - w) as int;
        assert(chars.take(j + 1) =~= seq![chars[0]] + rest.take(j));
        crate::chars::lemma_utf8_len_concat(seq![chars[0]], rest.take(j));
        crate::chars::lemma_encode_utf8_single(chars[0]);
        if j < rest.len() {
            assert(chars.take(j + 2) =~= seq![chars[0]] + rest.take(j + 1));
            crate::chars::lemma_utf8_len_concat(seq![chars[0]], rest.take(j + 1));
        }
    }
}

/// Index and byte offset of the last character boundary at or before
/// `offset`.
fn boundary_before(chars: &Vec<char>, offset: usize) -> (r: (usize, usize))
    ensures
        r.0 == chars_within(chars@, offset as int),
        r.1 == utf8_len(chars@.take(r.0 as int)),
{
    let mut i: usize = 0;
    let mut pos: usize = 0;
    proof {
        assert(chars@.skip(0) =~= chars@);
        assert(chars@.take(0) =~= Seq::<char>::empty());
    }
    while i < chars.len()
        invariant
            i <= chars.len(),
            pos <= offset,
            pos == utf8_len(chars@.take(i as int)),
            chars_within(chars@, offset as int) == i + chars_within(
                chars@.skip(i as int),
                offset - pos,
            ),
        decreases chars.len() - i,
    {
        let width = char_len_utf8(chars[i]);
        if width > offset - pos {
            return (i, pos);
        }
        proof {
            lemma_utf8_len_push(chars@.take(i as int), chars@[i as int]);
            assert(chars@.take(i + 1) =~= chars@.take(i as int).push(chars@[i as int]));
            assert(chars@.skip(i as int).drop_first() =~= chars@.skip(i + 1));
        }
        pos = pos + width;
        i = i + 1;
    }
    (i, pos)
}

/// Byte offset of the last character boundary of `source` at or before
/// `offset` (the end of `source` when `offset` lies past it).
pub fn char_boundary_at_or_before(source: &str, offset: usize) -> (boundary: usize)
    ensures
        boundary == utf8_len(source@.take(chars_within(source@, offset as int) as int)),
        boundary <= offset,
{
    let chars = chars_of(source);
    let (_, pos) = boundary_before(&chars, offset);
    proof {
        lemma_chars_within(source@, offset as int);
    }
    pos
}

/// Index just past the last line feed before index `k`, or 0.
pub open spec fn line_start_index(chars: Seq<char>, k: int) -> int
    decreases k,
{
    if k <= 0 {
        0
    } else if chars[k - 1] == '\n' {
        k
    } else {
        line_start_index(chars, k - 1)
    }
}

/// Index of the first line feed at or after index `k`, or the length.
pub open spec fn newline_index_from(chars: Seq<char>, k: int) -> int
    decreases chars.len() - k,
{
    if k >= chars.len() {
        chars.len() as int
    } else if chars[k] == '\n' {
        k
    } else {
        newline_index_from(chars, k + 1)
    }
}

/// End of the line that holds index `k`: its line feed, or the carriage
/// return just before that line feed, or the end of `chars`.
pub open spec fn line_end_index(chars: Seq<char>, k: int) -> int {
    let end = newline_index_from(chars, k);
    if end > line_start_index(chars, k) && chars[end - 1] == '\r' {
        end - 1
    } else {
        end
    }
}

/// Character indices `(line start, line end, position)` of the line that
/// holds the last boundary at or before byte `offset`; the position is that
/// boundary, moved back to the line end if it lies inside a `\r\n`.
pub open spec fn line_bounds(chars: Seq<char>, offset: int) -> (int, int, int) {
    let k = chars_within(chars, offset) as int;
    let start = line_start_index(chars, k);
    let end = line_end_index(chars, k);
    (start, end, if k <= end { k } else { end })
}

proof fn lemma_line_indices(chars: Seq<char>, k: int)
    requires
        0 <= k <= chars.len(),
    ensures
        0 <= line_start_index(chars, k) <= k,
        k <= newline_index_from(chars, k) <= chars.len(),
        forall|j: int| line_start_index(chars, k) <= j < k ==> chars[j] != '\n',
        forall|j: int| k <= j < newline_index_from(chars, k) ==> chars[j] != '\n',
        line_start_index(chars, k) > 0 ==> chars[line_start_index(chars, k) - 1] == '\n',
    decreases chars.len() - k + k,
{
    lemma_line_start(chars, k);
    lemma_newline_from(chars, k);
}

proof fn lemma_line_start(chars: Seq<char>, k: int)
    requires
        0 <= k <= chars.len(),
    ensures
        0 <= line_start_index(chars, k) <= k,
        forall|j: int| line_start_index(chars, k) <= j < k ==> chars[j] != '\n',
        line_start_index(chars, k) > 0 ==> chars[line_start_index(chars, k) - 1] == '\n',
    decreases k,
{
    if k > 0 && chars[k - 1] != '\n' {
        lemma_line_start(chars, k - 1);
    }
}

proof fn lemma_newline_from(chars: Seq<char>, k: int)
    requires
        0 <= k <= chars.len(),
    ensures
        k <= newline_index_from(chars, k) <= chars.len(),
        forall|j: int| k <= j < newline_index_from(chars, k) ==> chars[j] != '\n',
        newline_index_from(chars, k) < chars.len() ==> chars[newline_index_from(chars, k)] == '\n',
    decreases chars.len() - k,
{
    if k < chars.len() && chars[k] != '\n' {
        lemma_newline_from(chars, k + 1);
    }
}

/// The three indices of `line_bounds` are ordered and within `chars`.
pub proof fn lemma_line_bounds(chars: Seq<char>, offset: int)
    ensures
        0 <= line_bounds(chars, offset).0 <= line_bounds(chars, offset).2 <= line_bounds(
            chars,
            offset,
        ).1 <= chars.len(),
{
    let k = chars_within(chars, offset) as int;
    lemma_chars_within(chars, offset);
    lemma_line_indices(chars, k);
}

/// Character indices of `line_bounds`, computed.
pub fn line_bounds_chars(chars: &Vec<char>, offset: usize) -> (r: (usize, usize, usize))
    ensures
        r.0 == line_bounds(chars@, offset as int).0,
        r.1 == line_bounds(chars@, offset as int).1,
        r.2 == line_bounds(chars@, offset as int).2,
{
    let (k, _) = boundary_before(chars, offset);
    proof {
        lemma_chars_within(chars@, offset as int);
        lemma_line_indices(chars@, k as int);
    }
    let mut start = k;
    while start > 0 && chars[start - 1] != '\n'
        invariant
            start <= k <= chars.len(),
            line_start_index(chars@, start as int) == line_start_index(chars@, k as int),
        decreases start,
    {
        start = start - 1;
    }
    let mut end = k;
    while end < chars.len() && chars[end] != '\n'
        invariant
            k <= end <= chars.len(),
            newline_index_from(chars@, end as int) == newline_index_from(chars@, k as int),
        decreases chars.len() - end,
    {
        end = end + 1;
    }
    if end > start && chars[end - 1] == '\r' {
        end = end - 1;
    }
    let position = if k <= end { k } else { end };
    (start, end, position)
}

/// Byte offsets of the `i`-th character of `chars`, computed.
fn byte_offset_of(chars: &Vec<char>, i: usize, total: usize) -> (offset: usize)
    requires
        i <= chars.len(),
        total == utf8_len(chars@),
    ensures
        offset == utf8_len(chars@.take(i as int)),
{
    let mut j: usize = 0;
    let mut offset: usize = 0;
    proof {
        assert(chars@.take(0) =~= Seq::<char>::empty());
    }
    while j < i
        invariant
            j <= i <= chars.len(),
            total == utf8_len(chars@),
            offset == utf8_len(chars@.take(j as int)),
        decreases i - j,
    {
        proof {
            lemma_utf8_len_push(chars@.take(j as int), chars@[j as int]);
            assert(chars@.take(j + 1) =~= chars@.take(j as int).push(chars@[j as int]));
            lemma_utf8_len_prefix(chars@, j + 1);
        }
        offset = offset + char_len_utf8(chars[j]);
        j = j + 1;
    }
    offset
}

/// Byte offsets `(line start, line end, position)` of the line that holds
/// `offset` (see `line_bounds`).
pub fn source_line_bounds(source: &str, offset: usize) -> (bounds: (usize, usize, usize))
    ensures
        bounds.0 == utf8_len(source@.take(line_bounds(source@, offset as int).0)),
        bounds.1 == utf8_len(source@.take(line_bounds(source@, offset as int).1)),
        bounds.2 == utf8_len(source@.take(line_bounds(source@, offset as int).2)),
{
    let chars = chars_of(source);
    let total = str_byte_len(source);
    let (start, end, position) = line_bounds_chars(&chars, offset);
    proof {
        lemma_line_bounds(chars@, offset as int);
    }
    (
        byte_offset_of(&chars, start, total),
        byte_offset_of(&chars, end, total),
        byte_offset_of(&chars, position, total),
    )
}

/// Number of line feeds in `chars`.
pub open spec fn count_newlines(chars: Seq<char>) -> nat
    decreases chars.len(),
{
    if chars.len() == 0 {
        0
    } else {
        count_newlines(chars.drop_last()) + if chars.last() == '\n' {
            1nat
        } else {
            0
        }
    }
}

pub proof fn lemma_count_newlines_push(chars: Seq<char>, c: char)
    ensures
        count_newlines(chars.push(c)) == count_newlines(chars) + if c == '\n' {
            1nat
        } else {
            0
        },
        count_newlines(chars) <= chars.len(),
    decreases chars.len(),
{
    assert(chars.push(c).drop_last() =~= chars);
    if chars.len() > 0 {
        lemma_count_newlines_push(chars.drop_last(), chars.last());
        assert(chars.drop_last().push(chars.last()) =~= chars);
    }
}

/// One-based `(line, column)` of byte `offset` in `chars`: the line counts
/// the line feeds before its line, the column counts display columns from the
/// line start to the position of `line_bounds`.
pub open spec fn location(chars: Seq<char>, offset: int) -> (int, int) {
    let (start, _, position) = line_bounds(chars, offset);
    (
        count_newlines(chars.take(start)) + 1int,
        text_width(chars.subrange(start, position), 0) + 1,
    )
}

/// The one-based line and column of `offset` fit in a `usize`.
pub open spec fn location_fits(chars: Seq<char>, offset: int) -> bool {
    let (start, _, position) = line_bounds(chars, offset);
    &&& count_newlines(chars.take(start)) < usize::MAX
    &&& end_column(chars.subrange(start, position), 0) < usize::MAX
}

/// One-based `(line, column)` of `offset` in `source` (see `location`).
pub fn source_location(source: &str, offset: usize) -> (lc: (usize, usize))
    requires
        location_fits(source@, offset as int),
    ensures
        lc.0 == location(source@, offset as int).0,
        lc.1 == location(source@, offset as int).1,
        lc.0 >= 1,
        lc.1 >= 1,
{
    let chars = chars_of(source);
    let (start, _, position) = line_bounds_chars(&chars, offset);
    proof {
        lemma_line_bounds(chars@, offset as int);
    }
    let mut line: usize = 0;
    let mut i: usize = 0;
    proof {
        assert(chars@.take(0) =~= Seq::<char>::empty());
    }
    while i < start
        invariant
            i <= start <= chars.len(),
            line == count_newlines(chars@.take(i as int)),
            count_newlines(chars@.take(start as int)) < usize::MAX,
        decreases start - i,
    {
        proof {
            lemma_count_newlines_push(chars@.take(i as int), chars@[i as int]);
            assert(chars@.take(i + 1) =~= chars@.take(i as int).push(chars@[i as int]));
            lemma_count_newlines_monotone(chars@.take(start as int), i + 1);
            assert(chars@.take(start as int).take(i + 1) =~= chars@.take(i + 1));
        }
        if chars[i] == '\n' {
            line = line + 1;
        }
        i = i + 1;
    }
    proof {
        lemma_end_column_prefix(chars@.subrange(start as int, position as int), 0, 0);
    }
    let column = columns_of(&chars, start, position, 0);
    (line + 1, column + 1)
}

proof fn lemma_count_newlines_monotone(chars: Seq<char>, i: int)
    requires
        0 <= i <= chars.len(),
    ensures
        count_newlines(chars.take(i)) <= count_newlines(chars),
    decreases chars.len(),
{
    if i < chars.len() {
        lemma_count_newlines_monotone(chars.drop_last(), i);
        assert(chars.drop_last().take(i) =~= chars.take(i));
        lemma_count_newlines_push(chars.drop_last(), chars.last());
        assert(chars.drop_last().push(chars.last()) =~= chars);
    } else {
        assert(chars.take(i) =~= chars);
    }
}

/// Index reached by stepping back from `k` over white space.
pub open spec fn skip_white_space_back(chars: Seq<char>, k: int) -> int
    decreases k,
{
    if k <= 0 {
        0
    } else if is_white_space(chars[k - 1]) {
        skip_white_space_back(chars, k - 1)
    } else {
        k
    }
}

/// Where a missing comma belongs: from the last boundary at or before
/// `offset` (the start of the next field), back over the white space that
/// precedes it, to just after the previous field's value.
pub fn missing_comma_offset(source: &str, offset: usize) -> (comma: usize)
    ensures
        comma == utf8_len(
            source@.take(skip_white_space_back(source@, chars_within(source@, offset as int) as int)),
        ),
{
    let chars = chars_of(source);
    let total = str_byte_len(source);
    let (k, _) = boundary_before(&chars, offset);
    proof {
        lemma_chars_within(chars@, offset as int);
    }
    let mut i = k;
    while i > 0 && is_whitespace(chars[i - 1])
        invariant
            i <= k <= chars.len(),
            skip_white_space_back(chars@, i as int) == skip_white_space_back(chars@, k as int),
        decreases i,
    {
        i = i - 1;
    }
    byte_offset_of(&chars, i, total)
}

/// Laying out `x + y` is laying out `x`, then `y` from where `x` ended.
pub proof fn lemma_end_column_concat(x: Seq<char>, y: Seq<char>, start: int)
    ensures
        end_column(x + y, start) == end_column(y, end_column(x, start)),
    decreases y.len(),
{
    if y.len() == 0 {
        assert(x + y =~= x);
    } else {
        assert((x + y).drop_last() =~= x + y.drop_last());
        lemma_end_column_concat(x, y.drop_last(), start);
    }
}

/// A farther target never stops the walk earlier.
pub proof fn lemma_stop_index_monotone(chars: Seq<char>, t1: int, t2: int)
    requires
        t1 <= t2,
    ensures
        stop_index(chars, t1) <= stop_index(chars, t2),
{
    lemma_stop_index_from(chars, t1, 0);
    lemma_stop_index_from(chars, t2, 0);
    let s2 = stop_index(chars, t2);
    if s2 < chars.len() {
        assert(stops_at(chars, t1, s2));
    }
}

/// The walk towards a target at or before the column of index `p` stops at
/// or before `p`.
pub proof fn lemma_stop_index_before(chars: Seq<char>, target: int, p: int)
    requires
        0 <= p <= chars.len(),
        end_column(chars.take(p), 0) >= target,
    ensures
        stop_index(chars, target) <= p,
{
    lemma_stop_index_from(chars, target, 0);
    if p < chars.len() {
        assert(stops_at(chars, target, p));
    }
}

/// Three dots, marking a truncated side of an excerpt.
pub open spec fn ellipsis() -> Seq<char> {
    seq!['.', '.', '.']
}

/// The excerpt of `line` shown in a diagnostic, and the display column of
/// character `p` within it. A line of at most `2 * CONTEXT_RADIUS` columns is
/// shown whole; a longer one is cut to `CONTEXT_RADIUS` columns on either
/// side of the position, with `...` on each side that was cut. Tabs are
/// expanded at the columns they have in the whole line.
pub open spec fn context_window(line: Seq<char>, p: int) -> (Seq<char>, int) {
    let marker = text_width(line.take(p), 0);
    let full = text_width(line, 0);
    let radius = CONTEXT_RADIUS as int;
    if full <= 2 * radius {
        (expand_tabs_spec(line, 0), marker)
    } else {
        let window_start = if marker >= radius {
            marker - radius
        } else {
            0
        };
        let window_end = if marker + radius <= full {
            marker + radius
        } else {
            full
        };
        let a = stop_index(line, window_start);
        let b = stop_index(line, window_end);
        let absolute_start = end_column(line.take(a), 0);
        let left = if a > 0 {
            ellipsis()
        } else {
            Seq::<char>::empty()
        };
        let right = if b < line.len() {
            ellipsis()
        } else {
            Seq::<char>::empty()
        };
        (
            left + expand_tabs_spec(line.subrange(a, b), absolute_start) + right,
            (if a > 0 {
                3int
            } else {
                0
            }) + text_width(line.subrange(a, p), absolute_start),
        )
    }
}

/// The diagnostic excerpt for byte `offset` of `chars`, labelled with line
/// number `line`: two spaces, the number, ` | `, and the excerpt of the
/// position's line (see `context_window`) with `^` inserted before the
/// character at the marked column.
pub open spec fn source_context_spec(chars: Seq<char>, offset: int, line: nat) -> Seq<char> {
    let (start, end, position) = line_bounds(chars, offset);
    let (snippet, marker) = context_window(chars.subrange(start, end), position - start);
    let m = stop_index(snippet, marker);
    seq![' ', ' '] + decimal(line) + seq![' ', '|', ' '] + snippet.take(m) + seq!['^'] + snippet.skip(
        m,
    )
}

/// The line holding `offset` is narrow enough for the columns of its excerpt
/// to fit in a `usize`.
pub open spec fn context_fits(chars: Seq<char>, offset: int) -> bool {
    let (start, end, _) = line_bounds(chars, offset);
    end_column(chars.subrange(start, end), 0) + CONTEXT_RADIUS <= usize::MAX
}

/// The excerpt of `line` and the column of its character `p` (see
/// `context_window`), computed.
#[verifier::spinoff_prover]
#[verifier::rlimit(40)]
fn context_window_of(line: &Vec<char>, p: usize) -> (r: (Vec<char>, usize))
    requires
        p <= line.len(),
        end_column(line@, 0) + CONTEXT_RADIUS <= usize::MAX,
    ensures
        r.0@ == context_window(line@, p as int).0,
        r.1 == context_window(line@, p as int).1,
{
    let ghost l = line@;
    proof {
        assert(l.subrange(0, l.len() as int) =~= l);
        assert(l.subrange(0, p as int) =~= l.take(p as int));
        lemma_end_column_prefix(l, p as int, 0);
        lemma_end_column_prefix(l, 0, 0);
    }
    let marker_column = columns_of(line, 0, p, 0);
    let full_width = columns_of(line, 0, line.len(), 0);
    if full_width <= CONTEXT_RADIUS * 2 {
        return (expand_range(line, 0, line.len(), 0), marker_column);
    }
    let window_start = if marker_column >= CONTEXT_RADIUS {
        marker_column - CONTEXT_RADIUS
    } else {
        0
    };
    let window_end = if marker_column + CONTEXT_RADIUS <= full_width {
        marker_column + CONTEXT_RADIUS
    } else {
        full_width
    };
    let a = stop_index_of(line, window_start);
    let b = stop_index_of(line, window_end);
    proof {
        lemma_stop_index_from(l, window_start as int, 0);
        lemma_stop_index_from(l, window_end as int, 0);
        lemma_stop_index_monotone(l, window_start as int, window_end as int);
        lemma_stop_index_before(l, window_start as int, p as int);
        lemma_end_column_prefix(l, a as int, 0);
        lemma_end_column_prefix(l, b as int, 0);
        assert(l.subrange(0, a as int) =~= l.take(a as int));
        assert(l.take(b as int) =~= l.take(a as int) + l.subrange(a as int, b as int));
        lemma_end_column_concat(l.take(a as int), l.subrange(a as int, b as int), 0);
        assert(l.take(p as int) =~= l.take(a as int) + l.subrange(a as int, p as int));
        lemma_end_column_concat(l.take(a as int), l.subrange(a as int, p as int), 0);
        lemma_end_column_prefix(
            l.subrange(a as int, p as int),
            0,
            end_column(l.take(a as int), 0),
        );
        assert(l.subrange(a as int, p as int).take(0) =~= Seq::<char>::empty());
    }
    let absolute_start_column = columns_of(line, 0, a, 0);
    let mut out: Vec<char> = Vec::new();
    if a > 0 {
        out.push('.');
        out.push('.');
        out.push('.');
    }
    let ghost left = out@;
    let middle = expand_range(line, a, b, absolute_start_column);
    append_chars(&mut out, &middle);
    let ghost with_middle = out@;
    if b < line.len() {
        out.push('.');
        out.push('.');
        out.push('.');
    }
    let shift: usize = if a > 0 {
        3
    } else {
        0
    };
    let reached = columns_of(line, a, p, absolute_start_column);
    proof {
        let lft = if a > 0 {
            ellipsis()
        } else {
            Seq::<char>::empty()
        };
        let rgt = if b < l.len() {
            ellipsis()
        } else {
            Seq::<char>::empty()
        };
        assert(left =~= lft);
        assert(out@ =~= with_middle + rgt);
        assert(out@ =~= lft + expand_tabs_spec(
            l.subrange(a as int, b as int),
            absolute_start_column as int,
        ) + rgt);
    }
    (out, shift + (reached - absolute_start_column))
}

/// One line of `source` around `offset`, with a caret at the position and a
/// `line` label (see `source_context_spec`).
pub fn source_context(source: &str, offset: usize, line: usize) -> (context: String)
    requires
        context_fits(source@, offset as int),
    ensures
        context@ == source_context_spec(source@, offset as int, line as nat),
{
    let chars = chars_of(source);
    let (start, end, position) = line_bounds_chars(&chars, offset);
    proof {
        lemma_line_bounds(chars@, offset as int);
    }
    let line_chars = sub_chars(&chars, start, end);
    let (snippet, marker) = context_window_of(&line_chars, position - start);
    let m = stop_index_of(&snippet, marker);
    proof {
        lemma_stop_index_from(snippet@, marker as int, 0);
    }
    let mut result: Vec<char> = Vec::new();
    result.push(' ');
    result.push(' ');
    let label = decimal_chars(line);
    append_chars(&mut result, &label);
    result.push(' ');
    result.push('|');
    result.push(' ');
    let before = sub_chars(&snippet, 0, m);
    append_chars(&mut result, &before);
    result.push('^');
    let after = sub_chars(&snippet, m, snippet.len());
    append_chars(&mut result, &after);
    proof {
        assert(snippet@.subrange(0, m as int) =~= snippet@.take(m as int));
        assert(snippet@.subrange(m as int, snippet@.len() as int) =~= snippet@.skip(m as int));
        assert(result@ =~= source_context_spec(chars@, offset as int, line as nat));
    }
    string_from_chars(&result)
}

/// The column reached after laying out `chars[from..to]` from column 0, if
/// it fits in a `usize`.
pub fn checked_end_column(chars: &Vec<char>, from: usize, to: usize) -> (column: Option<usize>)
    requires
        from <= to <= chars.len(),
    ensures
        match column {
            Some(c) => c == end_column(chars@.subrange(from as int, to as int), 0),
            None => end_column(chars@.subrange(from as int, to as int), 0) > usize::MAX,
        },
{
    let ghost piece = chars@.subrange(from as int, to as int);
    let mut column: usize = 0;
    let mut i: usize = from;
    proof {
        assert(piece.take(0) =~= Seq::<char>::empty());
    }
    while i < to
        invariant
            from <= i <= to <= chars.len(),
            piece == chars@.subrange(from as int, to as int),
            column == end_column(piece.take(i - from), 0),
        decreases to - i,
    {
        proof {
            lemma_end_column_push(piece.take(i - from), piece[i - from], 0);
            assert(piece.take(i - from + 1) =~= piece.take(i - from).push(piece[i - from]));
            lemma_end_column_prefix(piece, i - from + 1, 0);
        }
        match column.checked_add(char_display_width(chars[i], column)) {
            Some(next) => {
                column = next;
            },
            None => {
                return None;
            },
        }
        i = i + 1;
    }
    proof {
        assert(piece.take(i - from) =~= piece);
    }
    Some(column)
}

} // verus!
