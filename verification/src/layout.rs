//! Cell arithmetic behind the editor canvas: which buffer line and visual
//! row a position falls on, and which columns of a visual row a
//! selection, a find match, a diagnostic or the caret covers.
use vstd::prelude::*;
use crate::status::{CursorPos, EditorDiagnostic};
use crate::text::{
    byte_len, byte_offset, byte_to_char, char_to_byte, decimal, dec_str, is_boundary, lemma_char_byte_round_trip,
    lemma_offset_strict, utf8_len,
};
use crate::wrap::{
    lemma_starts_bounded, lemma_wrap_rows_fit, lemma_wrap_starts_on_boundaries, wrap_byte_starts, wrap_char_starts,
    wrap_row_starts,
};

verus! {

/// `s` never decreases.
pub open spec fn sorted_usize(s: Seq<usize>) -> bool {
    forall|i: int, j: int| 0 <= i <= j < s.len() ==> s[i] <= s[j]
}

/// `s` never decreases.
pub open spec fn sorted_u32(s: Seq<u32>) -> bool {
    forall|i: int, j: int| 0 <= i <= j < s.len() ==> s[i] <= s[j]
}

/// `p` splits `s` into the entries `<= x` and those after.
pub open spec fn is_partition_usize(s: Seq<usize>, x: int, p: int) -> bool {
    &&& 0 <= p <= s.len()
    &&& forall|i: int| 0 <= i < p ==> s[i] <= x
    &&& forall|i: int| p <= i < s.len() ==> s[i] > x
}

/// `p` splits `s` into the entries `<= x` and those after.
pub open spec fn is_partition_u32(s: Seq<u32>, x: int, p: int) -> bool {
    &&& 0 <= p <= s.len()
    &&& forall|i: int| 0 <= i < p ==> s[i] <= x
    &&& forall|i: int| p <= i < s.len() ==> s[i] > x
}

/// Index of the visual row (among a line's `row_starts`, byte offsets)
/// holding the byte `col_byte`: the last row starting at or before it.
pub fn row_of_byte(row_starts: &[usize], col_byte: usize) -> (r: usize)
    requires
        row_starts@.len() >= 1,
        sorted_usize(row_starts@),
    ensures
        exists|p: int|
            is_partition_usize(row_starts@, col_byte as int, p) && r == (if p == 0 {
                0
            } else {
                p - 1
            }),
        r < row_starts@.len(),
{
    let n = row_starts.len();
    let mut p: usize = 0;
    while p < n && row_starts[p] <= col_byte
        invariant
            n == row_starts@.len(),
            p <= n,
            forall|i: int| 0 <= i < p ==> row_starts@[i] <= col_byte,
        decreases n - p,
    {
        p = p + 1;
    }
    proof {
        assert(is_partition_usize(row_starts@, col_byte as int, p as int));
    }
    if p == 0 {
        0
    } else {
        p - 1
    }
}

/// The buffer line holding visual row `row`, given the cumulative row
/// offsets of the lines (`wrap_row_offsets`): the last line starting at or
/// before it, within `0..total_lines`.
pub fn line_at_row(offsets: &[u32], row: u32, total_lines: usize) -> (line: usize)
    requires
        total_lines >= 1,
        sorted_u32(offsets@),
    ensures
        exists|p: int|
            is_partition_u32(offsets@, row as int, p) && line == ({
                let q = if p == 0 { 0 } else { p - 1 };
                if q <= total_lines - 1 { q } else { total_lines - 1 }
            }),
{
    let n = offsets.len();
    let mut p: usize = 0;
    while p < n && offsets[p] <= row
        invariant
            n == offsets@.len(),
            p <= n,
            forall|i: int| 0 <= i < p ==> offsets@[i] <= row,
        decreases n - p,
    {
        p = p + 1;
    }
    proof {
        assert(is_partition_u32(offsets@, row as int, p as int));
    }
    let q = if p == 0 { 0 } else { p - 1 };
    if q <= total_lines - 1 {
        q
    } else {
        total_lines - 1
    }
}

/// `p` splits `s` into the entries `< x` and those after.
pub open spec fn is_strict_partition_u32(s: Seq<u32>, x: int, p: int) -> bool {
    &&& 0 <= p <= s.len()
    &&& forall|i: int| 0 <= i < p ==> s[i] < x
    &&& forall|i: int| p <= i < s.len() ==> s[i] >= x
}

/// The buffer lines `[first, last)` to draw for the visual rows
/// `[first_row, last_row)`. Unwrapped, rows are lines; wrapped, `first`
/// is the line holding `first_row` (clamped to the document) and `last`
/// the first line starting at or past `last_row` (at most `total_lines`,
/// never before `first`).
pub fn visible_lines(word_wrap: bool, offsets: &[u32], first_row: usize, last_row: usize, total_lines: usize) -> (r: (
    usize,
    usize,
))
    requires
        word_wrap ==> sorted_u32(offsets@),
    ensures
        !word_wrap ==> r == (first_row, last_row),
        word_wrap ==> exists|p: int, q: int|
            is_partition_u32(offsets@, first_row as int, p) && is_strict_partition_u32(
                offsets@,
                last_row as int,
                q,
            ) && ({
                let f0 = if p == 0 { 0 } else { p - 1 };
                let cap = if total_lines == 0 { 0 } else { total_lines - 1 };
                let first = if f0 <= cap { f0 } else { cap };
                let l0 = if q <= total_lines { q } else { total_lines as int };
                r.0 == first && r.1 == (if l0 >= first { l0 } else { first })
            }),
{
    if !word_wrap {
        return (first_row, last_row);
    }
    let n = offsets.len();
    let mut p: usize = 0;
    while p < n && (offsets[p] as usize) <= first_row
        invariant
            n == offsets@.len(),
            p <= n,
            forall|i: int| 0 <= i < p ==> offsets@[i] <= first_row,
        decreases n - p,
    {
        p = p + 1;
    }
    let mut q: usize = 0;
    while q < n && (offsets[q] as usize) < last_row
        invariant
            n == offsets@.len(),
            q <= n,
            forall|i: int| 0 <= i < q ==> offsets@[i] < last_row,
        decreases n - q,
    {
        q = q + 1;
    }
    proof {
        assert(is_partition_u32(offsets@, first_row as int, p as int));
        assert(is_strict_partition_u32(offsets@, last_row as int, q as int));
    }
    let f0 = if p == 0 { 0 } else { p - 1 };
    let cap = if total_lines == 0 { 0 } else { total_lines - 1 };
    let first = if f0 <= cap { f0 } else { cap };
    let l0 = if q <= total_lines { q } else { total_lines };
    (first, if l0 >= first { l0 } else { first })
}

/// The columns `[start, end)` of a diagnostic spanning `start..end` that
/// fall on `line` (the whole rest of the line when the diagnostic goes
/// on, at least one column), clipped to the visual row
/// `[row_start, row_end)`; `None` when nothing of it shows on that row.
pub open spec fn spec_diagnostic_cols(
    start: CursorPos,
    end: CursorPos,
    line: usize,
    line_len: usize,
    row_start: usize,
    row_end: usize,
) -> Option<(int, int)> {
    if start.line > line || end.line < line {
        None
    } else {
        let s: int = if start.line == line { start.col as int } else { 0 };
        let e: int = if end.line == line {
            if end.col >= s + 1 { end.col as int } else { s + 1 }
        } else {
            if line_len >= s + 1 { line_len as int } else { s + 1 }
        };
        let a = if s >= row_start { s } else { row_start as int };
        let b = if e <= row_end { e } else { row_end as int };
        if a < b {
            Some((a, b))
        } else {
            None
        }
    }
}

/// The columns of `line`'s visual row `[row_start, row_end)` a diagnostic
/// underlines.
pub fn diagnostic_cols(
    start: CursorPos,
    end: CursorPos,
    line: usize,
    line_len: usize,
    row_start: usize,
    row_end: usize,
) -> (r: Option<(usize, usize)>)
    requires
        start.col < usize::MAX,
    ensures
        match r {
            Some((a, b)) => spec_diagnostic_cols(start, end, line, line_len, row_start, row_end)
                == Some((a as int, b as int)),
            None => spec_diagnostic_cols(start, end, line, line_len, row_start, row_end) is None,
        },
{
    if start.line > line || end.line < line {
        return None;
    }
    let s = if start.line == line { start.col } else { 0 };
    let e = if end.line == line {
        if end.col >= s + 1 { end.col } else { s + 1 }
    } else {
        if line_len >= s + 1 { line_len } else { s + 1 }
    };
    let a = if s >= row_start { s } else { row_start };
    let b = if e <= row_end { e } else { row_end };
    if a < b {
        Some((a, b))
    } else {
        None
    }
}

/// Whether the caret at column `col` of the cursor line is drawn on the
/// visual row `[row_start, row_end)`: inside it, or at its very end on
/// the line's last row.
pub fn cursor_in_row(
    is_cursor_line: bool,
    col: usize,
    row_start: usize,
    row_end: usize,
    row_is_last: bool,
) -> (b: bool)
    ensures
        b == (is_cursor_line && col >= row_start && (col < row_end || (row_is_last && col
            <= row_end))),
{
    is_cursor_line && col >= row_start && (col < row_end || (row_is_last && col <= row_end))
}

/// The columns, relative to the row start, a selection `[start, end)` of
/// document char indices covers on a visual row starting at index
/// `row_start`, ending (for selection purposes) at `row_selectable_end`,
/// and `row_width` columns wide (one more on a line's last row, for the
/// line terminator); `None` when it misses the row.
pub open spec fn spec_selection_cols(
    selection: Option<(usize, usize)>,
    row_start: usize,
    row_selectable_end: usize,
    row_width: usize,
    row_is_last: bool,
) -> Option<(int, int)> {
    match selection {
        Some((start, end)) => if start < row_selectable_end && end > row_start {
            let s = if start >= row_start { start - row_start } else { 0 };
            let limit = row_width + if row_is_last { 1int } else { 0 };
            let e0 = if end >= row_start { end - row_start } else { 0 };
            Some((s, if e0 <= limit { e0 } else { limit }))
        } else {
            None
        },
        None => None,
    }
}

/// A selection's columns on one visual row.
pub fn selection_cols(
    selection: Option<(usize, usize)>,
    row_start: usize,
    row_selectable_end: usize,
    row_width: usize,
    row_is_last: bool,
) -> (r: Option<(usize, usize)>)
    requires
        row_width < usize::MAX,
    ensures
        match r {
            Some((a, b)) => spec_selection_cols(
                selection,
                row_start,
                row_selectable_end,
                row_width,
                row_is_last,
            ) == Some((a as int, b as int)),
            None => spec_selection_cols(
                selection,
                row_start,
                row_selectable_end,
                row_width,
                row_is_last,
            ) is None,
        },
{
    match selection {
        Some((start, end)) => {
            if start < row_selectable_end && end > row_start {
                let s = start.saturating_sub(row_start);
                let limit = row_width + if row_is_last { 1 } else { 0 };
                let e0 = end.saturating_sub(row_start);
                Some((s, if e0 <= limit { e0 } else { limit }))
            } else {
                None
            }
        },
        None => None,
    }
}

/// The columns, relative to the row start, a find match `[start, end)`
/// covers on the visual row `[row_start, row_end)` of `row_width`
/// columns; `None` when it misses the row.
pub open spec fn spec_match_cols(start: usize, end: usize, row_start: usize, row_end: usize, row_width: usize) -> Option<
    (int, int),
> {
    if start >= row_end || end <= row_start {
        None
    } else {
        let s = if start >= row_start { start - row_start } else { 0 };
        let e0 = if end >= row_start { end - row_start } else { 0 };
        Some((s, if e0 <= row_width { e0 } else { row_width as int }))
    }
}

/// A find match's columns on one visual row.
pub fn match_cols(start: usize, end: usize, row_start: usize, row_end: usize, row_width: usize) -> (r: Option<
    (usize, usize),
>)
    ensures
        match r {
            Some((a, b)) => spec_match_cols(start, end, row_start, row_end, row_width) == Some(
                (a as int, b as int),
            ),
            None => spec_match_cols(start, end, row_start, row_end, row_width) is None,
        },
{
    if start >= row_end || end <= row_start {
        return None;
    }
    let s = start.saturating_sub(row_start);
    let e0 = end.saturating_sub(row_start);
    Some((s, if e0 <= row_width { e0 } else { row_width }))
}

/// Rows drawn beyond each edge of the viewport, so a small scroll never
/// shows an undrawn strip.
pub const OVERSCAN_ROWS: usize = 8;

/// The visual rows `[first, last)` drawn for a viewport whose first
/// visible row is `first_onscreen` and which shows `onscreen` rows: the
/// visible ones plus the overscan on both sides, within the document's
/// `total_rows`.
pub fn drawn_rows(first_onscreen: usize, onscreen: usize, total_rows: usize) -> (r: (usize, usize))
    requires
        first_onscreen + onscreen + OVERSCAN_ROWS <= usize::MAX,
    ensures
        r.0 == (if first_onscreen >= OVERSCAN_ROWS { first_onscreen - OVERSCAN_ROWS } else { 0 }),
        r.1 == (if first_onscreen + onscreen + OVERSCAN_ROWS <= total_rows {
            first_onscreen + onscreen + OVERSCAN_ROWS
        } else {
            total_rows as int
        }),
{
    let first = first_onscreen.saturating_sub(OVERSCAN_ROWS);
    let reach = first_onscreen + onscreen + OVERSCAN_ROWS;
    (first, if reach <= total_rows { reach } else { total_rows })
}

/// Skips, from index `from` on, the highlight spans (document byte ranges
/// `[start, end)`) that end at or before `byte`: the index of the first
/// span that still reaches past it, or the number of spans.
pub fn skip_spans_ending_by(spans: &[(usize, usize)], from: usize, byte: usize) -> (c: usize)
    requires
        from <= spans@.len(),
    ensures
        from <= c <= spans@.len(),
        forall|i: int| from <= i < c ==> (#[trigger] spans@[i]).1 <= byte,
        c < spans@.len() ==> spans@[c as int].1 > byte,
{
    let n = spans.len();
    let mut c = from;
    while c < n && spans[c].1 <= byte
        invariant
            n == spans@.len(),
            from <= c <= n,
            forall|i: int| from <= i < c ==> (#[trigger] spans@[i]).1 <= byte,
        decreases n - c,
    {
        c = c + 1;
    }
    c
}

/// The part of span `sp` that falls on the visual row `[row_start,
/// row_end)` (document bytes), as bytes from the line start `line_start`;
/// `None` when the span misses the row.
pub open spec fn span_on_row(sp: (usize, usize), row_start: usize, row_end: usize, line_start: usize) -> Option<
    (int, int),
> {
    let a = if sp.0 >= row_start { sp.0 } else { row_start };
    let b = if sp.1 <= row_end { sp.1 } else { row_end };
    if a < b {
        Some((a - line_start, b - line_start))
    } else {
        None
    }
}

/// The coloured segments of a visual row, walking the spans from index
/// `idx` until one starts at or past the row's end: each as the span's
/// index and its clipped byte range from the line start.
pub open spec fn row_segments_from(
    spans: Seq<(usize, usize)>,
    idx: int,
    row_start: usize,
    row_end: usize,
    line_start: usize,
) -> Seq<(int, int, int)>
    decreases spans.len() - idx,
{
    if idx < 0 || idx >= spans.len() || spans[idx].0 >= row_end {
        seq![]
    } else {
        let head = match span_on_row(spans[idx], row_start, row_end, line_start) {
            Some((a, b)) => seq![(idx, a, b)],
            None => seq![],
        };
        head + row_segments_from(spans, idx + 1, row_start, row_end, line_start)
    }
}

/// The segments of the visual row `[row_start, row_end)` that highlight
/// spans colour, starting the walk at span `from`.
pub fn row_segments(spans: &[(usize, usize)], from: usize, row_start: usize, row_end: usize, line_start: usize) -> (segs:
    Vec<(usize, usize, usize)>)
    requires
        line_start <= row_start,
    ensures
        segs@.map_values(|t: (usize, usize, usize)| (t.0 as int, t.1 as int, t.2 as int)) == row_segments_from(
            spans@,
            from as int,
            row_start,
            row_end,
            line_start,
        ),
{
    let n = spans.len();
    let mut out: Vec<(usize, usize, usize)> = Vec::new();
    let mut idx = from;
    while idx < n && spans[idx].0 < row_end
        invariant
            n == spans@.len(),
            line_start <= row_start,
            from <= idx,
            idx <= n || idx == from,
            row_segments_from(spans@, from as int, row_start, row_end, line_start) == out@.map_values(
                |t: (usize, usize, usize)| (t.0 as int, t.1 as int, t.2 as int),
            ) + row_segments_from(spans@, idx as int, row_start, row_end, line_start),
        decreases n - idx,
    {
        let sp = spans[idx];
        let a = if sp.0 >= row_start { sp.0 } else { row_start };
        let b = if sp.1 <= row_end { sp.1 } else { row_end };
        let ghost before = out@.map_values(|t: (usize, usize, usize)| (t.0 as int, t.1 as int, t.2 as int));
        if a < b {
            out.push((idx, a - line_start, b - line_start));
        }
        proof {
            let head: Seq<(int, int, int)> = match span_on_row(spans@[idx as int], row_start, row_end, line_start) {
                Some((x, y)) => seq![(idx as int, x, y)],
                None => seq![],
            };
            assert(out@.map_values(|t: (usize, usize, usize)| (t.0 as int, t.1 as int, t.2 as int)) =~= before
                + head);
            assert(row_segments_from(spans@, idx as int, row_start, row_end, line_start) == head
                + row_segments_from(spans@, idx + 1, row_start, row_end, line_start));
            assert(before + head + row_segments_from(spans@, idx + 1, row_start, row_end, line_start) =~= before + (
            head + row_segments_from(spans@, idx + 1, row_start, row_end, line_start)));
        }
        idx = idx + 1;
    }
    proof {
        assert(row_segments_from(spans@, idx as int, row_start, row_end, line_start) =~= Seq::<(int, int, int)>::empty());
        assert(out@.map_values(|t: (usize, usize, usize)| (t.0 as int, t.1 as int, t.2 as int)) + Seq::<
            (int, int, int),
        >::empty() =~= out@.map_values(|t: (usize, usize, usize)| (t.0 as int, t.1 as int, t.2 as int)));
    }
    out
}

/// `d` reaches over `line`: it starts on or before it and ends on or
/// after it.
pub open spec fn spans_line(d: EditorDiagnostic, line: usize) -> bool {
    d.start.line <= line && line <= d.end.line
}

/// The diagnostic whose inline `// message` lens shows on a visual row of
/// `line`: the first of `diags` that reaches over the line, and only on
/// the line's last visual row with lenses enabled.
pub fn lens_diagnostic(diags: &[EditorDiagnostic], line: usize, row_is_last: bool, lens_enabled: bool) -> (r: Option<
    usize,
>)
    ensures
        match r {
            Some(i) => {
                &&& row_is_last && lens_enabled
                &&& i < diags@.len()
                &&& spans_line(diags@[i as int], line)
                &&& forall|j: int| 0 <= j < i ==> !spans_line(#[trigger] diags@[j], line)
            },
            None => !(row_is_last && lens_enabled) || forall|j: int|
                0 <= j < diags@.len() ==> !spans_line(#[trigger] diags@[j], line),
        },
{
    if !(row_is_last && lens_enabled) {
        return None;
    }
    let n = diags.len();
    let mut i: usize = 0;
    while i < n
        invariant
            n == diags@.len(),
            i <= n,
            row_is_last && lens_enabled,
            forall|j: int| 0 <= j < i ==> !spans_line(#[trigger] diags@[j], line),
        decreases n - i,
    {
        if diags[i].start.line <= line && line <= diags[i].end.line {
            return Some(i);
        }
        i = i + 1;
    }
    None
}

/// The text of a diagnostic's inline lens.
pub fn lens_text(message: &str) -> (s: String)
    ensures
        s@ == "// "@ + message@,
{
    let mut s = "// ".to_owned();
    s.append(message);
    s
}

/// The column a lens starts at: three past the end of the row's text.
pub fn lens_col(row_start: usize, row_end: usize) -> (c: usize)
    requires
        row_start <= row_end,
        row_end - row_start + 3 <= usize::MAX,
    ensures
        c == row_end - row_start + 3,
{
    row_end - row_start + 3
}

/// What the gutter shows on a visual row of `line`: nothing past the
/// line's first row; on it, `"Revert"` while that line's revert prompt is
/// armed (line numbers shown or not), else the 1-based line number when
/// line numbers are on.
pub open spec fn spec_gutter_label(line: usize, row_in_line: usize, pending_revert_line: Option<usize>, show_line_numbers: bool) -> Option<
    Seq<char>,
> {
    if row_in_line != 0 {
        None
    } else if pending_revert_line == Some(line) {
        Some("Revert"@)
    } else if show_line_numbers {
        Some(dec_str((line + 1) as nat))
    } else {
        None
    }
}

/// The gutter's label for a visual row.
pub fn gutter_label(line: usize, row_in_line: usize, pending_revert_line: Option<usize>, show_line_numbers: bool) -> (s:
    Option<String>)
    requires
        line < usize::MAX,
    ensures
        match s {
            Some(t) => spec_gutter_label(line, row_in_line, pending_revert_line, show_line_numbers) == Some(t@),
            None => spec_gutter_label(line, row_in_line, pending_revert_line, show_line_numbers) is None,
        },
{
    if row_in_line != 0 {
        None
    } else if pending_revert_line == Some(line) {
        Some("Revert".to_owned())
    } else if show_line_numbers {
        Some(decimal((line + 1) as u128))
    } else {
        None
    }
}

/// Facts about the row starts of `text` that the row lookups rely on:
/// there is one, they increase, each is a char boundary, and each is the
/// byte offset of the matching char start.
proof fn lemma_row_starts_usable(text: Seq<char>, wrap_cols: usize)
    requires
        utf8_len(text) <= usize::MAX,
    ensures
        wrap_byte_starts(text, wrap_cols).len() >= 1,
        wrap_byte_starts(text, wrap_cols).len() == wrap_char_starts(text, wrap_cols).len(),
        sorted_usize(wrap_byte_starts(text, wrap_cols)),
        forall|j: int|
            0 <= j < wrap_byte_starts(text, wrap_cols).len() ==> is_boundary(
                text,
                #[trigger] wrap_byte_starts(text, wrap_cols)[j] as int,
            ),
        forall|j: int|
            0 <= j < wrap_char_starts(text, wrap_cols).len() ==> 0 <= #[trigger] wrap_char_starts(text, wrap_cols)[j]
                <= text.len() && wrap_byte_starts(text, wrap_cols)[j] as int == byte_offset(
                text,
                wrap_char_starts(text, wrap_cols)[j],
            ),
{
    lemma_wrap_rows_fit(text, wrap_cols);
    lemma_wrap_starts_on_boundaries(text, wrap_cols);
    let cs = wrap_char_starts(text, wrap_cols);
    assert(text.take(text.len() as int) =~= text);
    assert forall|j: int| 0 <= j < cs.len() implies 0 <= #[trigger] cs[j] <= text.len()
        && wrap_byte_starts(text, wrap_cols)[j] as int == byte_offset(text, cs[j]) by {
        lemma_starts_bounded(text, wrap_cols, j);
        if cs[j] < text.len() {
            lemma_offset_strict(text, cs[j], text.len() as int);
        }
    }
}

/// The char index whose byte offset is `b`, for a row start `b`.
proof fn lemma_start_char(text: Seq<char>, wrap_cols: usize, j: int, k: int)
    requires
        utf8_len(text) <= usize::MAX,
        0 <= j < wrap_char_starts(text, wrap_cols).len(),
        0 <= k <= text.len(),
        wrap_byte_starts(text, wrap_cols)[j] >= utf8_len(text) ==> k == text.len(),
        wrap_byte_starts(text, wrap_cols)[j] < utf8_len(text) ==> byte_offset(text, k)
            == wrap_byte_starts(text, wrap_cols)[j],
    ensures
        k == wrap_char_starts(text, wrap_cols)[j],
{
    lemma_row_starts_usable(text, wrap_cols);
    let c = wrap_char_starts(text, wrap_cols)[j];
    lemma_char_byte_round_trip(text, c, k);
}

/// The byte offset of char column `col` of `text`, the end of the text
/// for a column past it.
pub open spec fn col_byte_of(text: Seq<char>, col: int) -> int {
    if col <= text.len() {
        byte_offset(text, col) as int
    } else {
        utf8_len(text) as int
    }
}

/// The visual row (within its line) that char column `col` falls on and
/// the char column that row starts at: the last row starting at or before
/// the column, a column past the line's end counting as its end.
pub fn wrapped_row_of(text: &str, wrap_cols: usize, col: usize) -> (r: (usize, usize))
    ensures
        r.0 < wrap_byte_starts(text@, wrap_cols).len(),
        exists|p: int|
            is_partition_usize(wrap_byte_starts(text@, wrap_cols), col_byte_of(text@, col as int), p) && r.0 == (if p
                == 0 {
                0
            } else {
                p - 1
            }),
        r.1 == wrap_char_starts(text@, wrap_cols)[r.0 as int],
{
    let _total = byte_len(text);
    proof {
        lemma_row_starts_usable(text@, wrap_cols);
    }
    let col_byte = char_to_byte(text, col);
    let row_starts = wrap_row_starts(text, wrap_cols);
    let row_in_line = row_of_byte(row_starts.as_slice(), col_byte);
    proof {
        assert(is_boundary(text@, row_starts@[row_in_line as int] as int));
    }
    let start = byte_to_char(text, row_starts[row_in_line]);
    proof {
        lemma_start_char(text@, wrap_cols, row_in_line as int, start as int);
        let bs = wrap_byte_starts(text@, wrap_cols);
        let cb = col_byte_of(text@, col as int);
        assert(col_byte as int == cb);
        assert(row_starts@ == bs);
        let p = choose|p: int|
            is_partition_usize(row_starts@, col_byte as int, p) && row_in_line == (if p == 0 { 0 } else { p - 1 });
        assert(is_partition_usize(bs, cb, p));
    }
    (row_in_line, start)
}

/// The line text `lines[i]`, empty past the last line.
pub open spec fn line_text(lines: Seq<String>, i: int) -> Seq<char> {
    if 0 <= i < lines.len() {
        lines[i]@
    } else {
        seq![]
    }
}

/// The row offset of line `i`, zero past the end of `offsets`.
pub open spec fn row_base(offsets: Seq<u32>, i: int) -> int {
    if 0 <= i < offsets.len() {
        offsets[i] as int
    } else {
        0
    }
}

/// The char column of the cell in row `row_in_line` of a line (the line's
/// last row for any row past it) that is `col_in_row` columns into the row,
/// kept within the row's text.
pub open spec fn cell_col(text: Seq<char>, wrap_cols: usize, row_in_line: int, col_in_row: int) -> int {
    let cs = wrap_char_starts(text, wrap_cols);
    let r = if row_in_line < cs.len() - 1 { row_in_line } else { cs.len() - 1 };
    let start = cs[r];
    let end = if r + 1 < cs.len() { cs[r + 1] } else { text.len() as int };
    start + if col_in_row < end - start { col_in_row } else { end - start }
}

/// The cell under the visual row `row` of a wrapped document, `col_in_row`
/// columns into that row: the line holding the row (as `line_at_row`
/// finds it among the cumulative `offsets` of the `lines`), and the char
/// column `cell_col` gives within that line.
pub fn cell_at_row(lines: &Vec<String>, offsets: &[u32], row: u32, col_in_row: usize, wrap_cols: usize) -> (cell: (
    usize,
    usize,
))
    requires
        sorted_u32(offsets@),
        offsets@.len() == 0 || offsets@[0] <= row,
    ensures
        ({
            let total_lines: int = if lines@.len() >= 1 { lines@.len() as int } else { 1 };
            exists|p: int|
                is_partition_u32(offsets@, row as int, p) && cell.0 == ({
                    let q = if p == 0 { 0 } else { p - 1 };
                    if q <= total_lines - 1 { q } else { total_lines - 1 }
                })
        }),
        cell.1 == cell_col(
            line_text(lines@, cell.0 as int),
            wrap_cols,
            row - row_base(offsets@, cell.0 as int),
            col_in_row as int,
        ),
{
    let total = if lines.len() >= 1 { lines.len() } else { 1 };
    let line = line_at_row(offsets, row, total);
    let base = if line < offsets.len() { offsets[line] } else { 0 };
    proof {
        if line < offsets@.len() {
            let p = choose|p: int|
                is_partition_u32(offsets@, row as int, p) && line == ({
                    let q = if p == 0 { 0 } else { p - 1 };
                    if q <= total - 1 { q } else { total - 1 }
                });
            if p > 0 {
                assert(offsets@[p - 1] <= row);
                assert(offsets@[line as int] <= offsets@[p - 1]);
            } else {
                assert(offsets@[line as int] == offsets@[0]);
            }
        }
    }
    let row_in_line = (row - base) as usize;
    proof {
        reveal_strlit("");
    }
    let text: &str = if line < lines.len() { lines[line].as_str() } else { "" };
    assert(text@ == line_text(lines@, line as int));
    let _bytes = byte_len(text);
    proof {
        lemma_row_starts_usable(text@, wrap_cols);
    }
    let starts = wrap_row_starts(text, wrap_cols);
    let last = starts.len() - 1;
    let r = if row_in_line < last { row_in_line } else { last };
    let start = byte_to_char(text, starts[r]);
    proof {
        lemma_start_char(text@, wrap_cols, r as int, start as int);
    }
    let end = if r + 1 < starts.len() {
        let e = byte_to_char(text, starts[r + 1]);
        proof {
            lemma_start_char(text@, wrap_cols, r + 1, e as int);
            lemma_wrap_rows_fit(text@, wrap_cols);
            assert(wrap_char_starts(text@, wrap_cols)[r as int] < wrap_char_starts(text@, wrap_cols)[r + 1]);
        }
        e
    } else {
        text.unicode_len()
    };
    let within = end - start;
    let c = if col_in_row < within { col_in_row } else { within };
    (line, start + c)
}

/// The visual row of the whole wrapped document that char column `col`
/// of line `line` falls on: the rows before the line (its entry of the
/// cumulative `offsets`, zero past their end) plus the row within it.
pub fn visual_row_of(lines: &Vec<String>, offsets: &[u32], wrap_cols: usize, line: usize, col: usize) -> (v: usize)
    requires
        row_base(offsets@, line as int) + wrap_char_starts(line_text(lines@, line as int), wrap_cols).len()
            <= usize::MAX,
    ensures
        exists|p: int|
            is_partition_usize(
                wrap_byte_starts(line_text(lines@, line as int), wrap_cols),
                col_byte_of(line_text(lines@, line as int), col as int),
                p,
            ) && v == row_base(offsets@, line as int) + (if p == 0 { 0 } else { p - 1 }),
{
    proof {
        reveal_strlit("");
    }
    let text: &str = if line < lines.len() { lines[line].as_str() } else { "" };
    assert(text@ == line_text(lines@, line as int));
    let (row_in_line, _) = wrapped_row_of(text, wrap_cols, col);
    proof {
        lemma_wrap_rows_fit(text@, wrap_cols);
    }
    let base = if line < offsets.len() { offsets[line] as usize } else { 0 };
    base + row_in_line
}

} // verus!
