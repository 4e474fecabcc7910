//! Greedy word wrap of one buffer line into visual rows.
use vstd::prelude::*;
use crate::text::{byte_offset, byte_len, chars_of, char_width, lemma_offset_step, utf8_len};

verus! {

/// Index of the last space among `s[lo..hi)`, if there is one.
pub open spec fn last_space_in(s: Seq<char>, lo: int, hi: int) -> Option<int>
    decreases hi - lo,
{
    if hi <= lo {
        None
    } else if s[hi - 1] == ' ' {
        Some(hi - 1)
    } else {
        last_space_in(s, lo, hi - 1)
    }
}

/// Where the row starting at char `r` ends, given that it overflows at
/// char `r + cols`: just past the row's last space when it has one,
/// otherwise exactly `cols` chars in.
pub open spec fn row_break(s: Seq<char>, cols: int, r: int) -> int {
    match last_space_in(s, r, r + cols) {
        Some(p) => p + 1,
        None => r + cols,
    }
}

/// Char indices at which the rows after the one starting at `r` begin.
pub open spec fn rows_after(s: Seq<char>, cols: int, r: int) -> Seq<int>
    decreases s.len() - r,
{
    if cols < 1 || r < 0 || r + cols >= s.len() {
        seq![]
    } else {
        let k = row_break(s, cols, r);
        if r < k <= r + cols {
            seq![k] + rows_after(s, cols, k)
        } else {
            seq![]
        }
    }
}

/// The wrap budget actually used: at least one char per row.
pub open spec fn effective_cols(wrap_cols: usize) -> int {
    if wrap_cols == 0 { 1 } else { wrap_cols as int }
}

/// Char index of each visual row's start within `s`.
pub open spec fn wrap_char_starts(s: Seq<char>, wrap_cols: usize) -> Seq<int> {
    seq![0int] + rows_after(s, effective_cols(wrap_cols), 0)
}

/// Byte offset of each visual row's start within the UTF-8 text `s`.
pub open spec fn wrap_byte_starts(s: Seq<char>, wrap_cols: usize) -> Seq<usize> {
    wrap_char_starts(s, wrap_cols).map_values(|k: int| byte_offset(s, k) as usize)
}

proof fn lemma_last_space_range(s: Seq<char>, lo: int, hi: int)
    ensures
        last_space_in(s, lo, hi) matches Some(p) ==> lo <= p < hi && s[p] == ' ' && forall|q: int|
            p < q < hi ==> s[q] != ' ',
        last_space_in(s, lo, hi) is None ==> forall|q: int| lo <= q < hi ==> s[q] != ' ',
    decreases hi - lo,
{
    if hi > lo && s[hi - 1] != ' ' {
        lemma_last_space_range(s, lo, hi - 1);
    }
}

/// A break always lands strictly inside the overflowing row.
proof fn lemma_row_break_range(s: Seq<char>, cols: int, r: int)
    requires
        cols >= 1,
    ensures
        r < row_break(s, cols, r) <= r + cols,
{
    lemma_last_space_range(s, r, r + cols);
}

/// Extending the scanned range by one non-space char keeps the last space.
proof fn lemma_last_space_extend(s: Seq<char>, lo: int, hi: int)
    requires
        lo <= hi,
        s[hi] != ' ',
    ensures
        last_space_in(s, lo, hi + 1) == last_space_in(s, lo, hi),
{
}

/// Visual row boundaries within one buffer line, as byte offsets into
/// `text` — one entry per visual row, always starting with 0.
///
/// Greedy word-wrap counting chars per row: a row that would grow past
/// `wrap_cols` chars (at least 1) breaks just past its last space when it
/// has one, otherwise hard-breaks at exactly `wrap_cols` chars.
pub fn wrap_row_starts(text: &str, wrap_cols: usize) -> (starts: Vec<usize>)
    ensures
        starts@ == wrap_byte_starts(text@, wrap_cols),
{
    let cols: usize = if wrap_cols == 0 { 1 } else { wrap_cols };
    let ghost s = text@;
    let total = byte_len(text);
    let chars = chars_of(text);
    let n = chars.len();
    let mut starts: Vec<usize> = Vec::new();
    starts.push(0);
    let ghost mut char_starts: Seq<int> = seq![0int];
    // Current row's first char (index and byte offset).
    let mut row_start: usize = 0;
    // Char just past the most recent space of the current row, with its byte offset.
    let mut last_space: Option<(usize, usize)> = None;
    let mut i: usize = 0;
    let mut b: usize = 0;
    proof {
        assert(s.take(0) =~= Seq::<char>::empty());
        assert(s.take(n as int) =~= s);
    }
    while i < n
        invariant
            chars@ == s,
            s == text@,
            n == s.len(),
            cols == effective_cols(wrap_cols),
            cols >= 1,
            total == utf8_len(s),
            byte_offset(s, n as int) == utf8_len(s),
            i <= n,
            b == byte_offset(s, i as int),
            row_start <= i,
            i - row_start <= cols,
            char_starts.len() >= 1,
            char_starts.last() == row_start as int,
            wrap_char_starts(s, wrap_cols) == char_starts.drop_last() + seq![row_start as int]
                + rows_after(s, cols as int, row_start as int),
            starts@ == char_starts.map_values(|k: int| byte_offset(s, k) as usize),
            match last_space {
                Some((k, kb)) => last_space_in(s, row_start as int, i as int) == Some(k - 1)
                    && kb == byte_offset(s, k as int),
                None => last_space_in(s, row_start as int, i as int) is None,
            },
        decreases n - i,
    {
        proof {
            lemma_offset_step(s, i as int);
            if i + 1 < n {
                crate::text::lemma_offset_strict(s, i as int + 1, n as int);
            }
        }
        if i - row_start >= cols {
            // The row is full: it overflows right here.
            let (k, kb) = match last_space {
                Some((k, kb)) => (k, kb),
                None => (i, b),
            };
            proof {
                lemma_last_space_range(s, row_start as int, i as int);
                assert(row_break(s, cols as int, row_start as int) == k);
                lemma_row_break_range(s, cols as int, row_start as int);
                assert(rows_after(s, cols as int, row_start as int) == seq![k as int] + rows_after(
                    s,
                    cols as int,
                    k as int,
                ));
                let old_cs = char_starts;
                char_starts = char_starts.push(k as int);
                assert(char_starts.drop_last() == old_cs);
                assert(old_cs.drop_last() + seq![row_start as int] =~= old_cs);
                assert(wrap_char_starts(s, wrap_cols) =~= char_starts.drop_last() + seq![k as int]
                    + rows_after(s, cols as int, k as int));
                if last_space is None {
                    assert(last_space_in(s, k as int, i as int) is None);
                } else {
                    assert(forall|q: int| k <= q < i ==> s[q] != ' ');
                    lemma_no_space_none(s, k as int, i as int);
                }
            }
            starts.push(kb);
            proof {
                assert(starts@ =~= char_starts.map_values(|k: int| byte_offset(s, k) as usize));
            }
            row_start = k;
            last_space = None;
        }
        let ch = chars[i];
        let w = char_width(ch);
        if ch == ' ' {
            last_space = Some((i + 1, b + w));
        } else {
            proof {
                lemma_last_space_extend(s, row_start as int, i as int);
            }
        }
        b = b + w;
        i = i + 1;
    }
    proof {
        assert(rows_after(s, cols as int, row_start as int) =~= Seq::<int>::empty());
        assert(char_starts.drop_last() + seq![row_start as int] =~= char_starts);
    }
    starts
}

/// Shape of the rows from the one starting at `r` onward: strictly
/// increasing starts, none more than `cols` apart, the last one leaving at
/// most `cols` chars, and (on a non-empty tail) starting inside the text.
proof fn lemma_rows_after_shape(s: Seq<char>, cols: int, r: int)
    requires
        cols >= 1,
        0 <= r <= s.len(),
    ensures
        ({
            let rs = seq![r] + rows_after(s, cols, r);
            &&& forall|j: int| #![trigger rs[j]] 0 <= j < rs.len() - 1 ==> rs[j] < rs[j + 1] <= rs[j] + cols
            &&& s.len() - rs.last() <= cols
            &&& (r < s.len() ==> rs.last() < s.len())
            &&& forall|j: int| #![trigger rs[j]] 0 <= j < rs.len() ==> r <= rs[j] <= s.len()
        }),
    decreases s.len() - r,
{
    if r + cols < s.len() {
        let k = row_break(s, cols, r);
        lemma_row_break_range(s, cols, r);
        lemma_rows_after_shape(s, cols, k);
        let rest = seq![k] + rows_after(s, cols, k);
        assert(seq![r] + rows_after(s, cols, r) =~= seq![r] + rest);
    } else {
        assert(seq![r] + rows_after(s, cols, r) =~= seq![r]);
    }
}

/// Law of the wrap layout: the first row starts at 0, row starts strictly
/// increase, and no row holds more than the (clamped) column budget — an
/// unbroken token is hard-broken rather than allowed to overflow.
pub proof fn lemma_wrap_rows_fit(s: Seq<char>, wrap_cols: usize)
    ensures
        ({
            let cs = wrap_char_starts(s, wrap_cols);
            let cols = effective_cols(wrap_cols);
            &&& cs.len() >= 1
            &&& cs[0] == 0
            &&& forall|j: int| #![trigger cs[j]] 0 <= j < cs.len() - 1 ==> cs[j] < cs[j + 1] <= cs[j] + cols
            &&& 0 <= cs.last() <= s.len()
            &&& s.len() - cs.last() <= cols
            &&& (s.len() > 0 ==> cs.last() < s.len())
        }),
{
    lemma_rows_after_shape(s, effective_cols(wrap_cols), 0);
}

/// Law: every row start `wrap_row_starts` reports is a char boundary of
/// the text (a multibyte char is never split across rows), and the starts
/// strictly increase.
pub proof fn lemma_wrap_starts_on_boundaries(s: Seq<char>, wrap_cols: usize)
    requires
        utf8_len(s) <= usize::MAX,
    ensures
        forall|j: int|
            0 <= j < wrap_byte_starts(s, wrap_cols).len() ==> crate::text::is_boundary(
                s,
                #[trigger] wrap_byte_starts(s, wrap_cols)[j] as int,
            ),
        forall|i: int, j: int|
            0 <= i < j < wrap_byte_starts(s, wrap_cols).len() ==> wrap_byte_starts(s, wrap_cols)[i]
                < wrap_byte_starts(s, wrap_cols)[j],
{
    let cs = wrap_char_starts(s, wrap_cols);
    lemma_wrap_rows_fit(s, wrap_cols);
    assert(s.take(s.len() as int) =~= s);
    assert forall|j: int| 0 <= j < cs.len() implies 0 <= #[trigger] cs[j] <= s.len() by {
        lemma_starts_bounded(s, wrap_cols, j);
    }
    assert forall|j: int| 0 <= j < cs.len() implies byte_offset(s, cs[j]) <= utf8_len(s) by {
        lemma_starts_bounded(s, wrap_cols, j);
        if cs[j] < s.len() {
            crate::text::lemma_offset_strict(s, cs[j], s.len() as int);
        }
    }
    assert forall|j: int|
        0 <= j < wrap_byte_starts(s, wrap_cols).len() implies crate::text::is_boundary(
        s,
        #[trigger] wrap_byte_starts(s, wrap_cols)[j] as int,
    ) by {
        lemma_starts_bounded(s, wrap_cols, j);
        assert(byte_offset(s, cs[j]) <= utf8_len(s));
        assert(wrap_byte_starts(s, wrap_cols)[j] as int == byte_offset(s, cs[j]));
    }
    assert forall|i: int, j: int|
        0 <= i < j < wrap_byte_starts(s, wrap_cols).len() implies wrap_byte_starts(s, wrap_cols)[i]
        < wrap_byte_starts(s, wrap_cols)[j] by {
        lemma_starts_bounded(s, wrap_cols, i);
        lemma_starts_bounded(s, wrap_cols, j);
        lemma_starts_increasing(s, wrap_cols, i, j);
        crate::text::lemma_offset_strict(s, cs[i], cs[j]);
        if cs[j] < s.len() {
            crate::text::lemma_offset_strict(s, cs[j], s.len() as int);
        }
    }
}

pub(crate) proof fn lemma_starts_bounded(s: Seq<char>, wrap_cols: usize, j: int)
    requires
        0 <= j < wrap_char_starts(s, wrap_cols).len(),
    ensures
        0 <= wrap_char_starts(s, wrap_cols)[j] <= s.len(),
{
    lemma_rows_after_shape(s, effective_cols(wrap_cols), 0);
}

proof fn lemma_starts_increasing(s: Seq<char>, wrap_cols: usize, i: int, j: int)
    requires
        0 <= i < j < wrap_char_starts(s, wrap_cols).len(),
    ensures
        wrap_char_starts(s, wrap_cols)[i] < wrap_char_starts(s, wrap_cols)[j],
    decreases j - i,
{
    lemma_wrap_rows_fit(s, wrap_cols);
    let cs = wrap_char_starts(s, wrap_cols);
    assert(cs[j - 1] < cs[j]);
    if i < j - 1 {
        lemma_starts_increasing(s, wrap_cols, i, j - 1);
    }
}

/// Number of visual rows the line `line` wraps into.
pub open spec fn row_count(line: Seq<char>, wrap_cols: usize) -> nat {
    wrap_char_starts(line, wrap_cols).len()
}

/// Total visual rows of `lines[0..i)`.
pub open spec fn rows_before(lines: Seq<String>, wrap_cols: usize, i: int) -> nat
    decreases i,
{
    if i <= 0 {
        0
    } else {
        rows_before(lines, wrap_cols, i - 1) + row_count(lines[i - 1]@, wrap_cols)
    }
}

/// Cumulative visual-row count before each buffer line, plus a trailing
/// total: entry `i` is how many visual rows lines `0..i` occupy, so the
/// result has one more entry than `lines` and its last one is the whole
/// document's row count. `lines` are the (already capped) line texts.
pub fn wrap_row_offsets(lines: &Vec<String>, wrap_cols: usize) -> (offsets: Vec<u32>)
    requires
        rows_before(lines@, wrap_cols, lines@.len() as int) <= u32::MAX,
    ensures
        offsets@.len() == lines@.len() + 1,
        forall|i: int| 0 <= i <= lines@.len() ==> offsets@[i] == rows_before(lines@, wrap_cols, i),
{
    let line_count = lines.len();
    let mut offsets: Vec<u32> = Vec::new();
    let mut total: u32 = 0;
    let mut line: usize = 0;
    while line < line_count
        invariant
            line_count == lines@.len(),
            line <= line_count,
            rows_before(lines@, wrap_cols, line_count as int) <= u32::MAX,
            total == rows_before(lines@, wrap_cols, line as int),
            offsets@.len() == line,
            forall|i: int| 0 <= i < line ==> offsets@[i] == rows_before(lines@, wrap_cols, i),
        decreases line_count - line,
    {
        offsets.push(total);
        let starts = wrap_row_starts(lines[line].as_str(), wrap_cols);
        proof {
            lemma_rows_before_mono(lines@, wrap_cols, line as int + 1, line_count as int);
        }
        total = total + starts.len() as u32;
        line = line + 1;
    }
    offsets.push(total);
    offsets
}

/// Law: every line takes at least one visual row, so the cumulative row
/// offsets strictly increase from line to line (and are therefore sorted,
/// as the row-to-line lookups need).
pub proof fn lemma_rows_before_increasing(lines: Seq<String>, wrap_cols: usize, i: int, j: int)
    requires
        0 <= i < j,
    ensures
        rows_before(lines, wrap_cols, i) < rows_before(lines, wrap_cols, j),
    decreases j - i,
{
    lemma_wrap_rows_fit(lines[j - 1]@, wrap_cols);
    if i < j - 1 {
        lemma_rows_before_increasing(lines, wrap_cols, i, j - 1);
    }
}

proof fn lemma_rows_before_mono(lines: Seq<String>, wrap_cols: usize, i: int, j: int)
    requires
        i <= j,
    ensures
        rows_before(lines, wrap_cols, i) <= rows_before(lines, wrap_cols, j),
    decreases j - i,
{
    if i < j {
        lemma_rows_before_mono(lines, wrap_cols, i, j - 1);
    }
}

/// A range holding no space has no last space.
proof fn lemma_no_space_none(s: Seq<char>, lo: int, hi: int)
    requires
        forall|q: int| lo <= q < hi ==> s[q] != ' ',
    ensures
        last_space_in(s, lo, hi) is None,
    decreases hi - lo,
{
    if hi > lo {
        lemma_no_space_none(s, lo, hi - 1);
    }
}

} // verus!
