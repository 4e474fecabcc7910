//! The hover popup's peek at a definition, and the references panel's
//! locations.
use vstd::prelude::*;

use crate::paths::{file_name, file_name_text, relative_display, relative_to};
use crate::text::{dec_str, decimal};

verus! {

/// `n` spaces.
pub open spec fn spaces(n: nat) -> Seq<char> {
    Seq::new(n, |i: int| ' ')
}

/// `s` right-aligned in a field `width` chars wide (what `{:>width}`
/// formats): left-padded with spaces, never cut.
pub open spec fn pad_left(s: Seq<char>, width: nat) -> Seq<char> {
    if s.len() < width {
        spaces((width - s.len()) as nat) + s
    } else {
        s
    }
}

/// `text` right-aligned to `width` chars.
pub fn right_align(text: &str, width: usize) -> (s: String)
    ensures
        s@ == pad_left(text@, width as nat),
{
    let n = text.unicode_len();
    let mut s = String::new();
    if n < width {
        let pad = width - n;
        let mut i: usize = 0;
        while i < pad
            invariant
                i <= pad,
                s@ == spaces(i as nat),
            decreases pad - i,
        {
            s.append(" ");
            proof {
                reveal_strlit(" ");
                assert(s@ =~= spaces((i + 1) as nat));
            }
            i = i + 1;
        }
    }
    s.append(text);
    proof {
        if n < width {
            assert(s@ =~= pad_left(text@, width as nat));
        } else {
            assert(s@ =~= pad_left(text@, width as nat));
        }
    }
    s
}

/// Width of the line-number column of a peek.
pub const PEEK_NUMBER_WIDTH: usize = 4;

/// One line of a peek: its 1-based line number right-aligned, its text,
/// and whether it is the line the peek points at.
#[derive(Clone, Debug, PartialEq, Eq)]
pub struct PeekRow {
    pub number: String,
    pub text: String,
    pub is_target: bool,
}

/// The rows of a peek at `lines` of a file, the first being the file's
/// line `start_line` (0-based), the one at `target_line` marked.
pub open spec fn spec_peek_rows(start_line: nat, target_line: nat, lines: Seq<Seq<char>>) -> Seq<(Seq<char>, Seq<char>, bool)> {
    Seq::new(
        lines.len(),
        |i: int| (pad_left(dec_str((start_line + i + 1) as nat), PEEK_NUMBER_WIDTH as nat), lines[i], start_line + i == target_line),
    )
}

/// The numbered rows of a peek.
pub fn peek_rows(start_line: usize, target_line: usize, lines: &[String]) -> (rows: Vec<PeekRow>)
    requires
        start_line + lines@.len() < usize::MAX,
    ensures
        rows@.map_values(|r: PeekRow| (r.number@, r.text@, r.is_target)) == spec_peek_rows(
            start_line as nat,
            target_line as nat,
            lines@.map_values(|l: String| l@),
        ),
{
    let mut rows: Vec<PeekRow> = Vec::new();
    let n = lines.len();
    let mut i: usize = 0;
    while i < n
        invariant
            n == lines@.len(),
            start_line + n < usize::MAX,
            i <= n,
            rows@.map_values(|r: PeekRow| (r.number@, r.text@, r.is_target)) == spec_peek_rows(
                start_line as nat,
                target_line as nat,
                lines@.map_values(|l: String| l@),
            ).take(i as int),
        decreases n - i,
    {
        let file_line = start_line + i;
        let digits = decimal((file_line + 1) as u128);
        let number = right_align(digits.as_str(), PEEK_NUMBER_WIDTH);
        let text = lines[i].clone();
        let ghost before = rows@.map_values(|r: PeekRow| (r.number@, r.text@, r.is_target));
        rows.push(PeekRow { number, text, is_target: file_line == target_line });
        proof {
            let spec = spec_peek_rows(start_line as nat, target_line as nat, lines@.map_values(|l: String| l@));
            assert(spec.take(i as int).len() == i);
            assert(before.len() == i);
            assert(rows@.len() == i + 1);
            assert(rows@[i as int].number@ == pad_left(dec_str((start_line + i + 1) as nat), PEEK_NUMBER_WIDTH as nat));
            assert(rows@[i as int].text@ == lines@[i as int]@);
            assert(rows@.map_values(|r: PeekRow| (r.number@, r.text@, r.is_target)) =~= spec.take(i + 1));
        }
        i = i + 1;
    }
    proof {
        let spec = spec_peek_rows(start_line as nat, target_line as nat, lines@.map_values(|l: String| l@));
        assert(spec.take(n as int) =~= spec);
    }
    rows
}

/// `"name:L"`: a file name and a 1-based line number.
pub open spec fn spec_name_line(name: Seq<char>, line: nat) -> Seq<char> {
    name + ":"@ + dec_str(line + 1)
}

/// `name` and the 0-based `line`, counted from 1.
pub fn name_line_label(name: &str, line: usize) -> (s: String)
    requires
        line < usize::MAX,
    ensures
        s@ == spec_name_line(name@, line as nat),
{
    let mut s = name.to_owned();
    s.append(":");
    s.append(decimal((line + 1) as u128).as_str());
    s
}

/// The peek's header: the peeked file's name and the line it points at.
pub fn peek_header(path: &str, target_line: usize) -> (s: String)
    requires
        target_line < usize::MAX,
    ensures
        s@ == spec_name_line(file_name_text(path@), target_line as nat),
{
    let name = file_name(path);
    name_line_label(name.as_str(), target_line)
}

/// A reference's location in the references panel: its path relative to
/// the project root and its 1-based line.
pub fn reference_location(path: &str, root: &str, line: usize) -> (s: String)
    requires
        line < usize::MAX,
    ensures
        s@ == spec_name_line(relative_display(path@, root@), line as nat),
{
    let shown = relative_to(path, root);
    name_line_label(shown.as_str(), line)
}

} // verus!
