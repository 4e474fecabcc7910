//! Layout planning for the diff view: which lines show as context, which
//! collapse behind a separator, and how each hunk pairs old with new lines.
use vstd::prelude::*;
use std::collections::HashSet;
use crate::paths::{file_name, file_name_text};
use crate::text::{decimal, dec_str};

verus! {

/// How a diff line relates the old text to the new one.
#[derive(Clone, Copy, Debug, PartialEq, Eq, Structural)]
pub enum DiffLineKind {
    Equal,
    Insert,
    Delete,
}

/// One line of a line diff, with its 0-based line number on each side it
/// exists on.
#[derive(Clone, Debug)]
pub struct DiffLine {
    pub kind: DiffLineKind,
    pub text: String,
    pub old_line: Option<usize>,
    pub new_line: Option<usize>,
}

/// A contiguous run of changed lines, by index into the diff's lines.
#[derive(Debug)]
pub struct Hunk {
    pub range: std::ops::Range<usize>,
}

/// One span of a word-level diff.
#[derive(Clone, Debug)]
pub struct WordSpan {
    pub kind: DiffLineKind,
    pub text: String,
}

/// Unchanged lines kept visible next to each hunk.
pub const CONTEXT_LINES: usize = 3;

/// The spans that rebuild one side's text (`Delete` for the old side,
/// `Insert` for the new), each flagged with whether it is part of the
/// change.
pub open spec fn side_spans(spans: Seq<WordSpan>, side: DiffLineKind) -> Seq<(bool, Seq<char>)>
    decreases spans.len(),
{
    if spans.len() == 0 {
        seq![]
    } else {
        let rest = side_spans(spans.drop_last(), side);
        let s = spans.last();
        if s.kind == DiffLineKind::Equal || s.kind == side {
            rest.push((s.kind != DiffLineKind::Equal, s.text@))
        } else {
            rest
        }
    }
}

/// `diff_words(old, new)` filtered and flagged for one side: `Equal`
/// spans are shared, unhighlighted context; the side's own spans are the
/// change.
pub fn word_spans_for_side(spans: &[WordSpan], side: DiffLineKind) -> (r: Vec<(bool, String)>)
    ensures
        r@.map_values(|p: (bool, String)| (p.0, p.1@)) == side_spans(spans@, side),
{
    let mut r: Vec<(bool, String)> = Vec::new();
    let n = spans.len();
    let mut i: usize = 0;
    proof {
        assert(spans@.take(0) =~= Seq::<WordSpan>::empty());
    }
    while i < n
        invariant
            n == spans@.len(),
            i <= n,
            r@.map_values(|p: (bool, String)| (p.0, p.1@)) == side_spans(spans@.take(i as int), side),
        decreases n - i,
    {
        let ghost before = r@.map_values(|p: (bool, String)| (p.0, p.1@));
        proof {
            assert(spans@.take(i as int + 1).drop_last() =~= spans@.take(i as int));
        }
        let s = &spans[i];
        if s.kind == DiffLineKind::Equal || s.kind == side {
            let t = s.text.clone();
            r.push((s.kind != DiffLineKind::Equal, t));
            proof {
                assert(r@.map_values(|p: (bool, String)| (p.0, p.1@)) =~= before.push(
                    (s.kind != DiffLineKind::Equal, s.text@),
                ));
            }
        }
        i = i + 1;
    }
    proof {
        assert(spans@.take(n as int) =~= spans@);
    }
    r
}

/// A hunk's shape: its leading `Delete` lines, then the rest (its
/// `Insert` lines), and how many of each pair up row for row.
#[derive(Clone, Copy, Debug, PartialEq, Eq)]
pub struct HunkShape {
    pub n_delete: usize,
    pub n_insert: usize,
    pub paired: usize,
}

/// Number of leading `Delete` lines of `lines`.
pub open spec fn leading_deletes(lines: Seq<DiffLine>) -> nat
    decreases lines.len(),
{
    if lines.len() > 0 && lines[0].kind == DiffLineKind::Delete {
        1 + leading_deletes(lines.drop_first())
    } else {
        0
    }
}

proof fn lemma_leading_deletes(lines: Seq<DiffLine>, k: int)
    requires
        0 <= k <= lines.len(),
        forall|j: int| 0 <= j < k ==> (#[trigger] lines[j]).kind == DiffLineKind::Delete,
        k == lines.len() || lines[k].kind != DiffLineKind::Delete,
    ensures
        leading_deletes(lines) == k,
    decreases k,
{
    if k > 0 {
        lemma_leading_deletes(lines.drop_first(), k - 1);
    }
}

/// Splits a hunk's lines into its leading deletions and the rest, pairing
/// the first `min` of each.
pub fn hunk_shape(lines: &[DiffLine]) -> (s: HunkShape)
    ensures
        s.n_delete == leading_deletes(lines@),
        s.n_insert == lines@.len() - s.n_delete,
        s.paired == if s.n_delete <= s.n_insert { s.n_delete } else { s.n_insert },
{
    let n = lines.len();
    let mut k: usize = 0;
    while k < n && lines[k].kind == DiffLineKind::Delete
        invariant
            n == lines@.len(),
            k <= n,
            forall|j: int| 0 <= j < k ==> (#[trigger] lines@[j]).kind == DiffLineKind::Delete,
        decreases n - k,
    {
        k = k + 1;
    }
    proof {
        lemma_leading_deletes(lines@, k as int);
    }
    let n_insert = n - k;
    HunkShape { n_delete: k, n_insert, paired: if k <= n_insert { k } else { n_insert } }
}

/// `"s"` unless `n` is one.
pub open spec fn plural_s(n: nat) -> Seq<char> {
    if n == 1 {
        seq![]
    } else {
        seq!['s']
    }
}

/// `"⋯ N unchanged line(s) ⋯"`.
pub open spec fn spec_separator_label(hidden: nat) -> Seq<char> {
    seq!['\u{22ef}', ' '] + dec_str(hidden) + seq![
        ' ',
        'u',
        'n',
        'c',
        'h',
        'a',
        'n',
        'g',
        'e',
        'd',
        ' ',
        'l',
        'i',
        'n',
        'e',
    ] + plural_s(hidden) + seq![' ', '\u{22ef}']
}

/// The text of the row standing in for `hidden` collapsed unchanged lines.
pub fn separator_label(hidden: usize) -> (s: String)
    ensures
        s@ == spec_separator_label(hidden as nat),
{
    proof {
        reveal_strlit("\u{22ef} ");
        reveal_strlit(" unchanged line");
        reveal_strlit("s");
        reveal_strlit(" \u{22ef}");
    }
    let mut s = "\u{22ef} ".to_owned();
    s.append(decimal(hidden as u128).as_str());
    s.append(" unchanged line");
    if hidden != 1 {
        s.append("s");
    }
    s.append(" \u{22ef}");
    proof {
        assert(s@ =~= spec_separator_label(hidden as nat));
    }
    s
}

/// The toolbar's selection readout: `"No changes selected"` or
/// `"N change(s) selected"`.
pub open spec fn spec_selection_label(n: nat) -> Seq<char> {
    if n == 0 {
        seq![
            'N',
            'o',
            ' ',
            'c',
            'h',
            'a',
            'n',
            'g',
            'e',
            's',
            ' ',
            's',
            'e',
            'l',
            'e',
            'c',
            't',
            'e',
            'd',
        ]
    } else {
        dec_str(n) + seq![' ', 'c', 'h', 'a', 'n', 'g', 'e'] + plural_s(n) + seq![
            ' ',
            's',
            'e',
            'l',
            'e',
            'c',
            't',
            'e',
            'd',
        ]
    }
}

/// How many hunks are selected for revert, as the toolbar says it.
pub fn selection_label(selected_count: usize) -> (s: String)
    ensures
        s@ == spec_selection_label(selected_count as nat),
{
    proof {
        reveal_strlit("No changes selected");
        reveal_strlit(" change");
        reveal_strlit("s");
        reveal_strlit(" selected");
    }
    if selected_count == 0 {
        return "No changes selected".to_owned();
    }
    let mut s = decimal(selected_count as u128);
    s.append(" change");
    if selected_count != 1 {
        s.append("s");
    }
    s.append(" selected");
    proof {
        assert(s@ =~= spec_selection_label(selected_count as nat));
    }
    s
}

/// `"Revert N selected change(s)?"`.
pub open spec fn spec_revert_prompt(n: nat) -> Seq<char> {
    seq!['R', 'e', 'v', 'e', 'r', 't', ' '] + dec_str(n) + seq![
        ' ',
        's',
        'e',
        'l',
        'e',
        'c',
        't',
        'e',
        'd',
        ' ',
        'c',
        'h',
        'a',
        'n',
        'g',
        'e',
    ] + plural_s(n) + seq!['?']
}

/// The confirmation prompt shown before reverting the selected hunks.
pub fn revert_prompt(selected_count: usize) -> (s: String)
    ensures
        s@ == spec_revert_prompt(selected_count as nat),
{
    proof {
        reveal_strlit("Revert ");
        reveal_strlit(" selected change");
        reveal_strlit("s");
        reveal_strlit("?");
    }
    let mut s = "Revert ".to_owned();
    s.append(decimal(selected_count as u128).as_str());
    s.append(" selected change");
    if selected_count != 1 {
        s.append("s");
    }
    s.append("?");
    proof {
        assert(s@ =~= spec_revert_prompt(selected_count as nat));
    }
    s
}

/// One segment of the diff view's plan, by line index.
pub enum PlanItem {
    /// An unchanged line shown as context.
    Context(int),
    /// A run of this many unchanged lines collapsed behind a separator.
    Separator(nat),
    /// A hunk covering lines `[start, end)`, keyed and selected by `start`.
    Hunk { start: int, end: int, selected: bool },
}

/// Hunks lie inside the diff, in order, without overlapping.
pub open spec fn hunks_well_formed(hunks: Seq<Hunk>, n: int) -> bool {
    &&& forall|k: int| 0 <= k < hunks.len() ==> (#[trigger] hunks[k]).range.start <= hunks[k].range.end <= n
    &&& forall|k: int| 0 <= k < hunks.len() - 1 ==> (#[trigger] hunks[k]).range.end <= hunks[k + 1].range.start
}

/// Context rows for lines `[a, b)`.
pub open spec fn context_items(a: int, b: int) -> Seq<PlanItem>
    decreases b - a,
{
    if b <= a {
        seq![]
    } else {
        context_items(a, b - 1).push(PlanItem::Context(b - 1))
    }
}

/// Rows for the unchanged lines `[i, gap_end)`: up to `CONTEXT_LINES`
/// after the previous hunk (`lead`) and before the next one (`trail`)
/// stay visible, the rest collapse into one separator.
pub open spec fn gap_items(i: int, gap_end: int, lead: int, trail: int) -> Seq<PlanItem> {
    let gap_len = gap_end - i;
    if lead + trail >= gap_len {
        context_items(i, gap_end)
    } else {
        context_items(i, i + lead) + seq![PlanItem::Separator((gap_len - lead - trail) as nat)]
            + context_items(gap_end - trail, gap_end)
    }
}

/// The smaller of `a` and `b`.
pub open spec fn min(a: int, b: int) -> int {
    if a <= b { a } else { b }
}

/// The plan for lines `[i, n)` with hunks `h..` still ahead; `seen` is
/// whether a hunk came before `i`.
pub open spec fn plan_from(
    n: int,
    hunks: Seq<Hunk>,
    selected: Set<usize>,
    i: int,
    h: int,
    seen: bool,
) -> Seq<PlanItem>
    decreases hunks.len() - h, n - i,
{
    if i >= n || h < 0 {
        seq![]
    } else if h < hunks.len() && hunks[h].range.start == i {
        let end = hunks[h].range.end as int;
        seq![PlanItem::Hunk { start: i, end, selected: selected.contains(i as usize) }] + plan_from(
            n,
            hunks,
            selected,
            end,
            h + 1,
            true,
        )
    } else {
        let gap_end = if h < hunks.len() { hunks[h].range.start as int } else { n };
        if gap_end <= i || gap_end > n {
            seq![]
        } else {
            let gap_len = gap_end - i;
            let lead = if seen { min(CONTEXT_LINES as int, gap_len) } else { 0 };
            let trail = if h < hunks.len() { min(CONTEXT_LINES as int, gap_len) } else { 0 };
            gap_items(i, gap_end, lead, trail) + plan_from(n, hunks, selected, gap_end, h, seen)
        }
    }
}

/// The whole plan of a diff with `n` lines.
pub open spec fn plan_of(n: int, hunks: Seq<Hunk>, selected: Set<usize>) -> Seq<PlanItem> {
    plan_from(n, hunks, selected, 0, 0, false)
}

/// `items` account for the lines `[i, j)` one after another: a context
/// row for the next line, a separator for the next `c` lines, a hunk for
/// the lines from the next one up to its end.
pub open spec fn covers(items: Seq<PlanItem>, i: int, j: int) -> bool
    decreases items.len(),
{
    if items.len() == 0 {
        i == j
    } else {
        let rest = items.drop_first();
        match items[0] {
            PlanItem::Context(k) => k == i && covers(rest, i + 1, j),
            PlanItem::Separator(c) => c > 0 && covers(rest, i + c, j),
            PlanItem::Hunk { start, end, .. } => start == i && start <= end && covers(rest, end, j),
        }
    }
}

proof fn lemma_covers_concat(a: Seq<PlanItem>, b: Seq<PlanItem>, i: int, m: int, j: int)
    requires
        covers(a, i, m),
        covers(b, m, j),
    ensures
        covers(a + b, i, j),
    decreases a.len(),
{
    if a.len() > 0 {
        assert((a + b).drop_first() =~= a.drop_first() + b);
        assert((a + b)[0] == a[0]);
        match a[0] {
            PlanItem::Context(k) => lemma_covers_concat(a.drop_first(), b, i + 1, m, j),
            PlanItem::Separator(c) => lemma_covers_concat(a.drop_first(), b, i + c, m, j),
            PlanItem::Hunk { start, end, .. } => lemma_covers_concat(a.drop_first(), b, end, m, j),
        }
    } else {
        assert(a + b =~= b);
    }
}

proof fn lemma_context_covers(a: int, b: int)
    requires
        a <= b,
    ensures
        covers(context_items(a, b), a, b),
    decreases b - a,
{
    if a < b {
        lemma_context_covers(a, b - 1);
        let one = seq![PlanItem::Context(b - 1)];
        assert(covers(one.drop_first(), b, b));
        assert(covers(one, b - 1, b));
        lemma_covers_concat(context_items(a, b - 1), one, a, b - 1, b);
        assert(context_items(a, b - 1) + one =~= context_items(a, b));
    } else {
        assert(context_items(a, b) =~= Seq::<PlanItem>::empty());
    }
}

proof fn lemma_plan_from_covers(n: int, hunks: Seq<Hunk>, selected: Set<usize>, i: int, h: int, seen: bool)
    requires
        hunks_well_formed(hunks, n),
        0 <= i <= n,
        0 <= h <= hunks.len(),
        h < hunks.len() ==> i <= hunks[h].range.start,
    ensures
        covers(plan_from(n, hunks, selected, i, h, seen), i, n),
    decreases hunks.len() - h, n - i,
{
    if i >= n {
    } else if h < hunks.len() && hunks[h].range.start == i {
        let end = hunks[h].range.end as int;
        if h + 1 < hunks.len() {
            assert(hunks[h].range.end <= hunks[h + 1].range.start);
        }
        lemma_plan_from_covers(n, hunks, selected, end, h + 1, true);
        let item = PlanItem::Hunk { start: i, end, selected: selected.contains(i as usize) };
        let rest = plan_from(n, hunks, selected, end, h + 1, true);
        assert((seq![item] + rest).drop_first() =~= rest);
    } else {
        let gap_end = if h < hunks.len() { hunks[h].range.start as int } else { n };
        let gap_len = gap_end - i;
        let lead = if seen { min(CONTEXT_LINES as int, gap_len) } else { 0 };
        let trail = if h < hunks.len() { min(CONTEXT_LINES as int, gap_len) } else { 0 };
        lemma_plan_from_covers(n, hunks, selected, gap_end, h, seen);
        if lead + trail >= gap_len {
            lemma_context_covers(i, gap_end);
        } else {
            lemma_context_covers(i, i + lead);
            lemma_context_covers(gap_end - trail, gap_end);
            let sep = seq![PlanItem::Separator((gap_len - lead - trail) as nat)];
            assert(covers(sep.drop_first(), gap_end - trail, gap_end - trail));
            assert(covers(sep, i + lead, gap_end - trail));
            lemma_covers_concat(context_items(i, i + lead), sep, i, i + lead, gap_end - trail);
            lemma_covers_concat(
                context_items(i, i + lead) + sep,
                context_items(gap_end - trail, gap_end),
                i,
                gap_end - trail,
                gap_end,
            );
        }
        lemma_covers_concat(
            gap_items(i, gap_end, lead, trail),
            plan_from(n, hunks, selected, gap_end, h, seen),
            i,
            gap_end,
            n,
        );
    }
}

/// Law: the diff view's plan accounts for every line of the diff exactly
/// once and in order — each line shows as context, inside its hunk, or
/// hidden behind a (non-empty) separator.
pub proof fn lemma_plan_covers_every_line(n: int, hunks: Seq<Hunk>, selected: Set<usize>)
    requires
        n >= 0,
        hunks_well_formed(hunks, n),
    ensures
        covers(plan_of(n, hunks, selected), 0, n),
{
    if hunks.len() > 0 {
        assert(0 <= hunks[0].range.start);
    }
    lemma_plan_from_covers(n, hunks, selected, 0, 0, false);
}

/// One planned segment of the diff view, over the diff's own lines.
pub enum RowPlan<'a> {
    Context(&'a DiffLine),
    Separator(usize),
    Hunk { lines: &'a [DiffLine], hunk_id: usize, selected: bool },
}

/// A `PlanItem` resolved against the diff's lines.
pub open spec fn item_matches(lines: Seq<DiffLine>, item: PlanItem, row: RowPlan) -> bool {
    match item {
        PlanItem::Context(k) => row matches RowPlan::Context(l) && *l == lines[k],
        PlanItem::Separator(c) => row matches RowPlan::Separator(m) && m == c,
        PlanItem::Hunk { start, end, selected } => row matches RowPlan::Hunk {
            lines: hl,
            hunk_id,
            selected: sel,
        } && hl@ == lines.subrange(start, end) && hunk_id == start && sel == selected,
    }
}

/// `rows` is `items` resolved against `lines`, one row per item.
pub open spec fn plan_matches(lines: Seq<DiffLine>, items: Seq<PlanItem>, rows: Seq<RowPlan>) -> bool {
    &&& rows.len() == items.len()
    &&& forall|j: int| 0 <= j < rows.len() ==> item_matches(lines, #[trigger] items[j], rows[j])
}

proof fn lemma_plan_matches_append(
    lines: Seq<DiffLine>,
    items: Seq<PlanItem>,
    rows: Seq<RowPlan>,
    item: PlanItem,
    row: RowPlan,
)
    requires
        plan_matches(lines, items, rows),
        item_matches(lines, item, row),
    ensures
        plan_matches(lines, items.push(item), rows.push(row)),
{
    assert forall|j: int| 0 <= j < rows.len() + 1 implies item_matches(
        lines,
        #[trigger] items.push(item)[j],
        rows.push(row)[j],
    ) by {
        if j < rows.len() {
            assert(items.push(item)[j] == items[j]);
            assert(rows.push(row)[j] == rows[j]);
        }
    }
}

/// Appends context rows for lines `[a, b)`.
fn push_context<'a>(lines: &'a [DiffLine], a: usize, b: usize, plan: &mut Vec<RowPlan<'a>>, Ghost(items): Ghost<Seq<PlanItem>>)
    requires
        a <= b <= lines@.len(),
        plan_matches(lines@, items, old(plan)@),
    ensures
        plan_matches(lines@, items + context_items(a as int, b as int), final(plan)@),
{
    let mut k = a;
    while k < b
        invariant
            a <= k <= b <= lines@.len(),
            plan_matches(lines@, items + context_items(a as int, k as int), plan@),
        decreases b - k,
    {
        proof {
            lemma_plan_matches_append(lines@, items + context_items(a as int, k as int), plan@, PlanItem::Context(k as int), RowPlan::Context(&lines[k as int]));
            assert(items + context_items(a as int, k as int + 1) =~= (items + context_items(a as int, k as int)).push(PlanItem::Context(k as int)));
        }
        plan.push(RowPlan::Context(&lines[k]));
        k = k + 1;
    }
}

/// Walks `lines` into the shared segment plan both diff layouts render:
/// each hunk as one block (selected when its first line index is in
/// `selected_hunks`), and each run of unchanged lines between hunks as up
/// to `CONTEXT_LINES` context lines next to each neighbouring hunk with
/// the rest collapsed behind a separator.
pub fn plan_rows<'a>(lines: &'a [DiffLine], hunks: &'a [Hunk], selected_hunks: &HashSet<usize>) -> (plan: Vec<RowPlan<'a>>)
    requires
        hunks_well_formed(hunks@, lines@.len() as int),
    ensures
        plan_matches(lines@, plan_of(lines@.len() as int, hunks@, selected_hunks@), plan@),
{
    let n = lines.len();
    let nh = hunks.len();
    let mut plan: Vec<RowPlan> = Vec::new();
    let mut h: usize = 0;
    let mut i: usize = 0;
    let mut seen_hunk = false;
    let ghost mut items: Seq<PlanItem> = seq![];
    let ghost full = plan_of(n as int, hunks@, selected_hunks@);
    while i < n
        invariant
            n == lines@.len(),
            nh == hunks@.len(),
            hunks_well_formed(hunks@, n as int),
            full == plan_of(n as int, hunks@, selected_hunks@),
            h <= nh,
            h < nh ==> i <= hunks@[h as int].range.start,
            i <= n,
            full == items + plan_from(n as int, hunks@, selected_hunks@, i as int, h as int, seen_hunk),
            plan_matches(lines@, items, plan@),
        decreases nh - h, n - i,
    {
        if h < nh && hunks[h].range.start == i {
            let hunk = &hunks[h];
            let selected = selected_hunks.contains(&hunk.range.start);
            let ghost item = PlanItem::Hunk { start: i as int, end: hunk.range.end as int, selected };
            let row = RowPlan::Hunk { lines: &lines[hunk.range.start..hunk.range.end], hunk_id: hunk.range.start, selected };
            proof {
                lemma_plan_matches_append(lines@, items, plan@, item, row);
                assert(full == items.push(item) + plan_from(n as int, hunks@, selected_hunks@, hunk.range.end as int, h as int + 1, true));
                items = items.push(item);
            }
            plan.push(row);
            i = hunk.range.end;
            h = h + 1;
            seen_hunk = true;
            continue;
        }
        let gap_end = if h < nh { hunks[h].range.start } else { n };
        let gap_len = gap_end - i;
        let lead = if seen_hunk { if CONTEXT_LINES <= gap_len { CONTEXT_LINES } else { gap_len } } else { 0 };
        let trail = if h < nh { if CONTEXT_LINES <= gap_len { CONTEXT_LINES } else { gap_len } } else { 0 };
        let ghost gap = gap_items(i as int, gap_end as int, lead as int, trail as int);
        if lead + trail >= gap_len {
            push_context(lines, i, gap_end, &mut plan, Ghost(items));
        } else {
            push_context(lines, i, i + lead, &mut plan, Ghost(items));
            let ghost it1 = items + context_items(i as int, i as int + lead);
            let sep = RowPlan::Separator(gap_len - lead - trail);
            proof {
                lemma_plan_matches_append(lines@, it1, plan@, PlanItem::Separator((gap_len - lead - trail) as nat), sep);
            }
            plan.push(sep);
            let ghost it2 = it1.push(PlanItem::Separator((gap_len - lead - trail) as nat));
            push_context(lines, gap_end - trail, gap_end, &mut plan, Ghost(it2));
            proof {
                assert(it2 + context_items(gap_end - trail, gap_end as int) =~= items + gap);
            }
        }
        proof {
            assert(full == (items + gap) + plan_from(n as int, hunks@, selected_hunks@, gap_end as int, h as int, seen_hunk));
            items = items + gap;
        }
        i = gap_end;
    }
    plan
}

/// The title of the diff tab of the file at `path`: its name against
/// `HEAD`.
pub fn diff_tab_title(path: &str) -> (s: String)
    ensures
        s@ == file_name_text(path@) + " \u{2194} HEAD"@,
{
    let mut s = file_name(path);
    s.append(" \u{2194} HEAD");
    s
}

} // verus!
