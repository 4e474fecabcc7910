//! The status bar's problem tally and language-server progress labels.
use vstd::prelude::*;
use crate::paths::{relative_display, relative_to};
use crate::text::{decimal, dec_str};

verus! {

/// How severe a language-server diagnostic is.
#[derive(Clone, Copy, Debug, PartialEq, Eq, Structural)]
pub enum DiagnosticSeverity {
    Error,
    Warning,
    Information,
    Hint,
}

/// A position in a buffer: 0-based line and char column.
#[derive(Clone, Copy, Debug, PartialEq, Eq, Structural)]
pub struct CursorPos {
    pub line: usize,
    pub col: usize,
}

/// One diagnostic of an open file.
#[derive(Clone, Debug)]
pub struct EditorDiagnostic {
    pub start: CursorPos,
    pub end: CursorPos,
    pub severity: DiagnosticSeverity,
    pub message: String,
}

/// An open editor tab.
#[derive(Debug)]
pub enum OpenTab {
    File { path: String, diagnostics: Vec<EditorDiagnostic> },
    Diff(String),
    Chat,
    Search,
}

/// Every open file's diagnostics paired with the file's path, tab by tab.
pub open spec fn diagnostics_of(tabs: Seq<OpenTab>) -> Seq<(Seq<char>, EditorDiagnostic)>
    decreases tabs.len(),
{
    if tabs.len() == 0 {
        seq![]
    } else {
        let rest = diagnostics_of(tabs.drop_last());
        match tabs.last() {
            OpenTab::File { path, diagnostics } => rest + diagnostics@.map_values(
                |d: EditorDiagnostic| (path@, d),
            ),
            _ => rest,
        }
    }
}

/// `all_diagnostics`' result by value.
pub open spec fn pairs_view(v: Seq<(&str, &EditorDiagnostic)>) -> Seq<(Seq<char>, EditorDiagnostic)> {
    v.map_values(|p: (&str, &EditorDiagnostic)| (p.0@, *p.1))
}

/// Every open file's diagnostics, workspace-wide (not just the active tab).
pub fn all_diagnostics(open_tabs: &[OpenTab]) -> (r: Vec<(&str, &EditorDiagnostic)>)
    ensures
        pairs_view(r@) == diagnostics_of(open_tabs@),
{
    let mut r: Vec<(&str, &EditorDiagnostic)> = Vec::new();
    let n = open_tabs.len();
    let mut t: usize = 0;
    proof {
        assert(open_tabs@.take(0) =~= Seq::<OpenTab>::empty());
        assert(pairs_view(r@) =~= Seq::<(Seq<char>, EditorDiagnostic)>::empty());
    }
    while t < n
        invariant
            n == open_tabs@.len(),
            t <= n,
            pairs_view(r@) == diagnostics_of(open_tabs@.take(t as int)),
        decreases n - t,
    {
        proof {
            assert(open_tabs@.take(t as int + 1).drop_last() =~= open_tabs@.take(t as int));
            assert(open_tabs@.take(t as int + 1).last() == open_tabs@[t as int]);
        }
        match &open_tabs[t] {
            OpenTab::File { path, diagnostics } => {
                let ghost base = pairs_view(r@);
                let m = diagnostics.len();
                let mut k: usize = 0;
                while k < m
                    invariant
                        m == diagnostics@.len(),
                        k <= m,
                        pairs_view(r@) == base + diagnostics@.take(k as int).map_values(
                            |d: EditorDiagnostic| (path@, d),
                        ),
                    decreases m - k,
                {
                    let ghost before = pairs_view(r@);
                    r.push((path.as_str(), &diagnostics[k]));
                    proof {
                        assert(pairs_view(r@) =~= before.push((path@, diagnostics@[k as int])));
                        assert(diagnostics@.take(k as int + 1).map_values(|d: EditorDiagnostic| (path@, d))
                            =~= diagnostics@.take(k as int).map_values(|d: EditorDiagnostic| (path@, d)).push(
                            (path@, diagnostics@[k as int]),
                        ));
                        assert(pairs_view(r@) =~= base + diagnostics@.take(k as int + 1).map_values(
                            |d: EditorDiagnostic| (path@, d),
                        ));
                    }
                    k = k + 1;
                }
                proof {
                    assert(diagnostics@.take(m as int) =~= diagnostics@);
                }
            },
            _ => {},
        }
        t = t + 1;
    }
    proof {
        assert(open_tabs@.take(n as int) =~= open_tabs@);
    }
    r
}

/// How many of `diags` have severity `sev`.
pub open spec fn count_severity(diags: Seq<(Seq<char>, EditorDiagnostic)>, sev: DiagnosticSeverity) -> nat
    decreases diags.len(),
{
    if diags.len() == 0 {
        0
    } else {
        count_severity(diags.drop_last(), sev) + if diags.last().1.severity == sev {
            1nat
        } else {
            0nat
        }
    }
}

proof fn lemma_counts_bounded(diags: Seq<(Seq<char>, EditorDiagnostic)>)
    ensures
        count_severity(diags, DiagnosticSeverity::Error) + count_severity(
            diags,
            DiagnosticSeverity::Warning,
        ) <= diags.len(),
    decreases diags.len(),
{
    if diags.len() > 0 {
        lemma_counts_bounded(diags.drop_last());
    }
}

/// The number of errors and of warnings among `diagnostics`.
pub fn problem_counts(diagnostics: &Vec<(&str, &EditorDiagnostic)>) -> (r: (usize, usize))
    ensures
        r.0 == count_severity(pairs_view(diagnostics@), DiagnosticSeverity::Error),
        r.1 == count_severity(pairs_view(diagnostics@), DiagnosticSeverity::Warning),
        r.0 + r.1 <= diagnostics@.len(),
{
    let ghost all = pairs_view(diagnostics@);
    let n = diagnostics.len();
    let mut errors: usize = 0;
    let mut warnings: usize = 0;
    let mut i: usize = 0;
    proof {
        assert(all.take(0) =~= Seq::<(Seq<char>, EditorDiagnostic)>::empty());
    }
    while i < n
        invariant
            n == diagnostics@.len(),
            all == pairs_view(diagnostics@),
            i <= n,
            errors == count_severity(all.take(i as int), DiagnosticSeverity::Error),
            warnings == count_severity(all.take(i as int), DiagnosticSeverity::Warning),
        decreases n - i,
    {
        proof {
            assert(all.take(i as int + 1).drop_last() =~= all.take(i as int));
            lemma_counts_bounded(all.take(i as int + 1));
        }
        match diagnostics[i].1.severity {
            DiagnosticSeverity::Error => errors = errors + 1,
            DiagnosticSeverity::Warning => warnings = warnings + 1,
            _ => {},
        }
        i = i + 1;
    }
    proof {
        assert(all.take(n as int) =~= all);
        lemma_counts_bounded(all);
    }
    (errors, warnings)
}

/// `"NO PROBLEMS"` for none, else `"N PROBLEM"` / `"N PROBLEMS"` counting
/// errors and warnings together.
pub open spec fn spec_problems_label(errors: nat, warnings: nat) -> Seq<char> {
    let total = errors + warnings;
    if total == 0 {
        seq!['N', 'O', ' ', 'P', 'R', 'O', 'B', 'L', 'E', 'M', 'S']
    } else {
        dec_str(total) + seq![' ', 'P', 'R', 'O', 'B', 'L', 'E', 'M'] + if total == 1 {
            seq![]
        } else {
            seq!['S']
        }
    }
}

/// The status bar's problems button label.
pub fn problems_label(errors: usize, warnings: usize) -> (s: String)
    requires
        errors + warnings <= usize::MAX,
    ensures
        s@ == spec_problems_label(errors as nat, warnings as nat),
{
    proof {
        reveal_strlit("NO PROBLEMS");
        reveal_strlit(" PROBLEM");
        reveal_strlit("S");
    }
    let total = errors + warnings;
    if total == 0 {
        return "NO PROBLEMS".to_owned();
    }
    let mut s = decimal(total as u128);
    s.append(" PROBLEM");
    if total != 1 {
        s.append("S");
    }
    proof {
        assert(s@ =~= spec_problems_label(errors as nat, warnings as nat));
    }
    s
}

/// The color role of the problems indicator.
#[derive(Clone, Copy, Debug, PartialEq, Eq, Structural)]
pub enum ProblemsTone {
    Danger,
    Warning,
    Success,
}

/// Red with any error, amber with only warnings, green when clean.
pub open spec fn spec_problems_tone(errors: nat, warnings: nat) -> ProblemsTone {
    if errors > 0 {
        ProblemsTone::Danger
    } else if warnings > 0 {
        ProblemsTone::Warning
    } else {
        ProblemsTone::Success
    }
}

/// The color role of the problems indicator.
pub fn problems_tone(errors: usize, warnings: usize) -> (t: ProblemsTone)
    ensures
        t == spec_problems_tone(errors as nat, warnings as nat),
{
    if errors > 0 {
        ProblemsTone::Danger
    } else if warnings > 0 {
        ProblemsTone::Warning
    } else {
        ProblemsTone::Success
    }
}

/// `"Problems — E error(s) · W warning(s)"`.
pub open spec fn spec_problems_header(errors: nat, warnings: nat) -> Seq<char> {
    seq!['P', 'r', 'o', 'b', 'l', 'e', 'm', 's', ' ', '\u{2014}', ' '] + dec_str(errors) + seq![
        ' ',
        'e',
        'r',
        'r',
        'o',
        'r',
    ] + (if errors == 1 { seq![] } else { seq!['s'] }) + seq![' ', '\u{b7}', ' '] + dec_str(warnings)
        + seq![' ', 'w', 'a', 'r', 'n', 'i', 'n', 'g'] + (if warnings == 1 {
        seq![]
    } else {
        seq!['s']
    })
}

/// The problems panel's header line.
pub fn problems_header(errors: usize, warnings: usize) -> (s: String)
    ensures
        s@ == spec_problems_header(errors as nat, warnings as nat),
{
    proof {
        reveal_strlit("Problems \u{2014} ");
        reveal_strlit(" error");
        reveal_strlit("s");
        reveal_strlit(" \u{b7} ");
        reveal_strlit(" warning");
    }
    let mut s = "Problems \u{2014} ".to_owned();
    s.append(decimal(errors as u128).as_str());
    s.append(" error");
    if errors != 1 {
        s.append("s");
    }
    s.append(" \u{b7} ");
    s.append(decimal(warnings as u128).as_str());
    s.append(" warning");
    if warnings != 1 {
        s.append("s");
    }
    proof {
        assert(s@ =~= spec_problems_header(errors as nat, warnings as nat));
    }
    s
}

/// A language server's in-flight progress report, already merged with
/// earlier reports of the same operation.
#[derive(Clone, Debug)]
pub struct LspProgressEntry {
    pub title: String,
    pub message: Option<String>,
    pub percentage: Option<u32>,
}

/// `"{title} — {message} (N%)"`, dropping whichever halves are absent.
pub open spec fn spec_progress_label(title: Seq<char>, message: Option<Seq<char>>, percentage: Option<u32>) -> Seq<char> {
    let with_msg = match message {
        Some(m) => title + seq![' ', '\u{2014}', ' '] + m,
        None => title,
    };
    match percentage {
        Some(p) => with_msg + seq![' ', '('] + dec_str(p as nat) + seq!['%', ')'],
        None => with_msg,
    }
}

/// The label of one in-flight progress operation.
pub fn progress_label(entry: &LspProgressEntry) -> (s: String)
    ensures
        s@ == spec_progress_label(
            entry.title@,
            match entry.message {
                Some(m) => Some(m@),
                None => None,
            },
            entry.percentage,
        ),
{
    proof {
        reveal_strlit(" \u{2014} ");
        reveal_strlit(" (");
        reveal_strlit("%)");
    }
    let mut s = entry.title.clone();
    if let Some(msg) = &entry.message {
        s.append(" \u{2014} ");
        s.append(msg.as_str());
    }
    if let Some(pct) = entry.percentage {
        s.append(" (");
        s.append(decimal(pct as u128).as_str());
        s.append("%)");
    }
    proof {
        assert(s@ =~= spec_progress_label(
            entry.title@,
            match entry.message {
                Some(m) => Some(m@),
                None => None,
            },
            entry.percentage,
        ));
    }
    s
}

/// `"Ln L, Col C"`, both counted from 1.
pub open spec fn spec_cursor_label(line: nat, col: nat) -> Seq<char> {
    seq!['L', 'n', ' '] + dec_str(line + 1) + seq![',', ' ', 'C', 'o', 'l', ' '] + dec_str(col + 1)
}

/// The status bar's cursor readout for a 0-based line and column.
pub fn cursor_label(line: usize, col: usize) -> (s: String)
    requires
        line < usize::MAX,
        col < usize::MAX,
    ensures
        s@ == spec_cursor_label(line as nat, col as nat),
{
    proof {
        reveal_strlit("Ln ");
        reveal_strlit(", Col ");
    }
    let mut s = "Ln ".to_owned();
    s.append(decimal((line + 1) as u128).as_str());
    s.append(", Col ");
    s.append(decimal((col + 1) as u128).as_str());
    proof {
        assert(s@ =~= spec_cursor_label(line as nat, col as nat));
    }
    s
}

/// `"path:L:C"`, line and column counted from 1.
pub open spec fn spec_location_label(shown: Seq<char>, line: nat, col: nat) -> Seq<char> {
    shown + seq![':'] + dec_str(line + 1) + seq![':'] + dec_str(col + 1)
}

/// The location of a diagnostic in the Problems panel, for a path already
/// shown relative to the project root.
pub fn location_label(shown: &str, pos: CursorPos) -> (s: String)
    requires
        pos.line < usize::MAX,
        pos.col < usize::MAX,
    ensures
        s@ == spec_location_label(shown@, pos.line as nat, pos.col as nat),
{
    proof {
        reveal_strlit(":");
    }
    let mut s = shown.to_owned();
    s.append(":");
    s.append(decimal((pos.line + 1) as u128).as_str());
    s.append(":");
    s.append(decimal((pos.col + 1) as u128).as_str());
    proof {
        assert(s@ =~= spec_location_label(shown@, pos.line as nat, pos.col as nat));
    }
    s
}

/// The location of a diagnostic of the file at `path`, shown relative to
/// the project `root`.
pub fn diagnostic_location(path: &str, root: &str, pos: CursorPos) -> (s: String)
    requires
        pos.line < usize::MAX,
        pos.col < usize::MAX,
    ensures
        s@ == spec_location_label(relative_display(path@, root@), pos.line as nat, pos.col as nat),
{
    let shown = relative_to(path, root);
    location_label(shown.as_str(), pos)
}

/// The branch shown for a repository: its name, or an em dash for a
/// detached head.
pub open spec fn branch_text(branch: Option<Seq<char>>) -> Seq<char> {
    match branch {
        Some(b) => b,
        None => seq!['\u{2014}'],
    }
}

/// The status bar's git summary: the branch, then `↑A ↓B` when the branch
/// is ahead of or behind its upstream, then `· N●` when N files changed.
pub open spec fn spec_git_label(branch: Option<Seq<char>>, dirty: nat, ahead_behind: Option<(nat, nat)>) -> Seq<
    char,
> {
    let b = branch_text(branch);
    let dirty_part = if dirty > 0 {
        seq![' ', '\u{b7}', ' '] + dec_str(dirty) + seq!['\u{25cf}']
    } else {
        seq![]
    };
    match ahead_behind {
        Some((ahead, behind)) if ahead > 0 || behind > 0 => b + seq![' ', '\u{2191}'] + dec_str(ahead) + seq![
            ' ',
            '\u{2193}',
        ] + dec_str(behind) + dirty_part,
        _ => b + dirty_part,
    }
}

fn branch_string(branch: Option<&str>) -> (s: String)
    ensures
        s@ == branch_text(
            match branch {
                Some(b) => Some(b@),
                None => None,
            },
        ),
{
    proof {
        reveal_strlit("\u{2014}");
    }
    match branch {
        Some(b) => b.to_owned(),
        None => "\u{2014}".to_owned(),
    }
}

/// The git indicator's label for a repository on `branch` (`None`: a
/// detached head) with `dirty` changed files.
pub fn git_label(branch: Option<&str>, dirty: usize, ahead_behind: Option<(usize, usize)>) -> (s: String)
    ensures
        s@ == spec_git_label(
            match branch {
                Some(b) => Some(b@),
                None => None,
            },
            dirty as nat,
            match ahead_behind {
                Some((a, b)) => Some((a as nat, b as nat)),
                None => None,
            },
        ),
{
    proof {
        reveal_strlit(" \u{2191}");
        reveal_strlit(" \u{2193}");
        reveal_strlit(" \u{b7} ");
        reveal_strlit("\u{25cf}");
    }
    let mut s = branch_string(branch);
    let ghost b = s@;
    match ahead_behind {
        Some((ahead, behind)) => {
            if ahead > 0 || behind > 0 {
                s.append(" \u{2191}");
                s.append(decimal(ahead as u128).as_str());
                s.append(" \u{2193}");
                s.append(decimal(behind as u128).as_str());
            }
        },
        None => {},
    }
    let ghost before_dirty = s@;
    if dirty > 0 {
        s.append(" \u{b7} ");
        s.append(decimal(dirty as u128).as_str());
        s.append("\u{25cf}");
    }
    proof {
        let dirty_part = if dirty > 0 {
            seq![' ', '\u{b7}', ' '] + dec_str(dirty as nat) + seq!['\u{25cf}']
        } else {
            seq![]
        };
        assert(s@ =~= before_dirty + dirty_part);
    }
    s
}

/// The git row of the background-tasks popover: `"No repository"` outside
/// one, else the branch, the changed-file count and, where known, how far
/// the branch is ahead of and behind its upstream.
pub open spec fn spec_git_task_detail(
    in_repo: bool,
    branch: Option<Seq<char>>,
    dirty: nat,
    ahead_behind: Option<(nat, nat)>,
) -> Seq<char> {
    if !in_repo {
        seq!['N', 'o', ' ', 'r', 'e', 'p', 'o', 's', 'i', 't', 'o', 'r', 'y']
    } else {
        let base = branch_text(branch) + seq![' ', '\u{b7}', ' '] + dec_str(dirty) + seq![
            ' ',
            'c',
            'h',
            'a',
            'n',
            'g',
            'e',
            'd',
        ];
        match ahead_behind {
            Some((ahead, behind)) => base + seq![' ', '\u{b7}', ' ', '\u{2191}'] + dec_str(ahead) + seq![
                ' ',
                '\u{2193}',
            ] + dec_str(behind),
            None => base,
        }
    }
}

/// The detail line of the background-tasks popover's git row.
pub fn git_task_detail(in_repo: bool, branch: Option<&str>, dirty: usize, ahead_behind: Option<(usize, usize)>) -> (s:
    String)
    ensures
        s@ == spec_git_task_detail(
            in_repo,
            match branch {
                Some(b) => Some(b@),
                None => None,
            },
            dirty as nat,
            match ahead_behind {
                Some((a, b)) => Some((a as nat, b as nat)),
                None => None,
            },
        ),
{
    proof {
        reveal_strlit("No repository");
        reveal_strlit(" \u{b7} ");
        reveal_strlit(" changed");
        reveal_strlit(" \u{b7} \u{2191}");
        reveal_strlit(" \u{2193}");
    }
    if !in_repo {
        return "No repository".to_owned();
    }
    let mut s = branch_string(branch);
    s.append(" \u{b7} ");
    s.append(decimal(dirty as u128).as_str());
    s.append(" changed");
    if let Some((ahead, behind)) = ahead_behind {
        s.append(" \u{b7} \u{2191}");
        s.append(decimal(ahead as u128).as_str());
        s.append(" \u{2193}");
        s.append(decimal(behind as u128).as_str());
    }
    s
}

/// How much of the mini progress bar is filled, in percent: the reported
/// percentage capped at 100, and none while progress is indeterminate.
pub fn progress_fill_percent(percentage: Option<u32>) -> (f: u32)
    ensures
        f == match percentage {
            Some(p) => if p <= 100 { p } else { 100 },
            None => 0,
        },
{
    match percentage {
        Some(p) => if p <= 100 { p } else { 100 },
        None => 0,
    }
}

} // verus!
