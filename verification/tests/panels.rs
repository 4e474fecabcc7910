use std::collections::HashSet;

use devscribe::diff::{
    diff_tab_title,
    hunk_shape, plan_rows, revert_prompt, selection_label, separator_label, word_spans_for_side, DiffLine, DiffLineKind,
    Hunk, RowPlan, WordSpan,
};
use devscribe::glyphs::{glyph, key_glyph, keycap_label, kind_tag, CompletionItemKind, CrumbKind, Key, ModifierGlyph};
use devscribe::signature::{find_first, signature_label_parts};
use devscribe::peek::{peek_header, peek_rows, reference_location, right_align, PeekRow};
use devscribe::search::{
    distinct_file_count, find_count_label, group_by_file, match_line_runs, replace_all_prompt, results_heading,
    search_body, search_placeholder, search_stats_label, SearchBody, SearchHit, SearchResult,
};
use devscribe::settings::{autosave_label, autosave_stepper, channel_value, int_stepper, with_channel};
use devscribe::sidebar::{
    ahead_behind_label, branch_label, change_totals, ctx_well_formed, delete_prompt, tree_rows_checked, changes_title, discard_prompt, disclosure_glyph, ChangesEntry,
    change_stats, draft_glyph, draft_placeholder, draft_renames, draft_targets_dir, kind_letter, node_view, ChangeKind,
    Draft, DraftKind, Node, Tone, TreeCtx, TreeRow, TreeRowKind,
};
use devscribe::status::{
    all_diagnostics, cursor_label, diagnostic_location, git_label, git_task_detail, location_label, problem_counts,
    progress_fill_percent, problems_header, problems_label, problems_tone, progress_label, CursorPos,
    DiagnosticSeverity, EditorDiagnostic, LspProgressEntry, OpenTab, ProblemsTone,
};

fn s(x: &str) -> String {
    x.to_string()
}

fn dl(kind: DiffLineKind, text: &str) -> DiffLine {
    DiffLine { kind, text: s(text), old_line: None, new_line: None }
}

fn equal_lines(n: usize) -> Vec<DiffLine> {
    (0..n).map(|i| dl(DiffLineKind::Equal, &format!("e{i}"))).collect()
}

fn plan_shape(plan: &[RowPlan]) -> Vec<String> {
    plan.iter()
        .map(|r| match r {
            RowPlan::Context(l) => l.text.clone(),
            RowPlan::Separator(n) => format!("sep{n}"),
            RowPlan::Hunk { lines, hunk_id, selected } => format!("hunk{hunk_id}:{}:{selected}", lines.len()),
        })
        .collect()
}

#[test]
fn plan_rows_keeps_context_near_hunks_and_collapses_the_rest() {
    let mut lines = equal_lines(20);
    lines[10] = dl(DiffLineKind::Delete, "old");
    lines[11] = dl(DiffLineKind::Insert, "new");
    let hunks = vec![Hunk { range: 10..12 }];
    let selected: HashSet<usize> = [10].into_iter().collect();
    let plan = plan_rows(&lines, &hunks, &selected);
    assert_eq!(
        plan_shape(&plan),
        vec!["sep7", "e7", "e8", "e9", "hunk10:2:true", "e12", "e13", "e14", "sep5"]
    );
}

#[test]
fn plan_rows_without_hunks_collapses_everything() {
    let lines = equal_lines(4);
    let plan = plan_rows(&lines, &[], &HashSet::new());
    assert_eq!(plan_shape(&plan), vec!["sep4"]);
    assert!(plan_rows(&[], &[], &HashSet::new()).is_empty());
}

#[test]
fn plan_rows_shows_short_gaps_in_full() {
    // A gap of six lines between hunks: three trailing + three leading
    // context lines cover it, nothing is collapsed.
    let mut lines = equal_lines(8);
    lines[0] = dl(DiffLineKind::Insert, "a");
    lines[7] = dl(DiffLineKind::Delete, "b");
    let hunks = vec![Hunk { range: 0..1 }, Hunk { range: 7..8 }];
    let plan = plan_rows(&lines, &hunks, &HashSet::new());
    assert_eq!(plan_shape(&plan), vec!["hunk0:1:false", "e1", "e2", "e3", "e4", "e5", "e6", "hunk7:1:false"]);
    // One line more than that is hidden behind a one-line separator.
    let mut lines = equal_lines(9);
    lines[0] = dl(DiffLineKind::Insert, "a");
    lines[8] = dl(DiffLineKind::Delete, "b");
    let hunks = vec![Hunk { range: 0..1 }, Hunk { range: 8..9 }];
    let plan = plan_rows(&lines, &hunks, &HashSet::new());
    assert_eq!(plan_shape(&plan), vec!["hunk0:1:false", "e1", "e2", "e3", "sep1", "e5", "e6", "e7", "hunk8:1:false"]);
}

#[test]
fn hunk_shape_pairs_deletes_with_inserts() {
    let lines = vec![
        dl(DiffLineKind::Delete, "a"),
        dl(DiffLineKind::Delete, "b"),
        dl(DiffLineKind::Insert, "c"),
    ];
    let shape = hunk_shape(&lines);
    assert_eq!((shape.n_delete, shape.n_insert, shape.paired), (2, 1, 1));
    let shape = hunk_shape(&[]);
    assert_eq!((shape.n_delete, shape.n_insert, shape.paired), (0, 0, 0));
}

#[test]
fn word_spans_keep_one_side() {
    let spans = vec![
        WordSpan { kind: DiffLineKind::Equal, text: s("let ") },
        WordSpan { kind: DiffLineKind::Delete, text: s("x") },
        WordSpan { kind: DiffLineKind::Insert, text: s("y") },
        WordSpan { kind: DiffLineKind::Equal, text: s(" = 1;") },
    ];
    assert_eq!(
        word_spans_for_side(&spans, DiffLineKind::Delete),
        vec![(false, s("let ")), (true, s("x")), (false, s(" = 1;"))]
    );
    assert_eq!(
        word_spans_for_side(&spans, DiffLineKind::Insert),
        vec![(false, s("let ")), (true, s("y")), (false, s(" = 1;"))]
    );
}

#[test]
fn diff_labels_pluralize() {
    assert_eq!(separator_label(1), "\u{22ef} 1 unchanged line \u{22ef}");
    assert_eq!(separator_label(12), "\u{22ef} 12 unchanged lines \u{22ef}");
    assert_eq!(selection_label(0), "No changes selected");
    assert_eq!(selection_label(1), "1 change selected");
    assert_eq!(selection_label(3), "3 changes selected");
    assert_eq!(revert_prompt(2), "Revert 2 selected changes?");
    assert_eq!(revert_prompt(1), "Revert 1 selected change?");
}

fn result(path: &str, line: usize) -> SearchResult {
    SearchResult {
        path: s(path),
        hit: SearchHit { line, col: 0, preview: s("x"), preview_col: 0 },
        query_len_chars: 1,
    }
}

#[test]
fn group_by_file_groups_runs_of_equal_paths() {
    let results = vec![result("src/a.rs", 1), result("src//a.rs", 2), result("src/b.rs", 3), result("src/a.rs", 4)];
    let groups = group_by_file(&results);
    let shape: Vec<(String, Vec<usize>)> =
        groups.iter().map(|(p, rs)| (p.to_string(), rs.iter().map(|r| r.hit.line).collect())).collect();
    assert_eq!(
        shape,
        vec![(s("src/a.rs"), vec![1, 2]), (s("src/b.rs"), vec![3]), (s("src/a.rs"), vec![4])]
    );
}

#[test]
fn match_line_runs_split_around_the_match() {
    assert_eq!(match_line_runs("let x = 1", 4, 1), vec![(false, s("let ")), (true, s("x")), (false, s(" = 1"))]);
    assert_eq!(match_line_runs("日本語", 1, 5), vec![(false, s("日")), (true, s("本語"))]);
    assert_eq!(match_line_runs("abc", 0, 3), vec![(true, s("abc"))]);
    assert_eq!(match_line_runs("abc", 7, 2), vec![(false, s("abc"))]);
    assert_eq!(match_line_runs("abc", 1, 0), vec![(false, s("abc"))]);
    assert_eq!(match_line_runs("", 0, 0), vec![(false, s(""))]);
}

#[test]
fn find_count_label_readouts() {
    assert_eq!(find_count_label(true, 0, 3, false), "");
    assert_eq!(find_count_label(false, 0, 0, false), "No results");
    assert_eq!(find_count_label(false, 1, 3, false), "2 of 3");
    assert_eq!(find_count_label(false, 0, 3, true), "1 of 3 (wrapped)");
}

fn draft(kind: DraftKind, dir: &str, target: Option<&str>) -> Draft {
    Draft { kind, dir: s(dir), target: target.map(s), text: String::new() }
}

#[test]
fn drafts_target_directories_or_rename_nodes() {
    assert_eq!(draft_glyph(DraftKind::NewFolder), "DIR");
    assert_eq!(draft_placeholder(DraftKind::NewFile), "filename.rs");
    assert_eq!(draft_placeholder(DraftKind::Rename), "new name");
    let new_file = draft(DraftKind::NewFile, "/p/src", None);
    assert!(draft_targets_dir(Some(&new_file), "/p/src"));
    assert!(draft_targets_dir(Some(&new_file), "/p/src/"));
    assert!(!draft_targets_dir(Some(&new_file), "/p"));
    assert!(!draft_targets_dir(None, "/p/src"));
    let rename = draft(DraftKind::Rename, "/p", Some("/p/a.rs"));
    assert!(!draft_targets_dir(Some(&rename), "/p"));
    assert!(draft_renames(Some(&rename), "/p/a.rs"));
    assert!(!draft_renames(Some(&rename), "/p/b.rs"));
    assert!(!draft_renames(Some(&new_file), "/p/src"));
}

#[test]
fn change_badges() {
    assert_eq!(kind_letter(ChangeKind::Modified), ("M", Tone::Warning));
    assert_eq!(kind_letter(ChangeKind::Deleted), ("D", Tone::Danger));
    assert_eq!(change_stats(3, 0), vec![(true, s("+3"))]);
    assert_eq!(change_stats(3, 12), vec![(true, s("+3")), (false, s("\u{2212}12"))]);
    assert!(change_stats(0, 0).is_empty());
}

fn file(name: &str, path: &str) -> Node {
    let badge = if name.ends_with(".rs") { "RS" } else { "MD" };
    Node::File { name: s(name), path: s(path), badge: s(badge) }
}

#[test]
fn node_view_lists_the_tree_with_drafts() {
    let tree = Node::Dir {
        name: s("p"),
        path: s("/p"),
        children: vec![
            Node::Dir { name: s("src"), path: s("/p/src"), children: vec![file("a.rs", "/p/src/a.rs")] },
            Node::Dir { name: s("docs"), path: s("/p/docs"), children: vec![file("x.md", "/p/docs/x.md")] },
            file("b.rs", "/p/b.rs"),
        ],
    };
    let ctx = TreeCtx {
        selected: Some(s("/p/b.rs")),
        collapsed_dirs: vec![s("/p/docs")],
        changes: vec![(s("/p/src/a.rs"), ChangeKind::Added)],
        draft: Some(draft(DraftKind::NewFile, "/p/src", None)),
    };
    let mut out = Vec::new();
    node_view(&tree, 0, &ctx, &mut out);
    let dir = |d, n: &str, p: &str, c| TreeRow { depth: d, kind: TreeRowKind::Dir { name: s(n), path: s(p), collapsed: c } };
    let f = |d, n: &str, p: &str, sel, ch| TreeRow {
        depth: d,
        kind: TreeRowKind::File { name: s(n), path: s(p), badge: s("RS"), selected: sel, change: ch },
    };
    assert_eq!(
        out,
        vec![
            dir(0, "p", "/p", false),
            dir(1, "src", "/p/src", false),
            TreeRow { depth: 2, kind: TreeRowKind::Draft },
            f(2, "a.rs", "/p/src/a.rs", false, Some(ChangeKind::Added)),
            dir(1, "docs", "/p/docs", true),
            f(1, "b.rs", "/p/b.rs", true, None),
        ]
    );
    let rename = TreeCtx { draft: Some(draft(DraftKind::Rename, "/p", Some("/p/src"))), ..ctx };
    let mut out = Vec::new();
    node_view(&tree, 0, &rename, &mut out);
    assert_eq!(out[1], TreeRow { depth: 1, kind: TreeRowKind::Draft });
    assert_eq!(out.len(), 4);
}

fn diag(sev: DiagnosticSeverity) -> EditorDiagnostic {
    EditorDiagnostic { start: CursorPos { line: 0, col: 0 }, end: CursorPos { line: 0, col: 1 }, severity: sev, message: s("m") }
}

#[test]
fn problems_are_tallied_across_open_files() {
    let tabs = vec![
        OpenTab::File { path: s("/a"), diagnostics: vec![diag(DiagnosticSeverity::Error), diag(DiagnosticSeverity::Hint)] },
        OpenTab::Chat,
        OpenTab::File { path: s("/b"), diagnostics: vec![diag(DiagnosticSeverity::Warning)] },
        OpenTab::Diff(s("/a")),
    ];
    let all = all_diagnostics(&tabs);
    let paths: Vec<&str> = all.iter().map(|(p, _)| *p).collect();
    assert_eq!(paths, vec!["/a", "/a", "/b"]);
    assert_eq!(problem_counts(&all), (1, 1));
    assert_eq!(problems_label(1, 1), "2 PROBLEMS");
    assert_eq!(problems_label(0, 1), "1 PROBLEM");
    assert_eq!(problems_label(0, 0), "NO PROBLEMS");
    assert_eq!(problems_tone(1, 0), ProblemsTone::Danger);
    assert_eq!(problems_tone(0, 4), ProblemsTone::Warning);
    assert_eq!(problems_tone(0, 0), ProblemsTone::Success);
    assert_eq!(problems_header(1, 2), "Problems \u{2014} 1 error \u{b7} 2 warnings");
    assert_eq!(problems_header(0, 1), "Problems \u{2014} 0 errors \u{b7} 1 warning");
}

#[test]
fn progress_label_drops_missing_halves() {
    let e = |m: Option<&str>, p| LspProgressEntry { title: s("Indexing"), message: m.map(s), percentage: p };
    assert_eq!(progress_label(&e(Some("crates"), Some(40))), "Indexing \u{2014} crates (40%)");
    assert_eq!(progress_label(&e(Some("crates"), None)), "Indexing \u{2014} crates");
    assert_eq!(progress_label(&e(None, Some(7))), "Indexing (7%)");
    assert_eq!(progress_label(&e(None, None)), "Indexing");
}

#[test]
fn autosave_settings() {
    assert_eq!(autosave_label(0), "Off");
    assert_eq!(autosave_label(30), "30s");
    assert_eq!(autosave_label(300), "5m");
    assert_eq!(autosave_label(90), "90s");
    let st = autosave_stepper(30);
    assert_eq!((st.dec, st.inc, st.dec_enabled, st.inc_enabled), (0, 60, true, true));
    let st = autosave_stepper(0);
    assert_eq!((st.dec, st.inc, st.dec_enabled, st.inc_enabled), (0, 30, false, true));
    let st = autosave_stepper(300);
    assert_eq!((st.dec, st.inc, st.dec_enabled, st.inc_enabled), (60, 300, true, false));
    let st = autosave_stepper(45);
    assert_eq!((st.dec, st.inc, st.dec_enabled, st.inc_enabled), (0, 30, false, true));
    // Up then down comes back.
    assert_eq!(autosave_stepper(autosave_stepper(60).inc).dec, 60);
}

#[test]
fn int_stepper_saturates_and_clamps() {
    let st = int_stepper(4, 2, 1, 8);
    assert_eq!((st.dec, st.inc, st.dec_enabled, st.inc_enabled), (2, 6, true, true));
    let st = int_stepper(1, 2, 1, 8);
    assert_eq!((st.dec, st.inc, st.dec_enabled, st.inc_enabled), (1, 3, false, true));
    let st = int_stepper(u32::MAX, 5, 1, u32::MAX);
    assert_eq!((st.dec, st.inc, st.inc_enabled), (u32::MAX - 5, u32::MAX, false));
}

#[test]
fn glyph_tables() {
    assert_eq!(kind_tag(Some(CompletionItemKind::Method)), Some("m"));
    assert_eq!(kind_tag(Some(CompletionItemKind::Constructor)), Some("f"));
    assert_eq!(kind_tag(Some(CompletionItemKind::Struct)), Some("c"));
    assert_eq!(kind_tag(Some(CompletionItemKind::EnumMember)), Some("em"));
    assert_eq!(kind_tag(Some(CompletionItemKind::Folder)), None);
    assert_eq!(kind_tag(None), None);
    assert_eq!(glyph(CrumbKind::Function), "\u{192}");
    assert_eq!(glyph(CrumbKind::Conditional), "?");
}

#[test]
fn key_caps_spell_or_draw_modifiers() {
    assert_eq!(keycap_label(Key::Primary), "Ctrl");
    assert_eq!(keycap_label(Key::Control), "Ctrl");
    assert_eq!(keycap_label(Key::Shift), "Shift");
    assert_eq!(keycap_label(Key::Alt), "Alt");
    assert_eq!(keycap_label(Key::Lit("F12")), "F12");
    assert_eq!(key_glyph(Key::Primary), Some(ModifierGlyph::Command));
    assert_eq!(key_glyph(Key::Alt), Some(ModifierGlyph::Option));
    assert_eq!(key_glyph(Key::Control), Some(ModifierGlyph::Control));
    assert_eq!(key_glyph(Key::Shift), Some(ModifierGlyph::Shift));
    assert_eq!(key_glyph(Key::Lit("K")), None);
}

#[test]
fn signature_label_splits_around_active_parameter() {
    let label = "fn foo(a: i32, b: u8) -> é";
    assert_eq!(
        signature_label_parts(label, Some("b: u8")),
        Some((s("fn foo(a: i32, "), s("b: u8"), s(") -> é")))
    );
    assert_eq!(signature_label_parts(label, Some("c: bool")), None);
    assert_eq!(signature_label_parts(label, None), None);
    // the first occurrence wins
    assert_eq!(signature_label_parts("x, x", Some("x")), Some((s(""), s("x"), s(", x"))));
    assert_eq!(find_first("héllo héllo", "llo"), Some(2));
    assert_eq!(find_first("abc", ""), Some(0));
    assert_eq!(find_first("ab", "abc"), None);
}

#[test]
fn status_bar_labels() {
    assert_eq!(cursor_label(0, 0), "Ln 1, Col 1");
    assert_eq!(cursor_label(41, 9), "Ln 42, Col 10");
    let pos = CursorPos { line: 4, col: 0 };
    assert_eq!(location_label("src/main.rs", pos), "src/main.rs:5:1");
    assert_eq!(diagnostic_location("/p/src/a.rs", "/p", pos), "src/a.rs:5:1");
    assert_eq!(diagnostic_location("/q/a.rs", "/p", pos), "/q/a.rs:5:1");
    assert_eq!(git_label(Some("main"), 0, None), "main");
    assert_eq!(git_label(Some("main"), 0, Some((0, 0))), "main");
    assert_eq!(git_label(Some("main"), 3, Some((1, 0))), "main \u{2191}1 \u{2193}0 \u{b7} 3\u{25cf}");
    assert_eq!(git_label(None, 2, Some((0, 0))), "\u{2014} \u{b7} 2\u{25cf}");
    assert_eq!(git_task_detail(false, Some("main"), 1, None), "No repository");
    assert_eq!(git_task_detail(true, Some("dev"), 2, Some((1, 2))), "dev \u{b7} 2 changed \u{b7} \u{2191}1 \u{2193}2");
    assert_eq!(git_task_detail(true, None, 0, None), "\u{2014} \u{b7} 0 changed");
    assert_eq!(progress_fill_percent(Some(150)), 100);
    assert_eq!(progress_fill_percent(Some(40)), 40);
    assert_eq!(progress_fill_percent(None), 0);
}

#[test]
fn search_panel_labels() {
    assert_eq!(replace_all_prompt(1), "Replace 1 match?");
    assert_eq!(replace_all_prompt(0), "Replace 0 matches?");
    assert_eq!(replace_all_prompt(12), "Replace 12 matches?");
    assert_eq!(search_stats_label(7, 2, 13), "7 MATCHES // 2 FILES // 13 MS");
    assert_eq!(results_heading("foo"), "Results for \u{201c}foo\u{201d}");
    let results = vec![result("src/a.rs", 1), result("src/a.rs", 4), result("src/b.rs", 2), result("src//a.rs", 9)];
    // `src//a.rs` names the same file as `src/a.rs`
    assert_eq!(distinct_file_count(&results), 2);
    assert_eq!(distinct_file_count(&[]), 0);
}

#[test]
fn search_body_follows_the_query() {
    assert_eq!(search_body("", "foo", true, true), SearchBody::Hint);
    assert_eq!(search_body("foo", "fo", true, false), SearchBody::Searching);
    assert_eq!(search_body("foo", "fo", false, true), SearchBody::Pending);
    assert_eq!(search_body("foo", "foo", false, false), SearchBody::NoMatches);
    assert_eq!(search_body("foo", "foo", false, true), SearchBody::Results);
    assert_eq!(search_placeholder(SearchBody::Hint, "q"), Some(s("Type to search project files")));
    assert_eq!(search_placeholder(SearchBody::Searching, "q"), Some(s("Searching for \u{201c}q\u{201d}\u{2026}")));
    assert_eq!(search_placeholder(SearchBody::Pending, "q"), Some(s("Press Enter to search for \u{201c}q\u{201d} now")));
    assert_eq!(search_placeholder(SearchBody::NoMatches, "q"), Some(s("No matches for \u{201c}q\u{201d}")));
    assert_eq!(search_placeholder(SearchBody::Results, "q"), None);
}

#[test]
fn changes_panel_labels() {
    let entries = vec![
        ChangesEntry { path: s("a.rs"), kind: ChangeKind::Modified, insertions: 3, deletions: 1 },
        ChangesEntry { path: s("b.rs"), kind: ChangeKind::Added, insertions: 10, deletions: 0 },
        ChangesEntry { path: s("c.rs"), kind: ChangeKind::Deleted, insertions: 0, deletions: 7 },
    ];
    assert_eq!(change_totals(&entries), (13, 8));
    assert_eq!(change_totals(&[]), (0, 0));
    assert_eq!(changes_title(3), "CHANGES [3]");
    assert_eq!(disclosure_glyph(true), "\u{25be}");
    assert_eq!(disclosure_glyph(false), "\u{25b8}");
    assert_eq!(branch_label(Some("main")), "main");
    assert_eq!(branch_label(None), "detached HEAD");
    assert_eq!(ahead_behind_label(2, 0), "\u{25b2}2 \u{25bc}0");
    assert_eq!(discard_prompt("lib.rs"), "Discard changes to lib.rs?");
}

#[test]
fn peek_numbers_lines_and_marks_target() {
    let lines = vec![s("fn a() {"), s("    b()"), s("}")];
    let rows = peek_rows(8, 9, &lines);
    assert_eq!(
        rows,
        vec![
            PeekRow { number: s("   9"), text: s("fn a() {"), is_target: false },
            PeekRow { number: s("  10"), text: s("    b()"), is_target: true },
            PeekRow { number: s("  11"), text: s("}"), is_target: false },
        ]
    );
    assert_eq!(peek_rows(12344, 0, &[s("x")])[0].number, "12345");
    assert_eq!(right_align("ab", 4), "  ab");
    assert_eq!(right_align("abcdef", 4), "abcdef");
    assert_eq!(peek_header("/p/src/lib.rs", 41), "lib.rs:42");
    assert_eq!(reference_location("/p/src/lib.rs", "/p", 0), "src/lib.rs:1");
}

#[test]
fn file_names_in_prompts_and_titles() {
    assert_eq!(diff_tab_title("/p/src/main.rs"), "main.rs \u{2194} HEAD");
    assert_eq!(diff_tab_title("/"), " \u{2194} HEAD");
    assert_eq!(delete_prompt(true), "Delete this folder and everything in it?");
    assert_eq!(delete_prompt(false), "Delete this file?");
}

#[test]
fn accent_channel_sliders() {
    let draft = (10, 20, 30);
    assert_eq!(channel_value(draft, 0), 10);
    assert_eq!(channel_value(draft, 1), 20);
    assert_eq!(channel_value(draft, 2), 30);
    assert_eq!(channel_value(draft, 9), 30);
    let moved = with_channel(draft, 1, 200);
    assert_eq!(moved, (10, 200, 30));
    assert_eq!(channel_value(moved, 1), 200);
    assert_eq!(with_channel(draft, 0, 0), (0, 20, 30));
    assert_eq!(with_channel(draft, 7, 255), (10, 20, 255));
}

#[test]
fn groups_count_path_changes() {
    let scattered = vec![result("a.rs", 1), result("b.rs", 1), result("a.rs", 2)];
    assert_eq!(group_by_file(&scattered).len(), 3);
    let contiguous = vec![result("src/a.rs", 1), result("src//a.rs", 2), result("b.rs", 1)];
    let groups = group_by_file(&contiguous);
    assert_eq!(groups.len(), 2);
    assert_eq!(groups[0].0, "src/a.rs");
    assert_eq!(groups[1].0, "b.rs");
}

#[test]
fn tree_rows_check_the_context_first() {
    let tree = Node::Dir { name: s("p"), path: s("/p"), children: vec![file("a.rs", "/p/a.rs")] };
    let ok = TreeCtx { selected: None, collapsed_dirs: vec![s("/q")], changes: vec![(s("/p/a.rs"), ChangeKind::Modified)], draft: None };
    assert!(ctx_well_formed(&ok));
    let rows = tree_rows_checked(&tree, &ok).unwrap();
    assert_eq!(rows.len(), 2);
    let twice = TreeCtx { changes: vec![(s("/p/a.rs"), ChangeKind::Modified), (s("/p//a.rs"), ChangeKind::Added)], ..ok.clone() };
    assert!(!ctx_well_formed(&twice));
    assert_eq!(tree_rows_checked(&tree, &twice), None);
    let folded_twice = TreeCtx { collapsed_dirs: vec![s("/q"), s("/q/")], ..ok };
    assert_eq!(tree_rows_checked(&tree, &folded_twice), None);
}
