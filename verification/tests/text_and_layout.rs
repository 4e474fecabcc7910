use devscribe::layout::{
    cell_at_row, visual_row_of, wrapped_row_of,
    gutter_label, lens_col, lens_diagnostic, lens_text,
    drawn_rows, row_segments, skip_spans_ending_by,
    cursor_in_row, diagnostic_cols, line_at_row, match_cols, row_of_byte, selection_cols, visible_lines,
};
use devscribe::ruler::{ruler_update, RulerAction, RulerEvent};
use devscribe::status::{CursorPos, DiagnosticSeverity, EditorDiagnostic};
use devscribe::text::{byte_len, char_width, chars_of, decimal, is_white_char, str_eq, text_lines};
use devscribe::wrap::wrap_row_offsets;

#[test]
fn decimal_renders_without_leading_zeros() {
    assert_eq!(decimal(0), "0");
    assert_eq!(decimal(7), "7");
    assert_eq!(decimal(1200), "1200");
    assert_eq!(decimal(u64::MAX as u128), u64::MAX.to_string());
    assert_eq!(decimal(u128::MAX), u128::MAX.to_string());
}

#[test]
fn text_lines_matches_str_lines() {
    for s in ["", "a", "a\n", "a\nb", "a\r\nb\r\n", "\n", "\n\n", "x\ry", "end\r", "a\r\r\nb"] {
        let expected: Vec<String> = s.lines().map(|l| l.to_string()).collect();
        assert_eq!(text_lines(s), expected, "{s:?}");
    }
}

#[test]
fn char_helpers_agree_with_std() {
    assert_eq!(chars_of("a日b"), vec!['a', '日', 'b']);
    assert_eq!(byte_len("a日b"), "a日b".len());
    for c in ['a', 'é', '日', '😀'] {
        assert_eq!(char_width(c), c.len_utf8());
    }
    for c in [' ', '\t', '\n', '\u{a0}', '\u{3000}', 'a', '_', '\u{200b}'] {
        assert_eq!(is_white_char(c), c.is_whitespace(), "{c:?}");
    }
    assert!(str_eq("abc", "abc"));
    assert!(!str_eq("abc", "abd"));
}

#[test]
fn row_of_byte_picks_the_last_row_starting_at_or_before() {
    let starts = [0usize, 5, 9];
    assert_eq!(row_of_byte(&starts, 0), 0);
    assert_eq!(row_of_byte(&starts, 4), 0);
    assert_eq!(row_of_byte(&starts, 5), 1);
    assert_eq!(row_of_byte(&starts, 100), 2);
}

#[test]
fn line_at_row_finds_the_owning_line_and_clamps() {
    // Three lines taking 1, 3 and 2 rows.
    let offsets = [0u32, 1, 4, 6];
    assert_eq!(line_at_row(&offsets, 0, 3), 0);
    assert_eq!(line_at_row(&offsets, 1, 3), 1);
    assert_eq!(line_at_row(&offsets, 3, 3), 1);
    assert_eq!(line_at_row(&offsets, 5, 3), 2);
    assert_eq!(line_at_row(&offsets, 6, 3), 2);
}

#[test]
fn visible_lines_maps_rows_to_lines() {
    let offsets = [0u32, 1, 4, 6];
    assert_eq!(visible_lines(false, &offsets, 2, 9, 3), (2, 9));
    assert_eq!(visible_lines(true, &offsets, 2, 5, 3), (1, 3));
    assert_eq!(visible_lines(true, &offsets, 0, 1, 3), (0, 1));
}

#[test]
fn row_offsets_are_sorted_for_the_row_lookups() {
    let lines: Vec<String> = vec!["ab cd ef".into(), "".into(), "x".into()];
    let offsets = wrap_row_offsets(&lines, 3);
    assert_eq!(offsets, vec![0, 3, 4, 5]);
    assert_eq!(line_at_row(&offsets, 2, 3), 0);
    assert_eq!(line_at_row(&offsets, 3, 3), 1);
}

#[test]
fn diagnostic_cols_clip_to_the_row() {
    let s = CursorPos { line: 2, col: 4 };
    let e = CursorPos { line: 2, col: 10 };
    assert_eq!(diagnostic_cols(s, e, 2, 20, 0, 8), Some((4, 8)));
    assert_eq!(diagnostic_cols(s, e, 2, 20, 8, 16), Some((8, 10)));
    assert_eq!(diagnostic_cols(s, e, 2, 20, 10, 16), None);
    assert_eq!(diagnostic_cols(s, e, 3, 20, 0, 8), None);
    // A zero-width diagnostic still underlines one column.
    let z = CursorPos { line: 1, col: 3 };
    assert_eq!(diagnostic_cols(z, z, 1, 5, 0, 5), Some((3, 4)));
    // Spanning past the line: the whole rest of it.
    let far = CursorPos { line: 4, col: 0 };
    assert_eq!(diagnostic_cols(s, far, 3, 7, 0, 7), Some((0, 7)));
}

#[test]
fn caret_sits_at_the_end_only_on_the_last_row() {
    assert!(cursor_in_row(true, 5, 0, 5, true));
    assert!(!cursor_in_row(true, 5, 0, 5, false));
    assert!(cursor_in_row(true, 5, 5, 9, false));
    assert!(!cursor_in_row(false, 2, 0, 5, true));
}

#[test]
fn selection_and_match_columns() {
    assert_eq!(selection_cols(Some((3, 12)), 10, 16, 5, true), Some((0, 2)));
    assert_eq!(selection_cols(Some((3, 30)), 10, 16, 5, true), Some((0, 6)));
    assert_eq!(selection_cols(Some((3, 30)), 10, 15, 5, false), Some((0, 5)));
    assert_eq!(selection_cols(Some((16, 30)), 10, 16, 5, true), None);
    assert_eq!(selection_cols(None, 10, 16, 5, true), None);
    assert_eq!(match_cols(12, 14, 10, 15, 5), Some((2, 4)));
    assert_eq!(match_cols(12, 40, 10, 15, 5), Some((2, 5)));
    assert_eq!(match_cols(15, 40, 10, 15, 5), None);
}

#[test]
fn drawn_rows_add_overscan_within_document() {
    assert_eq!(drawn_rows(0, 20, 100), (0, 28));
    assert_eq!(drawn_rows(50, 20, 100), (42, 78));
    assert_eq!(drawn_rows(90, 20, 100), (82, 100));
    assert_eq!(drawn_rows(3, 5, 4), (0, 4));
}

#[test]
fn highlight_spans_clip_to_rows() {
    // spans over a document whose line starts at byte 10
    let spans = vec![(0, 4), (8, 12), (12, 15), (16, 30), (40, 45)];
    let from = skip_spans_ending_by(&spans, 0, 10);
    assert_eq!(from, 1);
    // first visual row of the line: bytes 10..20
    assert_eq!(row_segments(&spans, from, 10, 20, 10), vec![(1, 0, 2), (2, 2, 5), (3, 6, 10)]);
    // second visual row: bytes 20..35; the walk stops at the span starting at 40
    assert_eq!(row_segments(&spans, from, 20, 35, 10), vec![(3, 10, 20)]);
    assert_eq!(skip_spans_ending_by(&spans, 1, 100), 5);
    assert_eq!(row_segments(&spans, 5, 20, 35, 10), vec![]);
}

fn diag(start: (usize, usize), end: (usize, usize), message: &str) -> EditorDiagnostic {
    EditorDiagnostic {
        start: CursorPos { line: start.0, col: start.1 },
        end: CursorPos { line: end.0, col: end.1 },
        severity: DiagnosticSeverity::Warning,
        message: message.to_string(),
    }
}

#[test]
fn lens_shows_the_first_diagnostic_on_the_last_row() {
    let diags = vec![diag((0, 0), (0, 2), "a"), diag((2, 1), (4, 0), "b"), diag((3, 0), (3, 1), "c")];
    assert_eq!(lens_diagnostic(&diags, 3, true, true), Some(1));
    assert_eq!(lens_diagnostic(&diags, 0, true, true), Some(0));
    assert_eq!(lens_diagnostic(&diags, 1, true, true), None);
    assert_eq!(lens_diagnostic(&diags, 3, false, true), None);
    assert_eq!(lens_diagnostic(&diags, 3, true, false), None);
    assert_eq!(lens_text("unused variable"), "// unused variable");
    assert_eq!(lens_col(10, 25), 18);
}

#[test]
fn gutter_shows_revert_or_line_number_on_first_row() {
    assert_eq!(gutter_label(4, 0, None, true), Some("5".to_string()));
    assert_eq!(gutter_label(4, 0, None, false), None);
    assert_eq!(gutter_label(4, 0, Some(4), false), Some("Revert".to_string()));
    assert_eq!(gutter_label(4, 0, Some(3), true), Some("5".to_string()));
    assert_eq!(gutter_label(4, 1, Some(4), true), None);
}

#[test]
fn ruler_scrolls_while_dragging() {
    let mut dragging = false;
    assert_eq!(ruler_update(&mut dragging, RulerEvent::CursorMoved { inside: true }), None);
    assert_eq!(ruler_update(&mut dragging, RulerEvent::LeftPressed { inside: false }), None);
    assert!(!dragging);
    assert_eq!(
        ruler_update(&mut dragging, RulerEvent::LeftPressed { inside: true }),
        Some(RulerAction::ScrollToPointer { clamped: false })
    );
    assert!(dragging);
    assert_eq!(
        ruler_update(&mut dragging, RulerEvent::CursorMoved { inside: true }),
        Some(RulerAction::ScrollToPointer { clamped: true })
    );
    assert_eq!(ruler_update(&mut dragging, RulerEvent::CursorMoved { inside: false }), None);
    assert!(dragging);
    assert_eq!(ruler_update(&mut dragging, RulerEvent::Other), None);
    assert_eq!(ruler_update(&mut dragging, RulerEvent::LeftReleased), None);
    assert!(!dragging);
    assert_eq!(ruler_update(&mut dragging, RulerEvent::CursorMoved { inside: true }), None);
}

#[test]
fn wrapped_rows_and_cells() {
    // "ab cdef" at 5 columns wraps as "ab " | "cdef"
    assert_eq!(wrapped_row_of("ab cdef", 5, 0), (0, 0));
    assert_eq!(wrapped_row_of("ab cdef", 5, 2), (0, 0));
    assert_eq!(wrapped_row_of("ab cdef", 5, 3), (1, 3));
    assert_eq!(wrapped_row_of("ab cdef", 5, 99), (1, 3));
    // multibyte: "日本語" at 2 columns wraps as "日本" | "語"
    assert_eq!(wrapped_row_of("日本語", 2, 2), (1, 2));
    let lines = vec!["ab cdef".to_string(), "x".to_string(), "日本語".to_string()];
    let offsets = wrap_row_offsets(&lines, 5);
    assert_eq!(offsets, vec![0, 2, 3, 4]);
    assert_eq!(visual_row_of(&lines, &offsets, 5, 0, 4), 1);
    assert_eq!(visual_row_of(&lines, &offsets, 5, 1, 0), 2);
    assert_eq!(visual_row_of(&lines, &offsets, 5, 7, 0), 0);
    // row 1 is "cdef" of line 0; column 2 into it is char 5
    assert_eq!(cell_at_row(&lines, &offsets, 1, 2, 5), (0, 5));
    // columns past a row's end stop at it
    assert_eq!(cell_at_row(&lines, &offsets, 0, 9, 5), (0, 3));
    assert_eq!(cell_at_row(&lines, &offsets, 2, 9, 5), (1, 1));
    assert_eq!(cell_at_row(&lines, &offsets, 3, 1, 5), (2, 1));
    // rows past the document land on its last line
    assert_eq!(cell_at_row(&lines, &offsets, 9, 0, 5), (2, 0));
    assert_eq!(cell_at_row(&vec![], &[], 0, 3, 5), (0, 0));
}
