use devscribe::text::{byte_to_char, char_to_byte};
use devscribe::wrap::{wrap_row_offsets, wrap_row_starts};

#[test]
fn wrap_row_starts_does_not_break_a_line_shorter_than_wrap_cols() {
    assert_eq!(wrap_row_starts("hello", 80), vec![0]);
}

#[test]
fn wrap_row_starts_does_not_break_a_line_exactly_wrap_cols_long() {
    assert_eq!(wrap_row_starts("abcde", 5), vec![0]);
}

#[test]
fn wrap_row_starts_hard_breaks_an_unbroken_token_with_no_space() {
    assert_eq!(wrap_row_starts("abcdef", 5), vec![0, 5]);
}

#[test]
fn wrap_row_starts_breaks_at_the_last_space_within_the_row() {
    assert_eq!(wrap_row_starts("ab cdef", 5), vec![0, 3]);
}

#[test]
fn wrap_row_starts_treats_an_empty_line_as_a_single_row() {
    assert_eq!(wrap_row_starts("", 80), vec![0]);
}

#[test]
fn wrap_row_starts_clamps_wrap_cols_to_at_least_one() {
    assert_eq!(wrap_row_starts("abc", 0), vec![0, 1, 2]);
}

#[test]
fn wrap_row_starts_breaks_only_on_char_boundaries_for_multibyte_text() {
    let starts = wrap_row_starts("日本語", 2);
    assert_eq!(starts, vec![0, 6]);
    assert!("日本語".is_char_boundary(6));
}

#[test]
fn wrap_row_offsets_matches_the_sum_of_each_lines_own_row_count() {
    // The document's lines, the empty one after the final newline included.
    let lines: Vec<String> = "short\na much longer line here\n\n".split('\n').map(|l| l.to_string()).collect();
    assert_eq!(lines.len(), 4);
    let wrap_cols = 5;
    let offsets = wrap_row_offsets(&lines, wrap_cols);

    assert_eq!(offsets.len(), lines.len() + 1);
    assert_eq!(offsets[0], 0);
    for line in 0..lines.len() {
        let rows = wrap_row_starts(&lines[line], wrap_cols).len() as u32;
        assert_eq!(offsets[line + 1], offsets[line] + rows, "line {line}");
    }
}

#[test]
fn byte_to_char_and_char_to_byte_round_trip_through_each_other() {
    let text = "a日b本c";
    for char_idx in 0..=text.chars().count() {
        let byte_idx = char_to_byte(text, char_idx);
        assert_eq!(byte_to_char(text, byte_idx), char_idx, "char_idx {char_idx}");
    }
}

#[test]
fn wrap_row_starts_keeps_a_word_whole_when_a_space_precedes_it() {
    // "aa bb cc" at 4 cols: breaks after "aa " and after "bb ".
    assert_eq!(wrap_row_starts("aa bb cc", 4), vec![0, 3, 6]);
}

#[test]
fn wrap_row_starts_every_row_fits_the_budget() {
    let text = "the quick brown fox jumps over the lazy dog";
    let starts = wrap_row_starts(text, 7);
    let mut ends = starts[1..].to_vec();
    ends.push(text.len());
    for (s, e) in starts.iter().zip(ends.iter()) {
        assert!(text[*s..*e].chars().count() <= 7);
    }
}

#[test]
fn char_to_byte_past_the_end_is_the_byte_length() {
    assert_eq!(char_to_byte("a日", 7), 4);
    assert_eq!(char_to_byte("a日", 1), 1);
    assert_eq!(byte_to_char("a日", 100), 2);
}
