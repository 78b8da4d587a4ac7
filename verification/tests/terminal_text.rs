//! Escape codes, widths, truncating, wrapping and slicing.

use tau::tui::ansi::{cell_columns, extract_ansi_code, segments, strip_ansi, visible_width};
use tau::tui::utils::{fit_segments, slice_from_column, slice_segments, truncate_to_width};
use tau::tui::wrap::{wrap_segments, wrap_text_with_ansi};

// ── strip_ansi ──────────────────────────────────────────────────

#[test]
fn strip_ansi_plain_text_unchanged() {
    assert_eq!(strip_ansi("hello world"), "hello world");
}

#[test]
fn strip_ansi_empty_string() {
    assert_eq!(strip_ansi(""), "");
}

#[test]
fn strip_ansi_removes_sgr_color() {
    assert_eq!(strip_ansi("\x1b[31mhello\x1b[0m"), "hello");
}

#[test]
fn strip_ansi_removes_complex_sgr() {
    // Bold + underline + 256-color foreground
    assert_eq!(strip_ansi("\x1b[1;4;38;5;196mtext\x1b[0m"), "text");
}

#[test]
fn strip_ansi_removes_cursor_movement() {
    // Cursor to column 5, clear line
    assert_eq!(strip_ansi("\x1b[5G\x1b[2Khi"), "hi");
}

#[test]
fn strip_ansi_strips_osc_hyperlink() {
    let input = "\x1b]8;;https://example.com\x07click here\x1b]8;;\x07";
    assert_eq!(strip_ansi(input), "click here");
}

#[test]
fn strip_ansi_strips_osc_with_st_terminator() {
    // OSC terminated with ESC \ instead of BEL
    let input = "\x1b]0;window title\x1b\\visible";
    assert_eq!(strip_ansi(input), "visible");
}

#[test]
fn strip_ansi_strips_apc() {
    let input = "\x1b_some application data\x07visible";
    assert_eq!(strip_ansi(input), "visible");
}

#[test]
fn strip_ansi_preserves_unicode() {
    assert_eq!(strip_ansi("\x1b[31m你好\x1b[0m"), "你好");
}

#[test]
fn strip_ansi_multiple_sequences() {
    let input = "\x1b[1mbold\x1b[0m and \x1b[4munderline\x1b[0m";
    assert_eq!(strip_ansi(input), "bold and underline");
}

// ── extract_ansi_code ───────────────────────────────────────────

#[test]
fn extract_ansi_code_returns_none_for_non_escape() {
    assert_eq!(extract_ansi_code("hello", 0), None);
}

#[test]
fn extract_ansi_code_returns_none_for_out_of_bounds() {
    assert_eq!(extract_ansi_code("hi", 10), None);
}

#[test]
fn extract_ansi_code_returns_none_in_middle_of_text() {
    assert_eq!(extract_ansi_code("abc", 1), None);
}

#[test]
fn extract_ansi_code_extracts_sgr() {
    let s = "\x1b[31m";
    let result = extract_ansi_code(s, 0);
    assert_eq!(result, Some(("\x1b[31m".to_string(), 5)));
}

#[test]
fn extract_ansi_code_extracts_sgr_reset() {
    let s = "\x1b[0m";
    let result = extract_ansi_code(s, 0);
    assert_eq!(result, Some(("\x1b[0m".to_string(), 4)));
}

#[test]
fn extract_ansi_code_extracts_complex_sgr() {
    let s = "\x1b[38;2;255;128;0m";
    let result = extract_ansi_code(s, 0);
    assert_eq!(result, Some(("\x1b[38;2;255;128;0m".to_string(), 17)));
}

#[test]
fn extract_ansi_code_extracts_cursor_movement() {
    let s = "\x1b[10A"; // cursor up 10
    let result = extract_ansi_code(s, 0);
    assert_eq!(result, Some(("\x1b[10A".to_string(), 5)));
}

#[test]
fn extract_ansi_code_extracts_clear_line() {
    let s = "\x1b[2K";
    let result = extract_ansi_code(s, 0);
    assert_eq!(result, Some(("\x1b[2K".to_string(), 4)));
}

#[test]
fn extract_ansi_code_at_offset() {
    let s = "hi\x1b[31mred";
    let result = extract_ansi_code(s, 2);
    assert_eq!(result, Some(("\x1b[31m".to_string(), 5)));
}

#[test]
fn extract_ansi_code_osc_with_bel() {
    let s = "\x1b]8;;https://example.com\x07";
    let result = extract_ansi_code(s, 0);
    assert_eq!(result, Some(("\x1b]8;;https://example.com\x07".to_string(), s.len())));
}

#[test]
fn extract_ansi_code_osc_with_st() {
    let s = "\x1b]0;title\x1b\\";
    let result = extract_ansi_code(s, 0);
    assert_eq!(result, Some(("\x1b]0;title\x1b\\".to_string(), s.len())));
}

#[test]
fn extract_ansi_code_apc() {
    let s = "\x1b_data\x07";
    let result = extract_ansi_code(s, 0);
    assert_eq!(result, Some(("\x1b_data\x07".to_string(), 7)));
}

#[test]
fn extract_ansi_code_unterminated_returns_none() {
    // CSI without a final byte
    assert_eq!(extract_ansi_code("\x1b[31", 0), None);
    // OSC without terminator
    assert_eq!(extract_ansi_code("\x1b]8;;url", 0), None);
}

#[test]
fn extract_ansi_code_bare_esc_returns_none() {
    // Just ESC at end of string
    assert_eq!(extract_ansi_code("\x1b", 0), None);
}

// ── visible_width ───────────────────────────────────────────────

#[test]
fn visible_width_ascii() {
    assert_eq!(visible_width("hello"), 5);
}

#[test]
fn visible_width_empty() {
    assert_eq!(visible_width(""), 0);
}

#[test]
fn visible_width_ignores_ansi() {
    assert_eq!(visible_width("\x1b[31mhello\x1b[0m"), 5);
}

#[test]
fn visible_width_complex_ansi() {
    assert_eq!(visible_width("\x1b[1;4;38;5;196mtext\x1b[0m"), 4);
}

#[test]
fn visible_width_wide_chars() {
    assert_eq!(visible_width("你好"), 4);
}

#[test]
fn visible_width_mixed_wide_and_ascii() {
    assert_eq!(visible_width("hi你好"), 6); // 2 + 4
}

#[test]
fn visible_width_tab_counts_as_3() {
    assert_eq!(visible_width("\t"), 3);
}

#[test]
fn visible_width_tabs_in_text() {
    assert_eq!(visible_width("a\tb"), 5); // 1 + 3 + 1
}

#[test]
fn visible_width_osc_hyperlink() {
    let input = "\x1b]8;;https://example.com\x07click\x1b]8;;\x07";
    assert_eq!(visible_width(input), 5);
}

// ── truncate_to_width ───────────────────────────────────────────

#[test]
fn truncate_no_truncation_needed() {
    assert_eq!(truncate_to_width("hello", 10, "..."), "hello");
}

#[test]
fn truncate_basic() {
    assert_eq!(truncate_to_width("hello world", 8, "..."), "hello...");
}

#[test]
fn truncate_exact_fit() {
    assert_eq!(truncate_to_width("hello", 5, "..."), "hello");
}

#[test]
fn truncate_preserves_ansi() {
    let input = "\x1b[31mhello world\x1b[0m";
    let result = truncate_to_width(input, 8, "...");
    // Should keep the color code, truncate visible text, add ellipsis
    assert_eq!(result, "\x1b[31mhello...");
    // Visible width should be 8
    assert_eq!(visible_width(&result), 8);
}

#[test]
fn truncate_wide_chars() {
    // "你好世界" = 8 columns, truncate to 6 with "..."
    // budget = 6 - 3 = 3 columns, only "你" fits (2 cols), "好" would be 4
    let result = truncate_to_width("你好世界", 6, "...");
    assert_eq!(result, "你...");
    assert_eq!(visible_width(&result), 5); // 2 + 3
}

#[test]
fn truncate_max_width_smaller_than_ellipsis() {
    // max_width=2, ellipsis="..." (3 chars) — content budget saturates to 0
    let result = truncate_to_width("hello", 2, "...");
    // content_budget = 0, nothing fits, but ellipsis_width > max_width
    // so no ellipsis either — empty result
    assert_eq!(visible_width(&result), 0);
}

#[test]
fn truncate_empty_ellipsis() {
    let result = truncate_to_width("hello world", 5, "");
    assert_eq!(result, "hello");
}

#[test]
fn truncate_with_ansi_in_middle() {
    let input = "he\x1b[31mllo world\x1b[0m";
    let result = truncate_to_width(input, 8, "...");
    assert_eq!(result, "he\x1b[31mllo...");
    assert_eq!(visible_width(&result), 8);
}

#[test]
fn truncate_empty_string() {
    assert_eq!(truncate_to_width("", 5, "..."), "");
}

// ── wrap_text_with_ansi ─────────────────────────────────────────

#[test]
fn wrap_empty_text() {
    assert_eq!(wrap_text_with_ansi("", 80), Vec::<String>::new());
}

#[test]
fn wrap_zero_width() {
    assert_eq!(wrap_text_with_ansi("hello", 0), Vec::<String>::new());
}

#[test]
fn wrap_short_text_no_wrap() {
    assert_eq!(wrap_text_with_ansi("hello", 80), vec!["hello"]);
}

#[test]
fn wrap_at_word_boundary() {
    assert_eq!(
        wrap_text_with_ansi("hello world", 7),
        vec!["hello", "world"]
    );
}

#[test]
fn wrap_exact_fit_no_wrap() {
    assert_eq!(
        wrap_text_with_ansi("hello", 5),
        vec!["hello"]
    );
}

#[test]
fn wrap_multiple_words() {
    assert_eq!(
        wrap_text_with_ansi("the quick brown fox", 10),
        vec!["the quick", "brown fox"]
    );
}

#[test]
fn wrap_long_word_char_by_char() {
    assert_eq!(
        wrap_text_with_ansi("abcdefgh", 5),
        vec!["abcde", "fgh"]
    );
}

#[test]
fn wrap_long_word_multiple_breaks() {
    assert_eq!(
        wrap_text_with_ansi("abcdefghi", 3),
        vec!["abc", "def", "ghi"]
    );
}

#[test]
fn wrap_ansi_style_preserved_across_lines() {
    let input = "\x1b[31mhello world\x1b[0m";
    let result = wrap_text_with_ansi(input, 7);
    // Line 1: red "hello", line 2: red carried over + "world" + reset
    assert_eq!(result, vec!["\x1b[31mhello", "\x1b[31mworld\x1b[0m"]);
}

#[test]
fn wrap_ansi_style_changes_mid_text() {
    let input = "\x1b[31mhello \x1b[32mworld\x1b[0m";
    let result = wrap_text_with_ansi(input, 7);
    // Line 1: red "hello ", line 2 gets red prefix + green override + "world" + reset
    assert_eq!(
        result,
        vec!["\x1b[31mhello", "\x1b[31m\x1b[32mworld\x1b[0m"]
    );
}

#[test]
fn wrap_preserves_hard_newlines() {
    assert_eq!(
        wrap_text_with_ansi("hello\nworld", 80),
        vec!["hello", "world"]
    );
}

#[test]
fn wrap_hard_newline_with_empty_line() {
    assert_eq!(
        wrap_text_with_ansi("hello\n\nworld", 80),
        vec!["hello", "", "world"]
    );
}

#[test]
fn wrap_wide_chars() {
    // "你好世界" = 8 visible columns, wrap at 5
    assert_eq!(
        wrap_text_with_ansi("你好世界", 5),
        vec!["你好", "世界"]
    );
}

#[test]
fn wrap_wide_char_doesnt_split() {
    // Width 3: "你" (2) fits, "好" (2) would make 4 > 3, so break
    assert_eq!(
        wrap_text_with_ansi("你好", 3),
        vec!["你", "好"]
    );
}

#[test]
fn wrap_sgr_state_across_hard_newlines() {
    let input = "\x1b[31mhello\nworld\x1b[0m";
    let result = wrap_text_with_ansi(input, 80);
    // SGR state carries across hard newlines
    assert_eq!(result, vec!["\x1b[31mhello", "\x1b[31mworld\x1b[0m"]);
}

#[test]
fn wrap_word_with_trailing_space_at_width() {
    // "hello world" at width 5: 'hello' fills, space overflows
    assert_eq!(
        wrap_text_with_ansi("hello world", 5),
        vec!["hello", "world"]
    );
}

#[test]
fn wrap_single_wide_char_wider_than_width() {
    // Width 1, "你" (width 2) — single char wider than allowed
    let result = wrap_text_with_ansi("你", 1);
    assert_eq!(result, vec!["你"]);
}

// ── slice_from_column ───────────────────────────────────────────

#[test]
fn slice_from_column_plain_text() {
    let (sgr, rest) = slice_from_column("hello world", 6);
    assert_eq!(sgr, "");
    assert_eq!(rest, "world");
}

#[test]
fn slice_from_column_skip_zero() {
    let (sgr, rest) = slice_from_column("hello", 0);
    assert_eq!(sgr, "");
    assert_eq!(rest, "hello");
}

#[test]
fn slice_from_column_skip_all() {
    let (sgr, rest) = slice_from_column("hello", 5);
    assert_eq!(sgr, "");
    assert_eq!(rest, "");
}

#[test]
fn slice_from_column_skip_past_end() {
    let (sgr, rest) = slice_from_column("hi", 10);
    assert_eq!(sgr, "");
    assert_eq!(rest, "");
}

#[test]
fn slice_from_column_with_ansi() {
    // "\x1b[31mhello\x1b[0m world" — skip 5 (past "hello")
    let (sgr, rest) = slice_from_column("\x1b[31mhello\x1b[0m world", 5);
    // The \x1b[31m was active, then \x1b[0m reset it at the skip boundary
    assert_eq!(sgr, "");
    assert_eq!(rest, " world");
}

#[test]
fn slice_from_column_preserves_active_sgr() {
    // "\x1b[31mhello world\x1b[0m" — skip 6 (past "hello ")
    // SGR state at skip point: \x1b[31m is still active
    let (sgr, rest) = slice_from_column("\x1b[31mhello world\x1b[0m", 6);
    assert_eq!(sgr, "\x1b[31m");
    assert_eq!(rest, "world\x1b[0m");
}

#[test]
fn slice_from_column_wide_chars() {
    // "你好世界" = 8 columns, skip 4 (past "你好")
    let (sgr, rest) = slice_from_column("你好世界", 4);
    assert_eq!(sgr, "");
    assert_eq!(rest, "世界");
}

#[test]
fn slice_from_column_empty_string() {
    let (sgr, rest) = slice_from_column("", 5);
    assert_eq!(sgr, "");
    assert_eq!(rest, "");
}

// ── the pieces ──────────────────────────────────────────────────

#[test]
fn plain_text_is_kept_as_it_is() {
    for s in ["", "abc", "你好", "tab\there", "line\nbreak"] {
        assert_eq!(strip_ansi(s), s);
    }
}

#[test]
fn segments_put_together_are_the_text() {
    let s = "a\x1b[31mb你\x1b[0m\tc";
    let all: String = segments(s).iter().map(|x| x.text.clone()).collect();
    assert_eq!(all, s);
    let codes: Vec<bool> = segments(s).iter().map(|x| x.code).collect();
    assert_eq!(codes, vec![false, true, false, false, true, false, false]);
    let cols: Vec<usize> = segments(s).iter().map(|x| x.cols).collect();
    assert_eq!(cols, vec![1, 0, 1, 2, 0, 3, 1]);
}

#[test]
fn a_grapheme_of_several_characters_is_one_cell() {
    let s = "e\u{301}x";
    let segs = segments(s);
    assert_eq!(segs.len(), 2);
    assert_eq!(segs[0].text, "e\u{301}");
    assert_eq!(visible_width(s), 2);
}

#[test]
fn tabs_take_three_columns_whatever_their_width() {
    assert_eq!(cell_columns("\t", 0), 3);
    assert_eq!(cell_columns("x", 1), 1);
    assert_eq!(cell_columns("你", 2), 2);
}

#[test]
fn codes_are_kept_but_take_no_room() {
    let segs = segments("\x1b[1mab\x1b[0mcd");
    assert_eq!(fit_segments(&segs, 3), "\x1b[1mab\x1b[0mc");
    assert_eq!(fit_segments(&segs, 0), "\x1b[1m");
}

#[test]
fn truncated_text_fits() {
    for width in 0..14 {
        let r = truncate_to_width("hello 你好 world", width, "...");
        assert!(visible_width(&r) <= width);
    }
}

#[test]
fn style_is_carried_into_the_slice() {
    let segs = segments("\x1b[1m\x1b[31mabc");
    assert_eq!(slice_segments(&segs, 2), ("\x1b[1m\x1b[31m".to_string(), "c".to_string()));
}

#[test]
fn wrapped_lines_show_what_the_text_shows() {
    let text = "one two three four";
    for width in 1..20 {
        let shown: String = wrap_text_with_ansi(text, width).concat().chars().filter(|c| *c != ' ').collect();
        assert_eq!(shown, "onetwothreefour");
    }
}

#[test]
fn wrapping_narrow_text_stays_within_the_width() {
    for width in 1..20 {
        for line in wrap_text_with_ansi("the quick brown fox jumps", width) {
            assert!(visible_width(&line) <= width);
        }
    }
}

#[test]
fn wide_clusters_do_not_push_a_line_over_the_width() {
    assert_eq!(wrap_text_with_ansi(" ab\u{4f60}", 3), vec!["", "ab", "\u{4f60}"]);
    for width in 2..12 {
        for line in wrap_text_with_ansi("a\u{4f60}b \u{4f60}\u{597d}c\td", width) {
            assert!(visible_width(&line) <= width || visible_width(&line) == 3 && width == 2);
        }
    }
}

#[test]
fn wrapping_hands_the_style_on() {
    let (lines, sgr) = wrap_segments(&segments("\x1b[31mab"), 5, Vec::new());
    assert_eq!(lines, vec!["\x1b[31mab"]);
    assert_eq!(sgr, vec!["\x1b[31m"]);
    let (lines, sgr) = wrap_segments(&segments("cd\x1b[0m"), 5, sgr);
    assert_eq!(lines, vec!["\x1b[31mcd\x1b[0m"]);
    assert!(sgr.is_empty());
}
