use hayagriva_ffi::diagnostics::{
    byte_offset_at_display_column, char_boundary_at_or_before, char_display_width, display_width,
    expand_tabs, missing_comma_offset, source_context, source_line_bounds, source_location,
};

#[test]
fn source_location_is_one_based() {
    assert_eq!(source_location("first\n  second", 8), (2, 3));
}

#[test]
fn source_location_counts_unicode_characters() {
    let source = "标题\n作者";
    let offset = source.find('作').unwrap();
    assert_eq!(source_location(source, offset), (2, 1));
}

#[test]
fn missing_comma_location_points_to_insertion_point() {
    let source = "title = {value}\n    author = {Someone}";
    let offset = source.find("author").unwrap();
    let offset = missing_comma_offset(source, offset);
    assert_eq!(source_location(source, offset), (1, 16));
}

#[test]
fn source_context_shows_single_line_and_caret() {
    let source = "title = {value} author = {Someone}";
    let offset = source.find("author").unwrap();
    let offset = missing_comma_offset(source, offset);
    let context = source_context(source, offset, 1);
    assert!(context.contains("  1 | title = {value}^ author = {Someone}"));
}

#[test]
fn source_context_truncates_long_lines() {
    let source = format!("{}{}{}", "a".repeat(60), "X", "b".repeat(60));
    let context = source_context(source.as_str(), 60, 1);
    assert!(context.contains("..."));
    assert!(context.contains("X"));
}

#[test]
fn char_boundary_inside_a_multibyte_character_moves_back() {
    let source = "a标b";
    assert_eq!(char_boundary_at_or_before(source, 0), 0);
    assert_eq!(char_boundary_at_or_before(source, 1), 1);
    assert_eq!(char_boundary_at_or_before(source, 2), 1);
    assert_eq!(char_boundary_at_or_before(source, 3), 1);
    assert_eq!(char_boundary_at_or_before(source, 4), 4);
    assert_eq!(char_boundary_at_or_before(source, 99), 5);
}

#[test]
fn tabs_reach_the_next_tab_stop() {
    assert_eq!(char_display_width('\t', 0), 4);
    assert_eq!(char_display_width('\t', 5), 3);
    assert_eq!(char_display_width('x', 5), 1);
    assert_eq!(char_display_width('标', 0), 2);
    assert_eq!(char_display_width('\u{7}', 0), 0);
    assert_eq!(display_width("a\tb", 0), 5);
    assert_eq!(display_width("标题", 3), 4);
    assert_eq!(expand_tabs("a\tb", 0), "a   b");
    assert_eq!(expand_tabs("a\tb", 1), "a  b");
}

#[test]
fn expanded_text_keeps_its_width() {
    let text = "x\ty\t\tz标";
    let expanded = expand_tabs(text, 2);
    assert!(!expanded.contains('\t'));
    assert_eq!(display_width(&expanded, 2), display_width(text, 2));
}

#[test]
fn byte_offset_of_display_columns() {
    assert_eq!(byte_offset_at_display_column("abc", 0), 0);
    assert_eq!(byte_offset_at_display_column("abc", 2), 2);
    assert_eq!(byte_offset_at_display_column("abc", 9), 3);
    // a wide character that would carry past the target is not entered
    assert_eq!(byte_offset_at_display_column("标题", 1), 0);
    assert_eq!(byte_offset_at_display_column("标题", 2), 3);
}

#[test]
fn line_bounds_skip_a_carriage_return() {
    let source = "one\r\ntwo\nthree";
    assert_eq!(source_line_bounds(source, 1), (0, 3, 1));
    assert_eq!(source_line_bounds(source, 4), (0, 3, 3));
    assert_eq!(source_line_bounds(source, 6), (5, 8, 6));
    assert_eq!(source_line_bounds(source, 100), (9, 14, 14));
}

#[test]
fn source_context_labels_the_line_number() {
    let context = source_context("ab\ncd", 4, 12);
    assert_eq!(context, "  12 | c^d");
}

#[test]
fn source_context_cuts_both_sides_of_a_long_line() {
    let source = format!("{}{}{}", "a".repeat(60), "X", "b".repeat(60));
    let context = source_context(source.as_str(), 60, 1);
    let expected = format!("  1 | ...{}^X{}...", "a".repeat(40), "b".repeat(39));
    assert_eq!(context, expected);
}

#[test]
fn a_column_where_a_character_starts_leads_back_to_it() {
    let text = "a\t标题 é!";
    for (k, _) in text.char_indices() {
        let column = display_width(&text[..k], 0);
        let offset = byte_offset_at_display_column(text, column);
        assert_eq!(offset, k);
        assert_eq!(display_width(&text[..offset], 0), column);
    }
}

#[test]
fn the_missing_comma_offset_is_a_fixed_point() {
    let source = "@book{a,\n  title = {T}  \n  date = {2020}\n}";
    for offset in 0..source.len() {
        let first = missing_comma_offset(source, offset);
        assert_eq!(missing_comma_offset(source, first), first);
    }
}
