use lam_tui::text_wrap::{measure, wrap_items, WrapItem};
use unicode_segmentation::UnicodeSegmentation;

fn rows(text: &str, width: usize) -> Vec<String> {
    let graphemes: Vec<String> = text.graphemes(true).map(str::to_owned).collect();
    wrap_items(&measure(&graphemes), width)
        .into_iter()
        .map(|row| {
            let mut line = " ".repeat(row.indent);
            for grapheme in &graphemes[row.start..row.end] {
                line.push_str(grapheme);
            }
            line
        })
        .collect()
}

#[test]
fn keeps_whole_words_that_fit_on_the_next_row() {
    assert_eq!(rows("alpha beta", 7), ["alpha", "beta"]);
    assert_eq!(rows("a abcde", 5), ["a", "abcde"]);
}

#[test]
fn splits_overwide_words_with_a_two_space_continuation_indent() {
    assert_eq!(rows("abcdefghij", 6), ["abcdef", "  ghij"]);
    assert_eq!(rows("abcdefghijklmn", 6), ["abcdef", "  ghij", "  klmn"]);
    assert_eq!(rows("go abcdefghij", 6), ["go", "abcdef", "  ghij"]);
    assert_eq!(rows("abcdefg abcde", 6), ["abcdef", "  g", "abcde"]);
    assert_eq!(rows("abcdefgh x", 6), ["abcdef", "  gh x"]);
}

#[test]
fn preserves_internal_whitespace_until_a_wrap_point() {
    assert_eq!(rows("aa   bb", 7), ["aa   bb"]);
    assert_eq!(rows("aa   bb", 6), ["aa", "bb"]);
}

#[test]
fn preserves_leading_and_trailing_whitespace() {
    assert_eq!(rows("  abc", 4), ["  ", "abc"]);
    assert_eq!(rows("abc  ", 4), ["abc ", " "]);
}

#[test]
fn newline_characters_act_as_whitespace_separators() {
    assert_eq!(rows("ab\ncd", 2), ["ab", "cd"]);
}

#[test]
fn wide_characters_are_atomic_and_wrap_by_cells() {
    assert_eq!(rows("ab界cd", 4), ["ab界", "  cd"]);
    assert_eq!(rows("界界界", 4), ["界界", "  界"]);
    assert_eq!(rows("x 界界", 4), ["x", "界界"]);
}

#[test]
fn narrow_widths_clamp_the_indent_and_force_progress() {
    assert_eq!(rows("ab", 0), ["a", "b"]);
    assert_eq!(rows("ab", 1), ["a", "b"]);
    assert_eq!(rows("abc", 2), ["ab", " c"]);
    assert_eq!(rows("abcd", 2), ["ab", " c", " d"]);
    assert_eq!(rows("界", 1), ["界"]);
    // The continuation indent never widens a row past the container.
    assert_eq!(rows("界界", 2), ["界", "界"]);
    assert_eq!(rows("界ab", 2), ["界", " a", " b"]);
}

#[test]
fn zero_width_characters_stay_with_their_chunk() {
    assert_eq!(rows("e\u{301}x", 10), ["e\u{301}x"]);
}

#[test]
fn emoji_zwj_sequences_are_atomic() {
    assert_eq!(rows("👩‍💻x", 3), ["👩‍💻x"]);
    assert_eq!(rows("👩‍💻x", 2), ["👩‍💻", " x"]);
    assert_eq!(rows("👍🏽", 1), ["👍🏽"]);
}

#[test]
fn non_breaking_spaces_are_not_break_points() {
    assert_eq!(rows("alpha\u{00A0}b", 7), ["alpha\u{00A0}b"]);
    assert_eq!(rows("alpha\u{00A0}b", 6), ["alpha\u{00A0}", "  b"]);
}

#[test]
fn zero_width_space_is_an_explicit_break_opportunity() {
    assert_eq!(rows("foo\u{200B}bar", 3), ["foo", "bar"]);
}

#[test]
fn an_indent_gives_way_to_an_item_behind_items_without_cells() {
    let items: Vec<WrapItem> =
        [0, 3, 0, 2].into_iter().map(|width| WrapItem { width, breakable: false }).collect();
    let rows: Vec<(usize, usize, usize)> =
        wrap_items(&items, 2).iter().map(|row| (row.start, row.end, row.indent)).collect();
    assert_eq!(rows, [(0, 2, 0), (2, 4, 0)]);
    let items: Vec<WrapItem> =
        [4, 0, 3].into_iter().map(|width| WrapItem { width, breakable: false }).collect();
    let rows: Vec<(usize, usize, usize)> =
        wrap_items(&items, 4).iter().map(|row| (row.start, row.end, row.indent)).collect();
    assert_eq!(rows, [(0, 2, 0), (2, 3, 1)]);
}
