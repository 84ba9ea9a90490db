use tact::cursor::{
    cursor_line_col, end_of_line, is_word_char, line_col_to_cursor, line_length, next_char_boundary,
    next_word_boundary, prev_char_boundary, prev_word_boundary, start_of_line,
};
use tact::strutil::{
    decimal_string, join_strings, replace_all_str, replace_first_str, take_chars, trim_str,
};
use tact::wrap::{lines_of, split_at_display_width, wrap_text};

#[test]
fn replacing() {
    assert_eq!(replace_all_str("{} and {}", "{}", "x"), "x and x");
    assert_eq!(replace_first_str("{} and {}", "{}", "x"), "x and {}");
    assert_eq!(replace_all_str("aaa", "aa", "b"), "ba");
    assert_eq!(replace_all_str("abc", "", "x"), "abc");
    assert_eq!(replace_first_str("none", "{}", "x"), "none");
    let s = "{}{}";
    assert_eq!(replace_first_str(&replace_first_str(s, "{}", "{}"), "{}", "y"), "y{}");
    assert_eq!(replace_all_str("ab", "ab", "ab"), "ab".replace("ab", "ab"));
}

#[test]
fn small_string_helpers() {
    assert_eq!(decimal_string(0), "0");
    assert_eq!(decimal_string(1207), "1207");
    assert_eq!(take_chars("héllo", 2), "hé");
    assert_eq!(take_chars("hi", 5), "hi");
    assert_eq!(trim_str("\u{3000} x \n"), "x");
    assert_eq!(join_strings(&vec!["a".to_string(), "b".to_string()], ", "), "a, b");
    assert_eq!(join_strings(&vec![], ", "), "");
}

#[test]
fn cursor_movement() {
    let s = "héllo\nwörld";
    assert_eq!(prev_char_boundary(s, 3), 1);
    assert_eq!(next_char_boundary(s, 1), 3);
    assert_eq!(next_char_boundary(s, s.len()), s.len());
    assert_eq!(prev_char_boundary(s, 0), 0);
    assert_eq!(start_of_line(s, 10), 7);
    assert_eq!(end_of_line(s, 2), 6);
    assert_eq!(cursor_line_col(s, 10), (1, 2));
    assert_eq!(line_length(s, 1), 5);
    assert_eq!(line_length(s, 7), 0);
    assert_eq!(line_col_to_cursor(s, 1, 2), 10);
    assert_eq!(line_col_to_cursor(s, 0, 99), 6);
    assert!(is_word_char('_') && is_word_char('é') && !is_word_char('-'));
}

#[test]
fn line_column_round_trip() {
    let s = "ab\ncdé\n\nf";
    let mut b = 0;
    while b <= s.len() {
        if s.is_char_boundary(b) {
            let (l, c) = cursor_line_col(s, b);
            assert_eq!(line_col_to_cursor(s, l, c), b);
        }
        b += 1;
    }
}

#[test]
fn word_movement() {
    let s = "foo bar.baz  qux";
    assert_eq!(prev_word_boundary(s, s.len()), 13);
    assert_eq!(prev_word_boundary(s, 8), 7);
    assert_eq!(prev_word_boundary(s, 7), 4);
    assert_eq!(next_word_boundary(s, 0), 3);
    assert_eq!(next_word_boundary(s, 3), 7);
    assert_eq!(next_word_boundary(s, 7), 8);
}

#[test]
fn wrapping_by_display_width() {
    assert_eq!(wrap_text("hello world", 5), vec!["hello", " worl", "d"]);
    assert_eq!(wrap_text("日本語", 4), vec!["日本", "語"]);
    assert_eq!(wrap_text("日本語", 1), vec!["日", "本", "語"]);
    assert_eq!(wrap_text("", 10), vec![""]);
    assert_eq!(wrap_text("a\n\nb", 10), vec!["a", "", "b"]);
    assert_eq!(wrap_text("a\r\nb\n", 10), vec!["a", "b"]);
    assert_eq!(wrap_text("abc", 0), vec!["a", "b", "c"]);
    let text = "the quick brown fox jumps over the lazy dog";
    let rows = wrap_text(text, 7);
    assert_eq!(rows.concat(), text);
    assert!(rows.iter().all(|r| unicode_width::UnicodeWidthStr::width(r.as_str()) <= 7));
}

#[test]
fn splitting_at_width() {
    let v: Vec<char> = "ab日c".chars().collect();
    let (a, b) = split_at_display_width(&v, 3);
    assert_eq!(a, vec!['a', 'b']);
    assert_eq!(b, vec!['日', 'c']);
    let (a, b) = split_at_display_width(&v, 0);
    assert!(a.is_empty());
    assert_eq!(b, v);
    let (a, b) = split_at_display_width(&v, 100);
    assert_eq!(a, v);
    assert!(b.is_empty());
}

#[test]
fn lines_like_std() {
    for t in ["", "a", "a\n", "a\r\nb", "\n\n", "x\r", "a\nb\r\n"] {
        let expected: Vec<String> = t.lines().map(|l| l.to_string()).collect();
        assert_eq!(lines_of(t), expected, "text {:?}", t);
    }
}
