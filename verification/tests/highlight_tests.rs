use tact::highlight::{LineLook, Segment, highlight_segments, line_look, search_highlight, split_at_word};
use tact::log_view::SearchState;

fn seg(start: usize, end: usize, hit: bool) -> Segment {
    Segment { start, end, hit }
}

#[test]
fn search_hits_are_cut_out_of_the_line() {
    assert_eq!(
        search_highlight("Hello hello", "HELLO"),
        Some(vec![seg(0, 5, true), seg(5, 6, false), seg(6, 11, true)])
    );
    assert_eq!(
        search_highlight("abcabc", "bc"),
        Some(vec![seg(0, 1, false), seg(1, 3, true), seg(3, 4, false), seg(4, 6, true)])
    );
    assert_eq!(search_highlight("xyz", "q"), Some(vec![seg(0, 3, false)]));
    assert_eq!(search_highlight("", "q"), Some(vec![]));
    assert_eq!(search_highlight("ÀB", "àb"), Some(vec![seg(0, 3, true)]));
}

#[test]
fn matches_do_not_overlap() {
    assert_eq!(search_highlight("aaa", "aa"), Some(vec![seg(0, 2, true), seg(2, 3, false)]));
    assert_eq!(search_highlight("aaaa", "aa"), Some(vec![seg(0, 2, true), seg(2, 4, true)]));
}

#[test]
fn offsets_are_bytes_of_the_line() {
    assert_eq!(
        search_highlight("Ünïcode ünï", "ÜNÏ"),
        Some(vec![seg(0, 5, true), seg(5, 10, false), seg(10, 15, true)])
    );
}

#[test]
fn no_highlight_without_a_term_or_on_broken_offsets() {
    assert_eq!(search_highlight("abc", ""), None);
    // Lower-casing 'İ' takes three bytes where the line has two.
    assert_eq!(search_highlight("İx", "x"), None);
    assert_eq!(highlight_segments("AB", "ab", "b"), Some(vec![seg(0, 1, false), seg(1, 2, true)]));
}

fn parts(raw: &str, ws: usize, we: usize) -> (String, String, String) {
    split_at_word(raw, ws, we)
}

#[test]
fn selected_word_splits_the_line() {
    let p = |a: &str, b: &str, c: &str| (a.to_string(), b.to_string(), c.to_string());
    assert_eq!(parts("hello world", 6, 11), p("hello ", "world", ""));
    assert_eq!(parts("hello world", 11, 6), p("hello ", "world", ""));
    assert_eq!(parts("hello world", 6, 100), p("hello ", "world", ""));
    assert_eq!(parts("hello world", 100, 200), p("hello world", "", ""));
    // Offsets inside a character move back to its start.
    assert_eq!(parts("héllo", 2, 4), p("h", "él", "lo"));
    assert_eq!(parts("", 1, 2), p("", "", ""));
}

fn search(term: &str, matches: Vec<usize>) -> SearchState {
    SearchState { term: term.to_string(), matches, current_match: 0 }
}

#[test]
fn each_line_is_drawn_one_way() {
    let none = search("", vec![]);
    let hits = search("x", vec![2, 4]);
    assert_eq!(line_look(&none, 2, None, None, true), LineLook::Plain);
    assert_eq!(line_look(&none, 2, Some((3, 1)), None, true), LineLook::Marked { reversed: true });
    assert_eq!(line_look(&none, 5, Some((3, 1)), None, true), LineLook::Plain);
    assert_eq!(line_look(&hits, 2, None, None, true), LineLook::SearchHit);
    assert_eq!(line_look(&hits, 4, Some((4, 4)), Some((0, 1)), false), LineLook::Hidden);
    assert_eq!(line_look(&hits, 3, None, None, true), LineLook::Marked { reversed: false });
    assert_eq!(line_look(&none, 1, Some((1, 2)), Some((0, 3)), true), LineLook::WordSelected);
    assert_eq!(line_look(&none, 1, Some((1, 2)), Some((0, 3)), false), LineLook::Marked { reversed: true });
}
