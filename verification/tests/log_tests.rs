use tact::log_view::{
    SearchState, ThinkingBlock, extract_last_code_block, find_code_block_containing_logical,
    find_word_bounds, is_message_visible, jump_to_next_match, jump_to_prev_match,
    logical_from_visual, phys_to_logical_fast, total_log_lines, visible_message_index,
};
use tact::markdown::{code_content_ranges, format_table, is_horizontal_rule};
use tact::stream::{StreamOp, StreamState, strip_streaming_indicator};
use tact::thinking::{ThinkingState, clip_preview, scroll_indicator};
use tact::viewport::{
    LogScroll, build_row_starts, build_visible_index, clip_viewport, is_selected, line_window,
    scrollbar_position,
};

fn block(title: usize, end: usize, scroll: usize) -> ThinkingBlock {
    ThinkingBlock { title_idx: title, end_idx: end, scroll_offset: scroll, cached_preview: vec![] }
}

#[test]
fn folded_blocks_hide_lines() {
    // Block with title at 1 and content 2..=7 (6 lines); window of three from offset 3.
    let blocks = vec![block(1, 7, 3)];
    let shown: Vec<bool> = (0..9).map(|i| is_message_visible(&blocks, i)).collect();
    assert_eq!(shown, vec![true, true, false, false, false, true, true, true, true]);
    assert_eq!(total_log_lines(&blocks, 9, false), 6);
    assert_eq!(total_log_lines(&blocks, 9, true), 7);
    assert_eq!(visible_message_index(&blocks, 9, 2), Some(5));
    assert_eq!(visible_message_index(&blocks, 9, 6), None);
    let (shown_idx, numbers) = build_visible_index(&blocks, 9);
    assert_eq!(shown_idx, vec![0, 1, 5, 6, 7, 8]);
    assert_eq!(numbers[5], Some(2));
    assert_eq!(numbers[3], None);
    assert_eq!(phys_to_logical_fast(&numbers, 5), Some(2));
    assert_eq!(phys_to_logical_fast(&numbers, 3), None);
    assert_eq!(phys_to_logical_fast(&numbers, 99), None);
}

#[test]
fn search_jumps_wrap_around() {
    let mut s = SearchState::new();
    s.term = "x".to_string();
    s.matches = vec![3, 10, 40];
    s.current_match = 2;
    let mut off: u16 = 0;
    jump_to_next_match(&mut s, &mut off, 10);
    assert_eq!(s.current_match, 0);
    assert_eq!(off, 0);
    jump_to_prev_match(&mut s, &mut off, 10);
    assert_eq!(s.current_match, 2);
    assert_eq!(off, 35);
    let mut none = SearchState::new();
    let mut off2: u16 = 7;
    jump_to_next_match(&mut none, &mut off2, 10);
    assert_eq!(off2, 7);
}

#[test]
fn code_blocks_in_the_log() {
    let raw: Vec<String> = ["intro", "```py", "print(1)", "x = 2", "```", "after"]
        .iter()
        .map(|s| s.to_string())
        .collect();
    assert_eq!(extract_last_code_block(&raw), Some("print(1)\nx = 2".to_string()));
    assert_eq!(code_content_ranges(&raw), vec![(2, 4)]);
    assert_eq!(find_code_block_containing_logical(&raw, &vec![], 3), Some((1, 4)));
    assert_eq!(find_code_block_containing_logical(&raw, &vec![], 5), None);
    assert_eq!(extract_last_code_block(&vec!["```".to_string()]), None);
}

#[test]
fn words_under_the_mouse() {
    let raw = vec!["call foo_bar-baz(1)".to_string()];
    assert_eq!(find_word_bounds(&raw, &vec![], 0, 7), Some((5, 16)));
    assert_eq!(find_word_bounds(&raw, &vec![], 0, 16), Some((5, 16)));
    assert_eq!(find_word_bounds(&vec!["a  b".to_string()], &vec![], 0, 2), None);
    assert_eq!(find_word_bounds(&raw, &vec![], 0, 30), None);
    assert_eq!(find_word_bounds(&raw, &vec![], 1, 0), None);
}

#[test]
fn tables_are_aligned() {
    let lines: Vec<String> = ["| a | bb |", "|---|---|", "| ccc | d |"].iter().map(|s| s.to_string()).collect();
    let t = format_table(&lines);
    assert_eq!(t.len(), 2);
    // The separator row widens the second column to three.
    assert_eq!(t[0].text, "| a   | bb  |");
    assert!(t[0].header);
    assert_eq!(t[1].text, "| ccc | d   |");
    assert!(!t[1].header);
    // Pipes at both ends add no empty column.
    let piped = format_table(&vec!["|a|b|".to_string()]);
    let bare = format_table(&vec!["a|b".to_string()]);
    assert_eq!(piped.len(), 1);
    assert_eq!(piped[0].text, "| a | b |");
    assert_eq!(bare[0].text, piped[0].text);
    assert!(is_horizontal_rule(" - - - "));
    assert!(is_horizontal_rule("***"));
    assert!(!is_horizontal_rule("-*-"));
    assert!(!is_horizontal_rule("--"));
}

#[test]
fn streaming_groups_lines() {
    let mut s = StreamState::new();
    let ops = s.feed("Hello\nworld\n\n| a |\n");
    assert_eq!(ops.len(), 2);
    assert!(matches!(&ops[0], StreamOp::Markdown(p) if p == "Hello\nworld"));
    assert!(matches!(ops[1], StreamOp::Blank));
    let ops = s.feed("```rust\nfn x() {}\n```\n");
    assert!(matches!(&ops[0], StreamOp::Table(t) if t == &vec!["| a |".to_string()]));
    assert!(matches!(&ops[1], StreamOp::OpenCode(h) if h == "```rust"));
    assert!(matches!(&ops[2], StreamOp::CodeLine { line, unmark_previous: false } if line == "fn x() {}"));
    assert!(matches!(&ops[3], StreamOp::CloseCode { code, line_count: 2, render: true } if code == "```rust\nfn x() {}\n```"));
    let ops = s.feed("tail without newline");
    assert!(ops.is_empty());
    assert_eq!(s.take_buffer(), Some("tail without newline".to_string()));
    assert_eq!(s.take_buffer(), None);
}

#[test]
fn streaming_ignores_chunk_boundaries() {
    let text = "a\nb\n```\nc\n```\n| x |\n\nd";
    let mut whole = StreamState::new();
    let ops_whole = whole.feed(text);
    for cut in 0..=text.len() {
        if !text.is_char_boundary(cut) {
            continue;
        }
        let mut split = StreamState::new();
        let mut ops = split.feed(&text[..cut]);
        ops.extend(split.feed(&text[cut..]));
        assert_eq!(ops.len(), ops_whole.len(), "cut {}", cut);
        assert_eq!(split.buffer, whole.buffer);
        assert_eq!(split.paragraph, whole.paragraph);
        assert_eq!(split.table_buffer, whole.table_buffer);
    }
    assert_eq!(strip_streaming_indicator(&"code ▌".to_string()), Some("code".to_string()));
    assert_eq!(strip_streaming_indicator(&"code".to_string()), None);
}

#[test]
fn thinking_lines_and_blocks() {
    let mut t = ThinkingState::new();
    let out = t.push_chunk("first\nsec", 4);
    assert!(out.title);
    assert_eq!(out.lines, vec!["│ first".to_string()]);
    assert_eq!(t.active_start, Some(4));
    let out = t.push_chunk("ond\n\n", 7);
    assert!(!out.title);
    assert_eq!(out.lines, vec!["│ second".to_string(), String::new()]);
    assert_eq!(t.take_pending_line(9, true), None);
    assert_eq!(clip_preview(&"short".to_string()), "short");
    assert_eq!(clip_preview(&"x".repeat(41)), format!("{}…", "x".repeat(40)));
    assert_eq!(scroll_indicator("({}/{}) ", 7), "(3/7) ");
    assert_eq!(scroll_indicator("({}/{}) ", 3), "");
}

#[test]
fn closing_a_thinking_block_folds_it() {
    let mut t = ThinkingState::new();
    let mut raw: Vec<String> = vec!["before".to_string(), String::new(), "Thinking".to_string()];
    t.active_start = Some(1);
    t.title_added = true;
    let out = t.push_chunk("a\nb\nc\nd\ne\n", 3);
    assert!(!out.title);
    for l in out.lines {
        raw.push(l);
    }
    let blank = t.close_active_block(&mut raw);
    assert_eq!(blank, Some(8));
    assert_eq!(raw[8], "");
    assert_eq!(t.blocks.len(), 1);
    assert_eq!(t.blocks[0].title_idx, 2);
    assert_eq!(t.blocks[0].end_idx, 7);
    assert_eq!(t.blocks[0].scroll_offset, 2);
    assert_eq!(t.blocks[0].cached_preview, vec!["a", "b", "c", "d", "e"]);
    // Only the last three content lines stay shown; the title and what
    // follows the block are shown.
    let shown: Vec<bool> = (0..raw.len()).map(|i| is_message_visible(&t.blocks, i)).collect();
    assert_eq!(shown, vec![true, true, true, false, false, true, true, true, true]);
    t.open_popup(2, &raw);
    assert_eq!(t.popup_text(), Some("a\nb\nc\nd\ne".to_string()));
    t.popup_scroll_down();
    t.popup_scroll_up();
    t.popup_scroll_up();
    assert_eq!(t.popup.as_ref().unwrap().scroll, 0);
    t.close_popup();
    assert!(t.popup.is_none());
}

#[test]
fn viewport_rows() {
    let starts = build_row_starts(&vec![1, 2, 3]);
    assert_eq!(starts, vec![0, 1, 3, 6]);
    let v = clip_viewport(&starts, 3, 4, 100);
    assert_eq!(v.total_visual, 6);
    assert_eq!(v.offset, 1);
    assert_eq!(v.visual_scroll, 1);
    assert_eq!(v.end_visual, 5);
    assert_eq!(v.logical_start, 1);
    assert_eq!(v.logical_end, 3);
    assert!(v.offset <= 100);
    let all = clip_viewport(&starts, 3, 10, 0);
    assert_eq!((all.visual_scroll, all.end_visual), (0, 6));
    assert_eq!(logical_from_visual(&starts, 4), 2);
    assert_eq!(logical_from_visual(&vec![], 4), 4);
    assert_eq!(line_window(3, 6, 2, 5), Some((0, 2)));
    assert_eq!(line_window(0, 2, 2, 5), None);
    assert!(is_selected(3, Some((5, 2))));
    assert!(!is_selected(6, Some((5, 2))));
    assert!(!is_selected(0, None));
    assert_eq!(scrollbar_position(10, 4, 6), 9);
    assert_eq!(scrollbar_position(10, 4, 3), 4);
    assert_eq!(scrollbar_position(3, 4, 0), 0);
    let ls = LogScroll::new();
    assert_eq!(ls.height, 10);
}

#[test]
fn flushing_twice_is_flushing_once() {
    let mut s = StreamState::new();
    let _ = s.feed("| a |\npara\ntail");
    let (ops, rest) = s.flush_all();
    assert!(!ops.is_empty());
    assert_eq!(rest, Some("tail".to_string()));
    assert!(s.buffer.is_empty() && s.paragraph.is_empty() && s.table_buffer.is_empty() && !s.code_block);
    let (ops2, rest2) = s.flush_all();
    assert!(ops2.is_empty());
    assert_eq!(rest2, None);
}

#[test]
fn ending_reasoning_twice_is_ending_once() {
    let mut t = ThinkingState::new();
    let mut raw: Vec<String> = vec!["before".to_string(), String::new(), "Thinking".to_string()];
    t.active_start = Some(1);
    t.title_added = true;
    let out = t.push_chunk("a\nb", 3);
    for l in out.lines {
        raw.push(l);
    }
    let (line, blank) = t.end_reasoning(&mut raw);
    assert_eq!(line, Some("\u{2502} b".to_string()));
    assert_eq!(blank, Some(5));
    assert_eq!(raw, vec!["before", "", "Thinking", "\u{2502} a", "\u{2502} b", ""]);
    assert_eq!(t.blocks.len(), 1);
    assert!(t.buffer.is_empty() && t.active_start.is_none());
    let (line2, blank2) = t.end_reasoning(&mut raw);
    assert_eq!((line2, blank2), (None, None));
    assert_eq!(raw.len(), 6);
    assert_eq!(t.blocks.len(), 1);
}
