use tact::stream::StreamState;
use tact::thinking::ThinkingState;
use tact::transcript::{Applied, Flushed, LineRender, apply_stream_ops, can_end, flush_pending};

/// Styled lines are the texts in brackets; Markdown gives its lines.
struct Plain;

impl LineRender<String> for Plain {
    fn markdown(&self, text: &String) -> (Vec<String>, Vec<String>) {
        let raw: Vec<String> = text.lines().map(|l| l.to_string()).collect();
        (raw.iter().map(|l| format!("[{l}]")).collect(), raw)
    }
    fn table(&self, rows: &Vec<String>) -> (Vec<String>, Vec<String>) {
        (rows.iter().map(|l| format!("[{l}]")).collect(), rows.clone())
    }
    fn code_line(&self, text: &String) -> String {
        format!("code:{text}")
    }
    fn fence_line(&self, text: &String) -> String {
        format!("fence:{text}")
    }
    fn reasoning_line(&self, text: &String) -> String {
        format!("think:{text}")
    }
    fn blank_line(&self) -> String {
        String::new()
    }
}

#[test]
fn code_blocks_are_replaced_by_their_rendering() {
    let mut s = StreamState::new();
    let mut start = None;
    let mut styled: Vec<String> = vec![];
    let mut raw: Vec<String> = vec![];
    let ops = s.feed("```rs\nlet a;\nlet b;\n```\n");
    assert_eq!(apply_stream_ops(&ops, &mut start, &mut styled, &mut raw, &Plain), Applied::Done);
    assert_eq!(raw, vec!["```rs", "let a;", "let b;", "```"]);
    assert_eq!(styled.len(), raw.len());
    assert_eq!(start, None);
}

#[test]
fn ending_a_reply_twice_is_ending_it_once() {
    let mut s = StreamState::new();
    let mut t = ThinkingState::new();
    let mut start = None;
    let mut styled: Vec<String> = vec!["[hi]".to_string(), String::new(), "[Thinking]".to_string()];
    let mut raw: Vec<String> = vec!["hi".to_string(), String::new(), "Thinking".to_string()];
    t.active_start = Some(1);
    t.title_added = true;
    let out = t.push_chunk("a\nb", 3);
    for l in out.lines {
        styled.push(format!("think:{l}"));
        raw.push(l);
    }
    let ops = s.feed("para\ntail");
    assert!(ops.is_empty());
    assert!(can_end(&t, &raw));
    assert_eq!(flush_pending(&mut s, &mut t, &mut start, &mut styled, &mut raw, &Plain), Flushed::Done);
    assert_eq!(
        raw,
        vec!["hi", "", "Thinking", "\u{2502} a", "para", "\u{2502} b", "", "tail"]
    );
    assert_eq!(styled.len(), raw.len());
    assert!(s.buffer.is_empty() && s.paragraph.is_empty() && t.buffer.is_empty());
    assert!(t.active_start.is_none());
    let (styled1, raw1, blocks1) = (styled.clone(), raw.clone(), t.blocks.len());
    assert_eq!(flush_pending(&mut s, &mut t, &mut start, &mut styled, &mut raw, &Plain), Flushed::Done);
    assert_eq!(styled, styled1);
    assert_eq!(raw, raw1);
    assert_eq!(t.blocks.len(), blocks1);
}
