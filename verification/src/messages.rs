//! Log messages: which messages are shown as plain system lines (and in
//! which tone), how a user's message is laid out, and what copying text
//! reports and sends to the terminal.
use vstd::prelude::*;
use vstd::string::StringExecFns;
use crate::markdown::{split_chars, split_on, lemma_split_on_len};
use crate::session::{fill, slot};
use crate::strutil::{
    replace_all_str, starts_with, take_at_most, take_chars, trim_start, trim_start_chars,
};
use crate::text::{byte_len, collect_chars, str_byte_len, string_from_chars};
use crate::thinking::{clip_preview, copy_preview};
use base64::Engine;

verus! {

/// The colour family of a system line.
#[derive(Clone, Copy, Debug, PartialEq, Eq, Structural)]
pub enum Tone {
    Success,
    Error,
    Warning,
    Accent,
}

/// The marks that open a system message.
pub open spec fn system_marks() -> Seq<char> {
    seq!['\u{2713}', '\u{2717}', '\u{26a0}', '\u{1f4dd}', '\u{274c}', '\u{2705}', '\u{25b6}', '\u{1f916}']
}

/// How a message is shown: `None` for a message rendered as Markdown, else
/// the tone of its plain lines. A message is a system message when, after
/// its leading white space, it opens with one of the marks (or with two
/// spaces); its tone follows its very first character.
pub open spec fn system_tone(content: Seq<char>) -> Option<Tone> {
    let t = trim_start(content);
    let marked = (t.len() > 0 && system_marks().contains(t[0])) || starts_with(t, seq![' ', ' ']);
    if !marked {
        None
    } else if content.len() > 0 && content[0] == '\u{2713}' {
        Some(Tone::Success)
    } else if content.len() > 0 && content[0] == '\u{2717}' {
        Some(Tone::Error)
    } else if content.len() > 0 && content[0] == '\u{26a0}' {
        Some(Tone::Warning)
    } else {
        Some(Tone::Accent)
    }
}

fn is_mark(c: char) -> (r: bool)
    ensures
        r == system_marks().contains(c),
{
    let r = c == '\u{2713}' || c == '\u{2717}' || c == '\u{26a0}' || c == '\u{1f4dd}' || c == '\u{274c}'
        || c == '\u{2705}' || c == '\u{25b6}' || c == '\u{1f916}';
    proof {
        let m = system_marks();
        if r {
            if c == '\u{2713}' {
                assert(m[0] == c);
            } else if c == '\u{2717}' {
                assert(m[1] == c);
            } else if c == '\u{26a0}' {
                assert(m[2] == c);
            } else if c == '\u{1f4dd}' {
                assert(m[3] == c);
            } else if c == '\u{274c}' {
                assert(m[4] == c);
            } else if c == '\u{2705}' {
                assert(m[5] == c);
            } else if c == '\u{25b6}' {
                assert(m[6] == c);
            } else {
                assert(m[7] == c);
            }
        }
    }
    r
}

/// How `content` is shown.
pub fn message_tone(content: &str) -> (r: Option<Tone>)
    ensures
        r == system_tone(content@),
{
    let v = collect_chars(content);
    let t = trim_start_chars(&v);
    let two_spaces = t.len() >= 2 && t[0] == ' ' && t[1] == ' ';
    proof {
        if two_spaces {
            assert(t@.take(2) =~= seq![' ', ' ']);
        }
        if starts_with(t@, seq![' ', ' ']) {
            assert(t@.take(2)[0] == ' ' && t@.take(2)[1] == ' ');
        }
    }
    let marked = (t.len() > 0 && is_mark(t[0])) || two_spaces;
    if !marked {
        None
    } else if v.len() > 0 && v[0] == '\u{2713}' {
        Some(Tone::Success)
    } else if v.len() > 0 && v[0] == '\u{2717}' {
        Some(Tone::Error)
    } else if v.len() > 0 && v[0] == '\u{26a0}' {
        Some(Tone::Warning)
    } else {
        Some(Tone::Accent)
    }
}

pub open spec fn lines_view(v: Seq<String>) -> Seq<Seq<char>> {
    v.map_values(|s: String| s@)
}

/// The lines of a message: its pieces between line breaks.
pub fn message_lines(content: &str) -> (r: Vec<String>)
    ensures
        lines_view(r@) == split_on(content@, '\n'),
{
    let v = collect_chars(content);
    let pieces = split_chars(&v, '\n');
    let mut out: Vec<String> = Vec::new();
    let mut i: usize = 0;
    while i < pieces.len()
        invariant
            i <= pieces@.len(),
            pieces@.map_values(|p: Vec<char>| p@) == split_on(content@, '\n'),
            lines_view(out@) == pieces@.map_values(|p: Vec<char>| p@).take(i as int),
        decreases pieces.len() - i,
    {
        let s = string_from_chars(&pieces[i]);
        let ghost ob = out@;
        out.push(s);
        proof {
            assert(lines_view(out@) =~= lines_view(ob).push(s@));
            assert(pieces@.map_values(|p: Vec<char>| p@).take(i + 1) =~= pieces@.map_values(
                |p: Vec<char>| p@,
            ).take(i as int).push(pieces@[i as int]@));
        }
        i = i + 1;
    }
    assert(pieces@.map_values(|p: Vec<char>| p@).take(pieces@.len() as int) =~= pieces@.map_values(
        |p: Vec<char>| p@,
    ));
    out
}

/// The log lines of a user's message: each of its lines put in a template,
/// the first in `first`, the others in `cont`.
pub open spec fn user_lines(content: Seq<char>, first: Seq<char>, cont: Seq<char>) -> Seq<Seq<char>> {
    let pieces = split_on(content, '\n');
    Seq::new(pieces.len(), |i: int| if i == 0 { fill(first, pieces[i]) } else { fill(cont, pieces[i]) })
}

pub fn user_message_lines(content: &str, first: &str, cont: &str) -> (r: Vec<String>)
    ensures
        lines_view(r@) == user_lines(content@, first@, cont@),
{
    let lines = message_lines(content);
    let ghost expected = user_lines(content@, first@, cont@);
    let mut out: Vec<String> = Vec::new();
    let mut i: usize = 0;
    while i < lines.len()
        invariant
            i <= lines@.len(),
            lines_view(lines@) == split_on(content@, '\n'),
            expected == user_lines(content@, first@, cont@),
            lines_view(out@) == expected.take(i as int),
        decreases lines.len() - i,
    {
        let s = if i == 0 {
            replace_all_str(first, "{}", lines[i].as_str())
        } else {
            replace_all_str(cont, "{}", lines[i].as_str())
        };
        let ghost ob = out@;
        out.push(s);
        proof {
            assert(lines@[i as int]@ == split_on(content@, '\n')[i as int]);
            assert(lines_view(out@) =~= lines_view(ob).push(s@));
            assert(expected.take(i + 1) =~= expected.take(i as int).push(expected[i as int]));
        }
        i = i + 1;
    }
    assert(expected.take(lines@.len() as int) =~= expected);
    out
}

// ---------- copying ----------

/// The standard base64 encoding (with padding) of the UTF-8 bytes of `text`,
/// as the `base64` crate's `STANDARD` engine computes it.
pub uninterp spec fn base64_standard(text: Seq<char>) -> Seq<char>;

/// Calls `Engine::encode` of `base64::engine::general_purpose::STANDARD` on
/// the string's bytes; the contract names the result `base64_standard(text@)`.
/// The encoder panics when the encoded length overflows, which the bound on
/// the input rules out.
#[verifier::external_body]
fn base64_encode(text: &str) -> (r: String)
    requires
        byte_len(text@) <= usize::MAX / 2,
    ensures
        r@ == base64_standard(text@),
{
    base64::engine::general_purpose::STANDARD.encode(text)
}

/// The terminal control sequence (OSC 52) that puts `text` on the
/// terminal's clipboard.
pub open spec fn osc52_spec(text: Seq<char>) -> Seq<char> {
    seq!['\u{1b}', ']', '5', '2', ';', 'c', ';'] + base64_standard(text) + seq!['\u{7}']
}

pub fn osc52_sequence(text: &str) -> (r: String)
    requires
        byte_len(text@) <= usize::MAX / 2,
    ensures
        r@ == osc52_spec(text@),
{
    let encoded = base64_encode(text);
    let mut head: Vec<char> = Vec::new();
    head.push('\u{1b}');
    head.push(']');
    head.push('5');
    head.push('2');
    head.push(';');
    head.push('c');
    head.push(';');
    let mut s = string_from_chars(&head);
    s.append(encoded.as_str());
    s.append("\u{7}");
    proof {
        reveal_strlit("\u{7}");
    }
    assert(head@ =~= seq!['\u{1b}', ']', '5', '2', ';', 'c', ';']);
    s
}

/// Where copied text went: the system clipboard, the terminal's clipboard,
/// or the interface's own buffer.
#[derive(Clone, Copy, Debug, PartialEq, Eq, Structural)]
pub enum CopyRoute {
    Clipboard,
    Terminal,
    Internal,
}

/// Number of characters of copied text quoted in the notice.
pub const COPY_PREVIEW_CHARS: usize = 40;

/// The notice of a copy: the template of its route with the first forty
/// characters of the text.
pub fn copy_notice(route: CopyRoute, text: &str, copied: &str, copied_terminal: &str, copied_internal: &str) -> (r: String)
    ensures
        r@ == fill(
            match route {
                CopyRoute::Clipboard => copied@,
                CopyRoute::Terminal => copied_terminal@,
                CopyRoute::Internal => copied_internal@,
            },
            take_at_most(text@, COPY_PREVIEW_CHARS as nat),
        ),
{
    let preview = take_chars(text, COPY_PREVIEW_CHARS);
    let t = match route {
        CopyRoute::Clipboard => copied,
        CopyRoute::Terminal => copied_terminal,
        CopyRoute::Internal => copied_internal,
    };
    replace_all_str(t, "{}", preview.as_str())
}

pub open spec fn popup_notice_head(route: CopyRoute) -> Seq<char> {
    match route {
        CopyRoute::Clipboard => "\u{1f4cb} Copied: "@,
        CopyRoute::Terminal => "\u{1f4cb} Copied to terminal clipboard: "@,
        CopyRoute::Internal => "\u{1f4cb} Copied to internal buffer (clipboard unavailable): "@,
    }
}

/// The notice of copying a popup's text: the route's wording and the text,
/// cut after forty characters with an ellipsis.
pub fn popup_copy_notice(route: CopyRoute, text: &String) -> (r: String)
    ensures
        r@ == popup_notice_head(route) + copy_preview(text@),
{
    let mut s = match route {
        CopyRoute::Clipboard => "\u{1f4cb} Copied: ".to_owned(),
        CopyRoute::Terminal => "\u{1f4cb} Copied to terminal clipboard: ".to_owned(),
        CopyRoute::Internal => "\u{1f4cb} Copied to internal buffer (clipboard unavailable): ".to_owned(),
    };
    let preview = clip_preview(text);
    s.append(preview.as_str());
    s
}

} // verus!
