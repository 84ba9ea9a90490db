use tact::messages::{
    CopyRoute, Tone, copy_notice, message_lines, message_tone, osc52_sequence, popup_copy_notice,
    user_message_lines,
};

#[test]
fn system_messages_by_mark() {
    assert_eq!(message_tone("✓ done"), Some(Tone::Success));
    assert_eq!(message_tone("✗ failed"), Some(Tone::Error));
    assert_eq!(message_tone("⚠ careful"), Some(Tone::Warning));
    assert_eq!(message_tone("🤖 agent"), Some(Tone::Accent));
    assert_eq!(message_tone("  ✓ indented"), Some(Tone::Accent));
    assert_eq!(message_tone("plain **markdown**"), None);
    assert_eq!(message_tone("  1. step"), None);
    assert_eq!(message_tone(""), None);
}

#[test]
fn lines_of_messages() {
    assert_eq!(message_lines("a\nb"), vec!["a", "b"]);
    assert_eq!(message_lines("a\n"), vec!["a", ""]);
    assert_eq!(message_lines(""), vec![""]);
    assert_eq!(user_message_lines("first\nsecond", "> {}", ". {}"), vec!["> first", ". second"]);
}

#[test]
fn osc52_encodes_base64() {
    assert_eq!(osc52_sequence("hi"), "\u{1b}]52;c;aGk=\u{7}");
    assert_eq!(osc52_sequence(""), "\u{1b}]52;c;\u{7}");
    assert_eq!(osc52_sequence("é"), "\u{1b}]52;c;w6k=\u{7}");
}

#[test]
fn copy_notices() {
    let long: String = std::iter::repeat('a').take(45).collect();
    let n = copy_notice(CopyRoute::Terminal, &long, "c {}", "t {}", "i {}");
    assert_eq!(n, format!("t {}", "a".repeat(40)));
    assert_eq!(copy_notice(CopyRoute::Internal, "x", "c {}", "t {}", "i {}"), "i x");
    assert_eq!(popup_copy_notice(CopyRoute::Clipboard, &"short".to_string()), "📋 Copied: short");
    assert_eq!(
        popup_copy_notice(CopyRoute::Internal, &long),
        format!("📋 Copied to internal buffer (clipboard unavailable): {}…", "a".repeat(40))
    );
    assert_eq!(
        popup_copy_notice(CopyRoute::Terminal, &"b".repeat(40)),
        format!("📋 Copied to terminal clipboard: {}", "b".repeat(40))
    );
}
