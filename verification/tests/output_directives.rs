//! Directives in agent output.

use openab::adapter::directives::parse_output_directives;

#[test]
fn parse_reply_to_directive() {
    let input = "[[reply_to:1502606076451885136]]\nHello world";
    let (directives, content) = parse_output_directives(input);
    assert_eq!(directives.reply_to, Some("1502606076451885136".to_string()));
    assert!(directives.attachments.is_empty());
    assert_eq!(content, "Hello world");
}

#[test]
fn parse_no_directives() {
    let input = "Just plain content\nwith multiple lines";
    let (directives, content) = parse_output_directives(input);
    assert_eq!(directives.reply_to, None);
    assert_eq!(content, input);
}

#[test]
fn parse_multiple_directives() {
    let input = "[[reply_to:123456]]\n[[unknown_key:value]]\nContent here";
    let (directives, content) = parse_output_directives(input);
    assert_eq!(directives.reply_to, Some("123456".to_string()));
    assert_eq!(content, "Content here");
}

#[test]
fn parse_invalid_reply_to_rejects_whitespace() {
    let input = "[[reply_to:has spaces]]\nContent";
    let (directives, content) = parse_output_directives(input);
    assert_eq!(directives.reply_to, None);
    assert_eq!(content, "Content");
}

#[test]
fn parse_slack_ts_format_accepted() {
    let input = "[[reply_to:1234567890.123456]]\nContent";
    let (directives, content) = parse_output_directives(input);
    assert_eq!(directives.reply_to, Some("1234567890.123456".to_string()));
    assert_eq!(content, "Content");
}

#[test]
fn parse_empty_reply_to() {
    let input = "[[reply_to:]]\nContent";
    let (directives, content) = parse_output_directives(input);
    assert_eq!(directives.reply_to, None);
    assert_eq!(content, "Content");
}

#[test]
fn parse_crlf_line_endings() {
    let input = "[[reply_to:999]]\r\nContent with CRLF";
    let (directives, content) = parse_output_directives(input);
    assert_eq!(directives.reply_to, Some("999".to_string()));
    assert_eq!(content, "Content with CRLF");
}

#[test]
fn parse_directive_only_no_content() {
    let input = "[[reply_to:123]]";
    let (directives, content) = parse_output_directives(input);
    assert_eq!(directives.reply_to, Some("123".to_string()));
    assert_eq!(content, "");
}

#[test]
fn parse_late_reply_to_after_plain_text() {
    let input = "Normal first line\n[[reply_to:123]]\nMore content";
    let (directives, content) = parse_output_directives(input);
    assert_eq!(directives.reply_to, Some("123".to_string()));
    assert_eq!(content, "Normal first line\nMore content");
}

#[test]
fn parse_late_reply_to_inside_handoff_text() {
    let input = "我会使用 handoff 技能。Automatic approval review approved.[[reply_to:1512261692329824328]] <@1511955018805280849> 请继承当前 workspace。";
    let (directives, content) = parse_output_directives(input);
    assert_eq!(directives.reply_to, Some("1512261692329824328".to_string()));
    assert_eq!(
        content,
        "我会使用 handoff 技能。Automatic approval review approved. <@1511955018805280849> 请继承当前 workspace。"
    );
}

#[test]
fn parse_invalid_late_reply_to_is_preserved() {
    let input = "Explain [[reply_to:has spaces]] syntax";
    let (directives, content) = parse_output_directives(input);
    assert_eq!(directives.reply_to, None);
    assert_eq!(content, input);
}

#[test]
fn parse_duplicate_reply_to_last_wins() {
    let input = "[[reply_to:111]]\n[[reply_to:222]]\nContent";
    let (directives, content) = parse_output_directives(input);
    // Last value wins
    assert_eq!(directives.reply_to, Some("222".to_string()));
    assert_eq!(content, "Content");
}

#[test]
fn parse_crlf_multiple_directives() {
    let input = "[[reply_to:456]]\r\n[[unknown:x]]\r\nContent after CRLF";
    let (directives, content) = parse_output_directives(input);
    assert_eq!(directives.reply_to, Some("456".to_string()));
    assert_eq!(content, "Content after CRLF");
}

#[test]
fn parse_bracket_without_colon_preserved() {
    // [[Note]] has no colon — not a directive, preserved as content
    let input = "[[Summary]]\nThis is body text";
    let (directives, content) = parse_output_directives(input);
    assert_eq!(directives.reply_to, None);
    assert_eq!(content, input);
}

#[test]
fn parse_reply_to_with_inline_content() {
    // Agent puts content on same line as directive — should still parse
    let input = "[[reply_to:1502724086474870926]]  @BOT I'm on standby";
    let (directives, content) = parse_output_directives(input);
    assert_eq!(directives.reply_to, Some("1502724086474870926".to_string()));
    assert_eq!(content, "@BOT I'm on standby");
}

#[test]
fn parse_reply_to_inline_with_more_lines() {
    let input = "[[reply_to:123]]  First line\nSecond line\nThird line";
    let (directives, content) = parse_output_directives(input);
    assert_eq!(directives.reply_to, Some("123".to_string()));
    assert_eq!(content, "First line\nSecond line\nThird line");
}

#[test]
fn parse_reply_to_no_space_before_content() {
    // No space between ]] and content
    let input = "[[reply_to:1502724086474870926]]收到";
    let (directives, content) = parse_output_directives(input);
    assert_eq!(directives.reply_to, Some("1502724086474870926".to_string()));
    assert_eq!(content, "收到");
}

#[test]
fn parse_reply_to_inline_with_mention() {
    // Real-world case: directive followed by Discord mention
    let input = "[[reply_to:1502724086474870926]]  <@1490365068863606784> 我 standby";
    let (directives, content) = parse_output_directives(input);
    assert_eq!(directives.reply_to, Some("1502724086474870926".to_string()));
    assert_eq!(content, "<@1490365068863606784> 我 standby");
}

#[test]
fn parse_reply_to_inline_only_spaces() {
    // Trailing spaces only — no real content, should be empty
    let input = "[[reply_to:123]]   ";
    let (directives, content) = parse_output_directives(input);
    assert_eq!(directives.reply_to, Some("123".to_string()));
    assert_eq!(content, "");
}

#[test]
fn parse_reply_to_with_brackets_in_content() {
    // Content after ]] contains brackets — should not confuse parser
    let input = "[[reply_to:456]]  看看 [[這個]] 怎麼樣";
    let (directives, content) = parse_output_directives(input);
    assert_eq!(directives.reply_to, Some("456".to_string()));
    assert_eq!(content, "看看 [[這個]] 怎麼樣");
}

#[test]
fn parse_attach_directive() {
    let input = "[[attach:/workspace/out.log]]\nHere it is";
    let (directives, content) = parse_output_directives(input);
    assert_eq!(directives.attachments, vec!["/workspace/out.log"]);
    assert_eq!(content, "Here it is");
}

#[test]
fn parse_multiple_attach_directives() {
    let input = "[[attach:a.log]]\n[[attach:b.png]]\nDone";
    let (directives, content) = parse_output_directives(input);
    assert_eq!(directives.attachments, vec!["a.log", "b.png"]);
    assert_eq!(content, "Done");
}

#[test]
fn parse_reply_to_and_attach_inline() {
    let input = "[[reply_to:123]] [[attach:shot.png]] Screenshot attached";
    let (directives, content) = parse_output_directives(input);
    assert_eq!(directives.reply_to, Some("123".to_string()));
    assert_eq!(directives.attachments, vec!["shot.png"]);
    assert_eq!(content, "Screenshot attached");
}

#[test]
fn late_attach_is_preserved_as_text() {
    let input = "Explain [[attach:foo.log]] syntax";
    let (directives, content) = parse_output_directives(input);
    assert!(directives.attachments.is_empty());
    assert_eq!(content, input);
}

#[test]
fn parse_late_attach_after_agent_preamble() {
    let input = "Tool finished.[[attach:/workspace/out.log]]\nDone.";
    let (directives, content) = parse_output_directives(input);
    assert_eq!(directives.attachments, vec!["/workspace/out.log"]);
    assert_eq!(content, "Tool finished.\nDone.");
}

#[test]
fn parse_late_attach_only_at_line_boundary_after_close() {
    let input = "Explain [[attach:/workspace/out.log]] syntax";
    let (directives, content) = parse_output_directives(input);
    assert!(directives.attachments.is_empty());
    assert_eq!(content, input);
}
