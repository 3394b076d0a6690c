//! Session directives in user prompts, and the packing of prompts.

use openab::acp::ContentBlock;
use openab::adapter::router::AdapterRouter;
use openab::config::WorkspaceRequest;

#[test]
fn parse_session_directives_inline_ws_title() {
    let (directives, content) =
        AdapterRouter::parse_session_directives("[[ws:foo]] [[title:修 bug]]  do work")
            .unwrap();
    assert_eq!(
        directives.workspace,
        Some(WorkspaceRequest::Existing("foo".to_string()))
    );
    assert_eq!(directives.title, Some("修 bug".to_string()));
    assert_eq!(content, "do work");
}

#[test]
fn parse_session_directives_multiline_and_create() {
    let (directives, content) =
        AdapterRouter::parse_session_directives("[[ws:team/foo --create]]\n開始調查").unwrap();
    assert_eq!(
        directives.workspace,
        Some(WorkspaceRequest::Create("team/foo".to_string()))
    );
    assert_eq!(content, "開始調查");
}

#[test]
fn parse_session_directives_duplicate_key_last_wins() {
    let (directives, content) = AdapterRouter::parse_session_directives(
        "[[ws:foo]] [[ws:bar]] [[title:old]] [[title:new]] work",
    )
    .unwrap();
    assert_eq!(
        directives.workspace,
        Some(WorkspaceRequest::Existing("bar".to_string()))
    );
    assert_eq!(directives.title, Some("new".to_string()));
    assert_eq!(content, "work");
}

#[test]
fn parse_session_directives_absent_preserves_prompt() {
    let input = "do work in /workspace/foo";
    let (directives, content) = AdapterRouter::parse_session_directives(input).unwrap();
    assert_eq!(directives.workspace, None);
    assert_eq!(directives.title, None);
    assert_eq!(content, input);
}

#[test]
fn prompt_without_directives_is_verbatim() {
    for input in ["  a\n    b\n", "\n\tfn main() {}\r\n", "  ", "a [b] ]] c"] {
        let (directives, content) = AdapterRouter::parse_session_directives(input).unwrap();
        assert!(!directives.has_any());
        assert_eq!(content, input);
    }
    let (_, content) = AdapterRouter::parse_session_directives("[[ws:a]]\n  a\n    b\n").unwrap();
    assert_eq!(content, "a\nb");
}

#[test]
fn parse_session_directives_old_cwd_syntax_is_plain_prompt() {
    let input = "[cwd:/workspace/foo]\ndo work";
    let (directives, content) = AdapterRouter::parse_session_directives(input).unwrap();
    assert_eq!(directives.workspace, None);
    assert_eq!(directives.title, None);
    assert_eq!(content, input);
}

#[test]
fn parse_session_directives_unknown_key_errors() {
    let err = AdapterRouter::parse_session_directives("[[wz:foo]] do work").unwrap_err();
    assert!(err.message().contains("unknown session directive: wz"));
}

#[test]
fn parse_session_directives_unknown_flag_errors() {
    let err = AdapterRouter::parse_session_directives("[[ws:foo --init]] do work").unwrap_err();
    assert!(err.message().contains("unknown workspace flag: --init"));
}

#[test]
fn parse_session_directives_empty_values_error() {
    let err = AdapterRouter::parse_session_directives("[[ws:]] do work").unwrap_err();
    assert!(err.message().contains("empty workspace directive"));

    let err = AdapterRouter::parse_session_directives("[[title:]] do work").unwrap_err();
    assert!(err.message().contains("empty title directive"));
}

#[test]
fn parse_session_directives_rejects_unterminated() {
    let err = AdapterRouter::parse_session_directives("[[ws:foo").unwrap_err();
    assert!(err.message().contains("unterminated session directive"));
}

#[test]
fn parse_session_directives_rejects_malformed() {
    let err = AdapterRouter::parse_session_directives("[[ws]] do work").unwrap_err();
    assert!(err.message().contains("malformed session directive"));
}

#[test]
fn pack_arrival_event_single() {
    let blocks =
        AdapterRouter::pack_arrival_event(r#"{"schema":"openab.sender.v1"}"#, "hello", vec![]);
    // sender_context delimiter + prompt = 2 blocks
    assert_eq!(blocks.len(), 2);
    if let ContentBlock::Text { text } = &blocks[0] {
        assert!(text.contains("<sender_context>"));
        assert!(text.contains("</sender_context>"));
        // Header is delimiter only — prompt lives in its own block.
        assert!(!text.contains("hello"));
    } else {
        panic!("expected Text delimiter block");
    }
    if let ContentBlock::Text { text } = &blocks[1] {
        assert_eq!(text, "hello");
    } else {
        panic!("expected Text prompt block");
    }
}

#[test]
fn pack_arrival_event_with_extra_blocks() {
    let extra = vec![
        ContentBlock::Text {
            text: "[Voice transcript]: hi".into(),
        },
        ContentBlock::Image {
            media_type: "image/png".into(),
            data: "abc".into(),
        },
    ];
    let blocks = AdapterRouter::pack_arrival_event("{}", "prompt", extra);
    // delimiter + transcript + prompt + image = 4 blocks
    assert_eq!(blocks.len(), 4);
    assert!(
        matches!(&blocks[0], ContentBlock::Text { text } if text.contains("<sender_context>"))
    );
    assert!(
        matches!(&blocks[1], ContentBlock::Text { text } if text.contains("Voice transcript"))
    );
    assert!(matches!(&blocks[2], ContentBlock::Text { text } if text == "prompt"));
    assert!(matches!(&blocks[3], ContentBlock::Image { .. }));
}

#[test]
fn pack_arrival_event_batch_n2() {
    // Two arrival events concatenated → 2 (header + prompt) pairs = 4 blocks.
    let mut all: Vec<ContentBlock> = Vec::new();
    all.extend(AdapterRouter::pack_arrival_event(
        r#"{"ts":"T1"}"#,
        "msg1",
        vec![],
    ));
    all.extend(AdapterRouter::pack_arrival_event(
        r#"{"ts":"T2"}"#,
        "msg2",
        vec![],
    ));
    assert_eq!(all.len(), 4);
    if let ContentBlock::Text { text } = &all[0] {
        assert!(text.contains(r#""ts":"T1""#));
        assert!(!text.contains("msg1"));
    }
    if let ContentBlock::Text { text } = &all[1] {
        assert_eq!(text, "msg1");
    }
    if let ContentBlock::Text { text } = &all[2] {
        assert!(text.contains(r#""ts":"T2""#));
        assert!(!text.contains("msg2"));
    }
    if let ContentBlock::Text { text } = &all[3] {
        assert_eq!(text, "msg2");
    }
}

#[test]
fn pack_arrival_event_scenario_b_image_in_separate_message() {
    let mut all: Vec<ContentBlock> = Vec::new();
    // M1 (alice): "see this image"
    all.extend(AdapterRouter::pack_arrival_event(
        r#"{"sender_id":"A","ts":"T1"}"#,
        "see this image",
        vec![],
    ));
    // M2 (alice): image, no text
    all.extend(AdapterRouter::pack_arrival_event(
        r#"{"sender_id":"A","ts":"T2"}"#,
        "",
        vec![ContentBlock::Image {
            media_type: "image/png".into(),
            data: "imgB".into(),
        }],
    ));
    // header(M1) + prompt(M1) + header(M2) + image(M2) = 4 blocks
    // (M2 has empty prompt, so its prompt block is omitted)
    assert_eq!(all.len(), 4);
    if let ContentBlock::Text { text } = &all[0] {
        assert!(text.contains(r#""sender_id":"A""#));
        assert!(text.contains(r#""ts":"T1""#));
    } else {
        panic!("expected Text delimiter for M1");
    }
    if let ContentBlock::Text { text } = &all[1] {
        assert_eq!(text, "see this image");
    } else {
        panic!("expected Text prompt for M1");
    }
    if let ContentBlock::Text { text } = &all[2] {
        assert!(text.contains(r#""ts":"T2""#));
    } else {
        panic!("expected Text delimiter for M2");
    }
    // M2's image follows immediately after its delimiter (no prompt block).
    assert!(matches!(&all[3], ContentBlock::Image { .. }));
}

#[test]
fn pack_arrival_event_scenario_c_multi_author_interleaved() {
    let mut all: Vec<ContentBlock> = Vec::new();
    all.extend(AdapterRouter::pack_arrival_event(
        r#"{"sender_id":"A","ts":"T1"}"#,
        "see this image",
        vec![],
    ));
    all.extend(AdapterRouter::pack_arrival_event(
        r#"{"sender_id":"B","ts":"T2"}"#,
        "what?",
        vec![],
    ));
    all.extend(AdapterRouter::pack_arrival_event(
        r#"{"sender_id":"A","ts":"T3"}"#,
        "",
        vec![ContentBlock::Image {
            media_type: "image/png".into(),
            data: "imgC".into(),
        }],
    ));
    // M1: header + prompt = 2 blocks
    // M2: header + prompt = 2 blocks
    // M3: header + image = 2 blocks (empty prompt → no prompt block)
    // total = 6
    assert_eq!(all.len(), 6);
    let h1 = match &all[0] {
        ContentBlock::Text { text } => text,
        _ => panic!("expected Text delimiter for M1"),
    };
    let p1 = match &all[1] {
        ContentBlock::Text { text } => text,
        _ => panic!("expected Text prompt for M1"),
    };
    let h2 = match &all[2] {
        ContentBlock::Text { text } => text,
        _ => panic!("expected Text delimiter for M2"),
    };
    let p2 = match &all[3] {
        ContentBlock::Text { text } => text,
        _ => panic!("expected Text prompt for M2"),
    };
    let h3 = match &all[4] {
        ContentBlock::Text { text } => text,
        _ => panic!("expected Text delimiter for M3"),
    };
    assert!(h1.contains(r#""sender_id":"A""#) && h1.contains(r#""ts":"T1""#));
    assert_eq!(p1, "see this image");
    assert!(h2.contains(r#""sender_id":"B""#) && h2.contains(r#""ts":"T2""#));
    assert_eq!(p2, "what?");
    assert!(h3.contains(r#""sender_id":"A""#) && h3.contains(r#""ts":"T3""#));
    // M3's image attached to M3 only.
    assert!(matches!(&all[5], ContentBlock::Image { .. }));
}

#[test]
fn pack_arrival_event_scenario_d_voice_only() {
    let mut all: Vec<ContentBlock> = Vec::new();
    all.extend(AdapterRouter::pack_arrival_event(
        r#"{"sender_id":"A","ts":"T1"}"#,
        "look at this",
        vec![ContentBlock::Image {
            media_type: "image/png".into(),
            data: "scr".into(),
        }],
    ));
    all.extend(AdapterRouter::pack_arrival_event(
        r#"{"sender_id":"A","ts":"T2"}"#,
        "",
        vec![ContentBlock::Text {
            text: "[Voice message transcript]: hey can we sync about the deploy".into(),
        }],
    ));
    all.extend(AdapterRouter::pack_arrival_event(
        r#"{"sender_id":"B","ts":"T3"}"#,
        "what?",
        vec![],
    ));
    // M1: header + prompt + image = 3
    // M2: header + transcript = 2 (empty prompt → no prompt block)
    // M3: header + prompt = 2
    // total = 7
    assert_eq!(all.len(), 7);
    if let ContentBlock::Text { text } = &all[0] {
        assert!(text.contains(r#""ts":"T1""#));
        assert!(!text.contains("look at this"));
    }
    if let ContentBlock::Text { text } = &all[1] {
        assert_eq!(text, "look at this");
    }
    assert!(matches!(&all[2], ContentBlock::Image { .. }));
    if let ContentBlock::Text { text } = &all[3] {
        assert!(text.contains(r#""ts":"T2""#));
    }
    // Transcript precedes prompt (and prompt is omitted here because empty).
    if let ContentBlock::Text { text } = &all[4] {
        assert!(text.contains("Voice message transcript"));
        assert!(text.contains("sync about the deploy"));
    } else {
        panic!("expected transcript Text block after M2 delimiter");
    }
    if let ContentBlock::Text { text } = &all[5] {
        assert!(text.contains(r#""sender_id":"B""#));
    }
    if let ContentBlock::Text { text } = &all[6] {
        assert_eq!(text, "what?");
    }
}
