//! Turns of an agent and the delivery of replies.

use openab::adapter::directives::parse_output_directives;
use openab::adapter::reply::{
    append_attachment_warnings, finish_chunks, split_limit, DeliveryAction, DeliveryMode,
    DeliveryPlan,
};
use openab::adapter::router::{unsupported_upload_text, warning_text, AdapterRouter};
use openab::adapter::session::SessionDirectives;
use openab::adapter::turn::{
    sanitize_title, stream_edit, AcpEvent, Turn, TurnInput, TurnReaction, TurnReply,
};
use openab::adapter::types::{ChannelRef, MessageContext, MessageRef};
use openab::config::{
    AgentAttachmentsConfig, ReactionEmojis, ReactionTiming, ReactionsConfig, ToolDisplay,
    WorkspaceRequest,
};

fn turn() -> Turn {
    Turn::new(7, 60, false, true, ToolDisplay::Full)
}

fn text(s: &str) -> TurnInput {
    TurnInput::Event(AcpEvent::Text(s.to_string()))
}

fn started(id: &str, title: &str) -> TurnInput {
    TurnInput::Event(AcpEvent::ToolStart {
        id: id.to_string(),
        title: title.to_string(),
    })
}

fn ended(id: &str, title: &str, status: &str) -> TurnInput {
    TurnInput::Event(AcpEvent::ToolDone {
        id: id.to_string(),
        title: title.to_string(),
        status: status.to_string(),
    })
}

fn done(id: u64, silent: bool) -> TurnInput {
    TurnInput::Response {
        id,
        reply: TurnReply::Done { silent },
    }
}

#[test]
fn text_is_collected_and_published() {
    let mut t = turn();
    assert_eq!(t.step(text("Hel")).publish.as_deref(), Some("Hel"));
    assert_eq!(t.step(text("lo\n")).publish.as_deref(), Some("Hello"));
    let end = t.step(done(7, false));
    assert!(end.finished);
    assert_eq!(t.reply("Hello\n", false, &[]), "Hello");
}

#[test]
fn tools_are_tracked_by_id() {
    let mut t = turn();
    let step = t.step(started("1", "run\n`ls`\r"));
    assert!(matches!(step.reaction, TurnReaction::Tool(ref s) if s == "run\n`ls`\r"));
    assert_eq!(step.publish.as_deref(), Some("🔧 `run ; 'ls'`...\n\n"));
    let step = t.step(ended("1", "", "completed"));
    assert!(matches!(step.reaction, TurnReaction::Thinking));
    assert_eq!(step.publish.as_deref(), Some("✅ `run ; 'ls'`\n\n"));
    t.step(ended("2", "fetch", "failed"));
    t.step(ended("3", "", "failed"));
    assert_eq!(t.tool_lines.len(), 2);
    assert_eq!(
        t.reply("ok", false, &[]),
        "✅ `run ; 'ls'`\n❌ `fetch`\n\nok"
    );
    // A call that starts again runs again.
    t.step(started("1", "again"));
    assert_eq!(t.tool_lines.len(), 2);
    // A call without a title is not shown.
    let step = t.step(started("9", ""));
    assert!(step.publish.is_none());
    assert_eq!(sanitize_title("a\r\nb`c"), "a ; b'c");
}

#[test]
fn long_tool_lists_are_collapsed_while_streaming() {
    let mut t = turn();
    for i in 0..4 {
        t.step(ended(&format!("d{i}"), "done", "completed"));
    }
    for i in 0..5 {
        t.step(started(&format!("r{i}"), &format!("run{i}")));
    }
    let shown = t.step(text("x")).publish.unwrap();
    assert_eq!(
        shown,
        "✅ 4 tool(s) completed\n🔧 2 more running\n🔧 `run2`...\n🔧 `run3`...\n🔧 `run4`...\n\nx"
    );
}

#[test]
fn stale_responses_are_ignored() {
    let mut t = turn();
    let step = t.step(TurnInput::Response {
        id: 6,
        reply: TurnReply::Error("late".to_string()),
    });
    assert!(!step.finished);
    assert_eq!(t.response_error, None);
    t.step(done(7, false));
    // A finished turn takes nothing more.
    let step = t.step(text("leak"));
    assert!(step.finished);
    assert!(step.publish.is_none());
    assert_eq!(t.text_buf, "");
}

#[test]
fn dead_or_slow_agents_are_given_up() {
    let mut t = turn();
    let calm = t.step(TurnInput::Tick {
        alive: true,
        elapsed_nanos: 60_000_000_000,
    });
    assert!(!calm.finished && !calm.abandon);
    let slow = t.step(TurnInput::Tick {
        alive: true,
        elapsed_nanos: 60_000_000_001,
    });
    assert!(slow.finished && slow.abandon);
    assert_eq!(
        t.reply("", false, &[]),
        "⚠️ Agent exceeded hard timeout (60s)"
    );

    let mut t = turn();
    let dead = t.step(TurnInput::Tick {
        alive: false,
        elapsed_nanos: 0,
    });
    assert!(dead.finished && dead.abandon);
    assert_eq!(t.reply("part", false, &[]), "⚠️ Agent process died\n\npart");

    let mut t = turn();
    let closed = t.step(TurnInput::Closed);
    assert!(closed.finished && !closed.abandon);
    assert_eq!(
        t.reply("", false, &[]),
        "⚠️ Agent process exited unexpectedly"
    );
}

#[test]
fn empty_replies_get_a_stand_in() {
    let mut t = turn();
    t.step(done(7, false));
    assert_eq!(t.reply("", false, &[]), "_(no response)_");
    assert_eq!(t.reply("", true, &[]), "Attached requested file(s).");
    let warning = vec!["⚠️ w".to_string()];
    assert_eq!(t.reply("", false, &warning), "⚠️ w");
    assert_eq!(t.reply("text", false, &warning), "text\n\n⚠️ w");

    let mut t = turn();
    t.step(done(7, true));
    assert_eq!(
        t.reply("", false, &[]),
        "⚠️ Agent ended the turn with no output (0 output tokens) — likely a silent provider or auth failure"
    );
    // A turn that produced something is not silent.
    assert_eq!(t.reply("hi", false, &[]), "hi");

    let mut t = turn();
    t.step(TurnInput::Response {
        id: 7,
        reply: TurnReply::Error("quota".to_string()),
    });
    assert_eq!(t.reply("", true, &[]), "⚠️ quota");
}

#[test]
fn other_events_only_ask_for_what_they_need() {
    let mut t = turn();
    assert!(matches!(
        t.step(TurnInput::Event(AcpEvent::Thinking)).reaction,
        TurnReaction::Thinking
    ));
    let config = t.step(TurnInput::Event(AcpEvent::ConfigUpdate));
    assert!(config.adopt_config && config.publish.is_none());
    let other = t.step(TurnInput::Event(AcpEvent::Other));
    assert!(!other.adopt_config && !other.finished);
}

#[test]
fn expired_session_is_announced() {
    let t = Turn::new(1, 60, true, false, ToolDisplay::Compact);
    assert_eq!(t.text_buf, "⚠️ _Session expired, starting fresh..._\n\n");
    assert_eq!(
        Turn::placeholder_text(true),
        "⚠️ _Session expired, starting fresh..._\n\n…"
    );
    assert_eq!(Turn::placeholder_text(false), "…");
}

#[test]
fn streamed_edits_show_the_end_of_long_content() {
    assert_eq!(stream_edit("same", "same", 2000), None);
    assert_eq!(stream_edit("new", "old", 2000).as_deref(), Some("new"));
    let long = format!("{}END", "x".repeat(200));
    assert_eq!(
        stream_edit(&long, "", 110).as_deref(),
        Some(format!("…{}END", "x".repeat(7)).as_str())
    );
    assert_eq!(stream_edit(&"y".repeat(10), "", 110), Some("y".repeat(10)));
}

fn strings(v: &[&str]) -> Vec<String> {
    v.iter().map(|s| s.to_string()).collect()
}

fn plan(
    platform: &str,
    content: &str,
    chunks: &[&str],
    attachments: bool,
    placeholder: bool,
    reply_to: Option<&str>,
) -> DeliveryPlan {
    DeliveryPlan::new(
        platform,
        content,
        strings(chunks),
        attachments,
        placeholder,
        reply_to.map(|r| r.to_string()),
    )
}

#[test]
fn streamed_reply_is_edited_into_the_placeholder() {
    let p = plan("slack", "ab", &["a", "b"], false, true, None);
    assert!(matches!(
        p.first(),
        Some(DeliveryAction::EditPlaceholder { ref content }) if content == "a"
    ));
    let rest = p.rest(&None);
    assert_eq!(rest.len(), 1);
    assert!(matches!(rest[0], DeliveryAction::Send { ref content } if content == "b"));
}

#[test]
fn mention_of_a_bot_is_sent_fresh() {
    let p = plan("discord", "<@1> hi", &["<@1> hi"], false, true, None);
    assert_eq!(p.mode, DeliveryMode::ReplacePlaceholder);
    assert!(matches!(p.first(), Some(DeliveryAction::Send { .. })));
    assert!(matches!(p.rest(&None)[0], DeliveryAction::DeletePlaceholder));
    // The placeholder stays where sending failed.
    assert!(p.rest(&Some("down".to_string())).is_empty());
    let p = plan("slack", "<@1> hi", &["<@1> hi"], false, true, None);
    assert_eq!(p.mode, DeliveryMode::EditPlaceholder);
}

#[test]
fn reply_replaces_the_placeholder() {
    let p = plan("discord", "ab", &["a", "b"], false, true, Some("42"));
    match p.first() {
        Some(DeliveryAction::SendReply { content, reply_to }) => {
            assert_eq!((content.as_str(), reply_to.as_str()), ("a", "42"))
        }
        other => panic!("unexpected {other:?}"),
    }
    let rest = p.rest(&None);
    assert!(matches!(rest[0], DeliveryAction::Send { ref content } if content == "b"));
    assert!(matches!(rest[1], DeliveryAction::DeletePlaceholder));
    let failed = p.rest(&Some("down".to_string()));
    assert_eq!(failed.len(), 1);
}

#[test]
fn attachments_come_with_the_first_part() {
    let p = plan("discord", "ab", &["a", "b"], true, true, Some("42"));
    match p.first() {
        Some(DeliveryAction::SendAttachments { content, reply }) => {
            assert_eq!((content.as_str(), reply.as_deref()), ("a", Some("42")))
        }
        other => panic!("unexpected {other:?}"),
    }
    let rest = p.rest(&None);
    assert!(matches!(rest[0], DeliveryAction::DeletePlaceholder));
    assert!(matches!(rest[1], DeliveryAction::Send { ref content } if content == "b"));
    match &p.rest(&Some("boom".to_string()))[..] {
        [DeliveryAction::EditPlaceholder { content }] => {
            assert_eq!(content, "⚠️ attachment send failed: boom")
        }
        other => panic!("unexpected {other:?}"),
    }
    let p = plan("discord", "", &[], true, false, None);
    match p.first() {
        Some(DeliveryAction::SendAttachments { content, .. }) => {
            assert_eq!(content, "Attached requested file(s).")
        }
        other => panic!("unexpected {other:?}"),
    }
    assert!(matches!(
        p.rest(&Some("boom".to_string()))[0],
        DeliveryAction::Send { .. }
    ));
}

#[test]
fn reply_without_placeholder_is_sent_once() {
    let p = plan("slack", "ab", &["a", "b"], false, false, Some("42"));
    assert_eq!(p.mode, DeliveryMode::FreshReply);
    assert!(matches!(p.first(), Some(DeliveryAction::SendReply { .. })));
    let p = plan("slack", "ab", &["a", "b"], false, false, None);
    assert!(matches!(p.first(), Some(DeliveryAction::Send { .. })));
    assert_eq!(p.rest(&Some("down".to_string())).len(), 1);
    let p = plan("slack", "", &[], false, true, Some("42"));
    assert!(p.first().is_none());
    assert!(p.rest(&None).is_empty());
}

#[test]
fn split_limit_leaves_room_for_mentions() {
    assert_eq!(split_limit("discord", "<@123> hi", 2000), 1993);
    assert_eq!(split_limit("slack", "<@123> hi", 2000), 2000);
    assert_eq!(split_limit("discord", "<@123> hi", 5), 0);
    assert_eq!(
        finish_chunks("discord", "<@1> ab", strings(&["<@1> a", "b"]), 2000),
        strings(&["<@1> a", "b\n<@1>"])
    );
    assert_eq!(
        finish_chunks("slack", "<@1> ab", strings(&["<@1> a", "b"]), 2000),
        strings(&["<@1> a", "b"])
    );
}

#[test]
fn warnings_stand_below_the_content() {
    let w = strings(&["w1", "w2"]);
    assert_eq!(append_attachment_warnings("c".to_string(), &w), "c\n\nw1\nw2");
    assert_eq!(append_attachment_warnings("  \n".to_string(), &w), "w1\nw2");
    assert_eq!(append_attachment_warnings("c".to_string(), &[]), "c");
}

#[test]
fn non_discord_attachment_fallback_warns() {
    let sent = unsupported_upload_text("test", 1, "body");
    assert!(sent.contains("body"));
    assert!(sent.contains("attachment upload is not supported"));
    assert_eq!(
        unsupported_upload_text("test", 2, " "),
        "⚠️ attachment upload is not supported on test for 2 requested file(s)."
    );
}

fn router() -> AdapterRouter {
    AdapterRouter::new(
        ReactionsConfig {
            enabled: true,
            remove_after_reply: true,
            emojis: ReactionEmojis {
                queued: "q".into(),
                thinking: "t".into(),
                tool: "o".into(),
                coding: "c".into(),
                web: "w".into(),
                done: "d".into(),
                error: "e".into(),
            },
            timing: ReactionTiming {
                debounce_ms: 1,
                stall_soft_ms: 2,
                stall_hard_ms: 3,
                done_hold_ms: 4,
                error_hold_ms: 5,
            },
            tool_display: ToolDisplay::Compact,
        },
        AgentAttachmentsConfig {
            enabled: false,
            allowed_paths: vec![],
            max_files: 0,
            max_file_bytes: 0,
            max_total_bytes: 0,
        },
        1800,
        30,
    )
}

#[test]
fn turn_end_depends_on_the_result() {
    let r = router();
    let ok = r.turn_end(&None);
    assert!(ok.succeeded && ok.clear && ok.hold_ms == 4 && ok.notice.is_none());
    let failed = r.turn_end(&Some("boom".to_string()));
    assert!(!failed.succeeded && failed.hold_ms == 5);
    assert_eq!(failed.notice.as_deref(), Some("⚠️ boom"));
    assert!(!r.ceiling_may_be_missed());
    assert_eq!(r.liveness_interval(), 30);
    assert_eq!(r.start_turn(3, false, true).hard_timeout_secs, 1800);
    assert_eq!(warning_text("x"), "⚠️ x");
    assert!(!r.attachments_config().enabled);
    assert!(r.reactions_config().enabled);
}

fn context(prompt: &str, given: SessionDirectives) -> MessageContext {
    let channel = ChannelRef {
        platform: "slack".into(),
        channel_id: "C".into(),
        thread_id: Some("T".into()),
        parent_id: None,
        origin_event_id: None,
    };
    MessageContext {
        thread_channel: channel.clone(),
        sender_json: "{}".into(),
        prompt: prompt.into(),
        session_directives: given,
        extra_blocks: vec![],
        trigger_msg: MessageRef {
            channel,
            message_id: "m".into(),
        },
        other_bot_present: false,
    }
}

#[test]
fn message_is_prepared_with_its_directives() {
    let p = AdapterRouter::prepare_message(
        "slack",
        &context("[[ws:a]] hello", SessionDirectives::default()),
    )
    .unwrap();
    assert_eq!(p.thread_key, "slack:T");
    assert_eq!(p.workspace_request, Some(WorkspaceRequest::Existing("a".to_string())));
    assert_eq!(p.content_blocks.len(), 2);

    // What the adapter found out comes first.
    let given = SessionDirectives {
        workspace: None,
        title: Some("t".to_string()),
    };
    let p = AdapterRouter::prepare_message("slack", &context("[[ws:a]] hello", given)).unwrap();
    assert_eq!(p.workspace_request, None);

    let err = AdapterRouter::prepare_message(
        "slack",
        &context("[[:a]]", SessionDirectives::default()),
    )
    .unwrap_err();
    assert_eq!(err.message(), "empty session directive key");
}

#[test]
fn directives_of_a_reply_are_not_shown() {
    let mut t = turn();
    t.step(text("[[reply_to:12]]\nHi"));
    t.step(done(7, false));
    let (d, body) = parse_output_directives(&t.text_buf);
    assert_eq!(d.reply_to.as_deref(), Some("12"));
    assert_eq!(t.reply(&body, false, &[]), "Hi");
}
