//! Status reactions.

use openab::adapter::types::{ChannelRef, MessageRef};
use openab::config::{ReactionEmojis, ReactionTiming};
use openab::reactions::{
    classify_lower, classify_tool, ReactionPlan, StatusReactionController, TimerOp,
};

fn msg(id: &str) -> MessageRef {
    MessageRef {
        channel: ChannelRef {
            platform: "test".into(),
            channel_id: "chan".into(),
            thread_id: None,
            parent_id: None,
            origin_event_id: None,
        },
        message_id: id.to_string(),
    }
}

fn emojis() -> ReactionEmojis {
    ReactionEmojis {
        queued: "👀".into(),
        thinking: "🤔".into(),
        tool: "🔥".into(),
        coding: "👨‍💻".into(),
        web: "⚡".into(),
        done: "🆗".into(),
        error: "😱".into(),
    }
}

fn timing() -> ReactionTiming {
    ReactionTiming {
        debounce_ms: 700,
        stall_soft_ms: 10_000,
        stall_hard_ms: 30_000,
        done_hold_ms: 1_500,
        error_hold_ms: 2_500,
    }
}

fn controller(ids: &[&str]) -> StatusReactionController {
    StatusReactionController::new(true, ids.iter().map(|i| msg(i)).collect(), emojis(), timing())
}

/// The calls of a plan that touch one message, as (emoji, added).
fn calls_for(c: &StatusReactionController, plan: &ReactionPlan, id: &str) -> Vec<(String, bool)> {
    plan.calls
        .iter()
        .filter(|call| c.message(call.message).message_id == id)
        .map(|call| (call.emoji.clone(), call.add))
        .collect()
}

#[test]
fn set_queued_applies_to_every_message_in_a_batch() {
    let mut ctrl = controller(&["a", "b", "c"]);
    let plan = ctrl.set_queued();
    for id in ["a", "b", "c"] {
        assert_eq!(
            calls_for(&ctrl, &plan, id),
            vec![("👀".to_string(), true)],
            "message {id} should have gotten the queued reaction"
        );
    }
    assert_eq!(plan.stall, TimerOp::Restart);
}

#[test]
fn set_done_applies_to_every_message_not_just_the_last() {
    let mut ctrl = controller(&["first", "second"]);
    ctrl.set_queued();
    let plan = ctrl.set_done();
    for id in ["first", "second"] {
        let calls = calls_for(&ctrl, &plan, id);
        assert!(
            calls.iter().any(|(emoji, is_add)| emoji == "🆗" && *is_add),
            "message {id} should have gotten the done reaction, got {calls:?}"
        );
        // queued (👀) must have been removed once done was applied.
        assert!(
            calls.iter().any(|(emoji, is_add)| emoji == "👀" && !is_add),
            "message {id} should have had the queued reaction removed, got {calls:?}"
        );
    }
}

#[test]
fn set_error_applies_to_every_message_in_a_batch() {
    let mut ctrl = controller(&["x", "y"]);
    ctrl.set_queued();
    let plan = ctrl.set_error();
    for id in ["x", "y"] {
        let calls = calls_for(&ctrl, &plan, id);
        assert!(
            calls.iter().any(|(emoji, is_add)| emoji == "😱" && *is_add),
            "message {id} should have gotten the error reaction, got {calls:?}"
        );
    }
}

#[test]
fn clear_removes_from_every_message_in_a_batch() {
    let mut ctrl = controller(&["p", "q"]);
    ctrl.set_queued();
    let plan = ctrl.clear();
    for id in ["p", "q"] {
        let calls = calls_for(&ctrl, &plan, id);
        assert!(
            calls.iter().any(|(emoji, is_add)| emoji == "👀" && !is_add),
            "message {id} should have had its reaction cleared, got {calls:?}"
        );
    }
    assert_eq!(plan.debounce, TimerOp::Cancel);
    assert_eq!(plan.stall, TimerOp::Cancel);
    assert!(ctrl.clear().calls.is_empty());
}

#[test]
fn single_message_batch_still_works() {
    let mut ctrl = controller(&["solo"]);
    ctrl.set_queued();
    let plan = ctrl.set_done();
    let calls = calls_for(&ctrl, &plan, "solo");
    assert!(calls.iter().any(|(emoji, is_add)| emoji == "🆗" && *is_add));
}

#[test]
fn random_number_picks_the_mood_face() {
    let faces = ["😊", "😎", "🫡", "🤓", "😏", "✌️", "💪", "🦾"];
    for (i, face) in faces.iter().enumerate() {
        let mut ctrl = controller(&["m"]);
        let plan = ctrl.set_done_with(i + 16);
        assert_eq!(plan.calls.last().unwrap().emoji, *face);
    }
    let mut ctrl = controller(&["m"]);
    let plan = ctrl.set_done();
    assert!(faces.contains(&plan.calls.last().unwrap().emoji.as_str()));
}

#[test]
fn tools_are_classified_by_name() {
    let e = emojis();
    assert_eq!(classify_tool("Web_Search", &e), "⚡");
    assert_eq!(classify_tool("BASH", &e), "👨‍💻");
    assert_eq!(classify_tool("calculator", &e), "🔥");
    assert_eq!(classify_lower("read-browser", &e), "⚡");
    assert_eq!(classify_lower("thread", &e), "👨‍💻");
}

#[test]
fn thinking_is_debounced() {
    let mut ctrl = controller(&["m"]);
    ctrl.set_queued();
    let plan = ctrl.set_thinking();
    assert!(plan.calls.is_empty());
    assert_eq!(plan.debounce, TimerOp::Restart);
    // A tool replaces the scheduled status.
    ctrl.set_tool("bash");
    let fired = ctrl.debounce_fired();
    assert_eq!(
        calls_for(&ctrl, &fired, "m"),
        vec![("👨‍💻".to_string(), true), ("👀".to_string(), false)]
    );
    // Nothing is scheduled any more, and the current status is not set again.
    assert!(ctrl.debounce_fired().calls.is_empty());
    let again = ctrl.set_tool("bash");
    assert_eq!(again.debounce, TimerOp::Keep);
    assert_eq!(again.stall, TimerOp::Restart);
}

#[test]
fn stalls_are_shown_until_the_turn_ends() {
    let mut ctrl = controller(&["m"]);
    assert!(ctrl.stall_soft_fired().calls.is_empty());
    ctrl.set_queued();
    let soft = ctrl.stall_soft_fired();
    assert_eq!(
        calls_for(&ctrl, &soft, "m"),
        vec![("🥱".to_string(), true), ("👀".to_string(), false)]
    );
    let hard = ctrl.stall_hard_fired();
    assert_eq!(
        calls_for(&ctrl, &hard, "m"),
        vec![("😨".to_string(), true), ("🥱".to_string(), false)]
    );
    ctrl.set_error();
    ctrl.set_thinking();
    assert!(ctrl.stall_soft_fired().calls.is_empty());
    assert!(ctrl.stall_hard_fired().calls.is_empty());
    assert!(ctrl.debounce_fired().calls.is_empty());
    assert!(ctrl.set_error().calls.is_empty());
}

#[test]
fn disabled_controller_does_nothing() {
    let mut ctrl = StatusReactionController::new(false, vec![msg("m")], emojis(), timing());
    assert!(ctrl.set_queued().calls.is_empty());
    assert!(ctrl.set_tool("bash").calls.is_empty());
    assert!(ctrl.set_done().calls.is_empty());
    assert!(ctrl.clear().calls.is_empty());
    assert_eq!(ctrl.timings(), timing());
}
