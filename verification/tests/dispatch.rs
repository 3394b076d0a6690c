//! Batching of messages.

use openab::acp::ContentBlock;
use openab::adapter::types::{ChannelRef, MessageRef};
use openab::config::{MessageProcessingMode, WorkspaceRequest};
use openab::dispatch::{
    dispatch_params, estimate_tokens, prepare_batch, BatchGrouping, BatchRefusal, Batcher, BufferedMessage,
    DispatchError, Dispatcher, PreparedBatch, SubmitOutcome, DEFAULT_CONSUMER_IDLE_TIMEOUT,
};

#[test]
fn estimate_tokens_empty() {
    assert!(estimate_tokens("", &[]) >= 1);
}

#[test]
fn estimate_tokens_text() {
    // 400 chars ≈ 100 tokens
    let s = "a".repeat(400);
    assert_eq!(estimate_tokens(&s, &[]), 101);
}

#[test]
fn estimate_tokens_image_block() {
    let blocks = vec![ContentBlock::Image {
        media_type: "image/png".into(),
        data: "base64data".into(),
    }];
    assert_eq!(estimate_tokens("", &blocks), 1 + 512);
}

#[test]
fn estimate_tokens_oversized_single_message() {
    // ~24k token text (96000 chars / 4 chars-per-token).
    let big = "x".repeat(96_000);
    let est = estimate_tokens(&big, &[]);
    assert!(est > 24_000, "expected >24k tokens, got {est}");
}

#[test]
fn estimate_tokens_cumulative_exceeds_cap() {
    let max_tokens = 24_000_usize;
    let m1 = estimate_tokens(&"a".repeat(80_000), &[]);
    let m2 = estimate_tokens(&"b".repeat(50_000), &[]);
    assert!(m1 < max_tokens);
    assert!(m1 + m2 > max_tokens, "{m1} + {m2} should exceed cap");
}

fn make_dispatcher(grouping: BatchGrouping) -> Dispatcher {
    Dispatcher::with_idle_timeout(10, 24_000, grouping, DEFAULT_CONSUMER_IDLE_TIMEOUT)
}

fn insert_handle(d: &mut Dispatcher, key: &str) -> u64 {
    d.submit(key, "c", "discord", false).generation
}

fn has_handle(d: &Dispatcher, key: &str) -> bool {
    d.lane_keys().iter().any(|k| k == key)
}

#[test]
fn try_evict_locked_removes_when_generation_matches() {
    let mut d = make_dispatcher(BatchGrouping::Thread);
    let generation = insert_handle(&mut d, "t");
    assert!(d.try_evict("t", generation));
    assert!(d.lane_keys().is_empty());
}

#[test]
fn try_evict_locked_keeps_when_generation_differs() {
    let mut d = make_dispatcher(BatchGrouping::Thread);
    let generation = insert_handle(&mut d, "t");
    assert!(!d.try_evict("t", generation + 1));
    assert_eq!(d.lane_keys().len(), 1);
    assert_eq!(d.submit("t", "c", "discord", false).generation, generation);
}

#[test]
fn try_evict_locked_returns_false_when_absent() {
    let mut d = make_dispatcher(BatchGrouping::Thread);
    assert!(!d.try_evict("missing", 0));
}

#[test]
fn key_per_thread_ignores_sender() {
    let d = make_dispatcher(BatchGrouping::Thread);
    assert_eq!(d.key("discord", "T1", "userA"), "discord:T1");
    assert_eq!(d.key("discord", "T1", "userB"), "discord:T1");
}

#[test]
fn key_per_lane_includes_sender() {
    let d = make_dispatcher(BatchGrouping::Lane);
    assert_eq!(d.key("discord", "T1", "userA"), "discord:T1:userA");
    assert_eq!(d.key("discord", "T1", "userB"), "discord:T1:userB");
    // Different threads remain distinct.
    assert_eq!(d.key("slack", "T2", "userA"), "slack:T2:userA");
}

#[test]
fn session_key_never_names_the_sender() {
    let mut c = make_channel("T");
    assert_eq!(Dispatcher::session_key(&c), "mock:T");
    c.thread_id = None;
    c.channel_id = "C".to_string();
    assert_eq!(Dispatcher::session_key(&c), "mock:C");
}

#[test]
fn cancel_buffered_thread_drops_per_thread_key() {
    let mut d = make_dispatcher(BatchGrouping::Thread);
    insert_handle(&mut d, "discord:T1");
    insert_handle(&mut d, "discord:T2"); // different thread, must survive
    assert_eq!(d.cancel_buffered_thread("discord", "T1"), vec!["discord:T1"]);
    assert!(!has_handle(&d, "discord:T1"));
    assert!(has_handle(&d, "discord:T2"));
}

#[test]
fn cancel_buffered_thread_drops_all_lanes() {
    let mut d = make_dispatcher(BatchGrouping::Lane);
    insert_handle(&mut d, "discord:T1:userA");
    insert_handle(&mut d, "discord:T1:userB");
    insert_handle(&mut d, "discord:T2:userA"); // different thread
    insert_handle(&mut d, "slack:T1:userA"); // different platform
    d.cancel_buffered_thread("discord", "T1");
    assert!(!has_handle(&d, "discord:T1:userA"));
    assert!(!has_handle(&d, "discord:T1:userB"));
    assert!(has_handle(&d, "discord:T2:userA"));
    assert!(has_handle(&d, "slack:T1:userA"));
}

#[test]
fn cancel_buffered_thread_does_not_match_thread_id_prefix() {
    // T1 must not match T10 / T11 (substring trap).
    let mut d = make_dispatcher(BatchGrouping::Lane);
    insert_handle(&mut d, "discord:T1:userA");
    insert_handle(&mut d, "discord:T10:userA");
    d.cancel_buffered_thread("discord", "T1");
    assert!(!has_handle(&d, "discord:T1:userA"));
    assert!(has_handle(&d, "discord:T10:userA"));
}

#[test]
fn sweep_stale_removes_finished_consumers() {
    let mut d = make_dispatcher(BatchGrouping::Thread);
    insert_handle(&mut d, "discord:T1");
    insert_handle(&mut d, "discord:T2");
    let swept = d.sweep_stale(&["discord:T1".to_string(), "discord:T2".to_string()]);
    assert_eq!(swept, 2);
    assert!(d.lane_keys().is_empty());
}

#[test]
fn sweep_stale_keeps_running_consumers() {
    let mut d = make_dispatcher(BatchGrouping::Thread);
    insert_handle(&mut d, "alive");
    let swept = d.sweep_stale(&[]);
    assert_eq!(swept, 0);
    assert!(has_handle(&d, "alive"));
}

#[test]
fn shutdown_clears_all_handles() {
    let mut d = make_dispatcher(BatchGrouping::Thread);
    insert_handle(&mut d, "k1");
    insert_handle(&mut d, "k2");
    insert_handle(&mut d, "k3");
    assert_eq!(d.shutdown().len(), 3);
    assert!(d.lane_keys().is_empty());
}

fn make_channel(thread: &str) -> ChannelRef {
    ChannelRef {
        platform: "mock".into(),
        channel_id: thread.into(),
        thread_id: Some(thread.into()),
        parent_id: None,
        origin_event_id: None,
    }
}

fn make_msg(prompt: &str, tokens: usize) -> BufferedMessage {
    BufferedMessage {
        sender_json: r#"{"schema":"openab.sender.v1","sender_id":"u","sender_name":"u"}"#.into(),
        sender_name: "u".into(),
        prompt: prompt.into(),
        workspace_request: None,
        extra_blocks: vec![],
        trigger_msg: MessageRef {
            channel: make_channel("T"),
            message_id: format!("m-{prompt}"),
        },
        arrived_at_ms: 0,
        estimated_tokens: tokens,
        other_bot_present: false,
    }
}

/// Runs all messages through one consumer.
fn run_consumer(
    msgs: Vec<BufferedMessage>,
    max_batch: usize,
    max_tokens: usize,
) -> Vec<Result<PreparedBatch, BatchRefusal>> {
    let mut queue = msgs.into_iter().peekable();
    let mut batcher = Batcher::new(max_batch, max_tokens);
    let mut out = Vec::new();
    loop {
        if batcher.is_empty() {
            match queue.next() {
                Some(m) => batcher.receive(m),
                None => return out,
            }
        }
        while batcher.wants_more() && queue.peek().is_some() {
            batcher.receive(queue.next().unwrap());
        }
        let batch = batcher.flush();
        out.push(prepare_batch(&batch));
    }
}

fn run_ok(msgs: Vec<BufferedMessage>, max_batch: usize, max_tokens: usize) -> Vec<PreparedBatch> {
    run_consumer(msgs, max_batch, max_tokens)
        .into_iter()
        .map(|r| r.expect("prepared"))
        .collect()
}

#[test]
fn consumer_dispatches_single_message_as_one_batch() {
    let calls = run_ok(vec![make_msg("hi", 10)], 10, 24_000);
    assert_eq!(calls.len(), 1);
    // No extra blocks → delimiter + prompt = 2 blocks.
    assert_eq!(calls[0].content_blocks.len(), 2);
    assert!(!calls[0].other_bot_present);
}

#[test]
fn plain_prompt_is_dispatched_verbatim() {
    let batches = run_ok(vec![make_msg("  a\n    b", 1)], 5, 100);
    assert_eq!(batches.len(), 1);
    assert_eq!(
        batches[0].content_blocks[1],
        ContentBlock::Text {
            text: "  a\n    b".to_string()
        }
    );
    assert_eq!(batches[0].content_blocks.len(), 2);
}

#[test]
fn consumer_rejects_session_directive_in_existing_batch() {
    let calls = run_consumer(vec![make_msg("[[ws:foo]] do work", 10)], 10, 24_000);
    assert_eq!(calls.len(), 1);
    match &calls[0] {
        Err(e) => assert!(e
            .notice()
            .unwrap()
            .contains("session directives are only allowed")),
        Ok(_) => panic!("expected a refusal"),
    }
}

#[test]
fn consumer_rejects_unknown_session_directive_before_agent_turn() {
    let calls = run_consumer(vec![make_msg("[[wz:foo]] do work", 10)], 10, 24_000);
    match &calls[0] {
        Err(BatchRefusal::Malformed(e)) => {
            assert!(e.message().contains("unknown session directive: wz"))
        }
        other => panic!("unexpected {other:?}"),
    }
}

#[test]
fn consumer_passes_adapter_workspace_to_ensure_session() {
    let mut msg = make_msg("do work", 10);
    msg.workspace_request = Some(WorkspaceRequest::Existing("/workspace/foo".to_string()));

    let calls = run_ok(vec![msg], 10, 24_000);

    assert_eq!(calls.len(), 1);
    assert_eq!(
        calls[0].workspace_request,
        Some(WorkspaceRequest::Existing("/workspace/foo".to_string()))
    );
}

#[test]
fn conflicting_workspaces_in_one_batch_are_refused() {
    let mut a = make_msg("a", 10);
    a.workspace_request = Some(WorkspaceRequest::Existing("foo".to_string()));
    let mut same = make_msg("b", 10);
    same.workspace_request = Some(WorkspaceRequest::Existing("foo".to_string()));
    let mut other = make_msg("c", 10);
    other.workspace_request = Some(WorkspaceRequest::Create("foo".to_string()));
    let calls = run_consumer(vec![a, same, other], 10, 24_000);
    assert_eq!(calls.len(), 1);
    match &calls[0] {
        Err(e) => assert!(e.notice().unwrap().contains("conflicting workspace directives")),
        Ok(_) => panic!("expected a refusal"),
    }
}

#[test]
fn consumer_greedy_drain_combines_queued_messages_into_one_batch() {
    // 3 messages already in the queue when the consumer wakes → greedy
    // drain pulls all 3, packs them into one batch, dispatches once.
    let calls = run_ok(
        vec![make_msg("a", 50), make_msg("b", 50), make_msg("c", 50)],
        10,
        24_000,
    );
    assert_eq!(calls.len(), 1, "expected a single batched dispatch");
    // 3 arrivals × (delimiter + prompt) = 6 blocks.
    assert_eq!(calls[0].content_blocks.len(), 6);
}

#[test]
fn consumer_token_cap_splits_batch_preserving_fifo() {
    // max_tokens=100, two 80-token messages → cumulative 160 > 100, so
    // the second is held back and dispatched in the next batch.
    let calls = run_ok(vec![make_msg("a", 80), make_msg("b", 80)], 10, 100);
    assert_eq!(calls.len(), 2, "token cap should split into two batches");
    // Each batch holds one arrival → delimiter + prompt = 2 blocks.
    assert_eq!(calls[0].content_blocks.len(), 2);
    assert_eq!(calls[1].content_blocks.len(), 2);
    assert_eq!(calls[0].content_blocks[1], ContentBlock::Text { text: "a".into() });
    assert_eq!(calls[1].content_blocks[1], ContentBlock::Text { text: "b".into() });
}

#[test]
fn batches_respect_the_message_cap_and_huge_estimates() {
    let calls = run_ok(
        vec![make_msg("a", 1), make_msg("b", 1), make_msg("c", 1)],
        2,
        100,
    );
    assert_eq!(calls.len(), 2);
    assert_eq!(calls[0].content_blocks.len(), 4);
    assert_eq!(calls[1].content_blocks.len(), 2);

    let calls = run_ok(vec![make_msg("a", usize::MAX), make_msg("b", usize::MAX)], 10, 100);
    assert_eq!(calls.len(), 2);
}

#[test]
fn last_message_decides_about_other_bots() {
    let mut last = make_msg("b", 1);
    last.other_bot_present = true;
    let calls = run_ok(vec![make_msg("a", 1), last], 10, 100);
    assert!(calls[0].other_bot_present);
}

#[test]
fn submit_evicts_dead_handle_and_retries_with_fresh_consumer() {
    let mut d = make_dispatcher(BatchGrouping::Thread);
    insert_handle(&mut d, "mock:T");

    let first = d.submit("mock:T", "T", "mock", false);
    assert!(!first.spawn);
    // The consumer has gone: the message goes to a fresh one.
    let retry = match d.submitted("mock:T", "T", "mock", first, false) {
        SubmitOutcome::Retry(a) => a,
        other => panic!("unexpected {other:?}"),
    };
    assert!(retry.spawn);
    assert_ne!(retry.generation, first.generation);
    assert_eq!(
        d.submitted("mock:T", "T", "mock", retry, true),
        SubmitOutcome::Delivered
    );
    assert!(has_handle(&d, "mock:T"));
    // A second failure is final.
    assert_eq!(
        d.submitted("mock:T", "T", "mock", retry, false),
        SubmitOutcome::Failed(DispatchError::ConsumerDead)
    );
    assert!(!has_handle(&d, "mock:T"));
    assert_eq!(
        DispatchError::ConsumerDead.message(),
        "dispatch consumer exited unexpectedly"
    );
}

#[test]
fn exited_consumer_is_replaced_on_submit() {
    let mut d = make_dispatcher(BatchGrouping::Thread);
    let old = insert_handle(&mut d, "k");
    let fresh = d.submit("k", "c", "discord", true);
    assert!(fresh.spawn);
    assert_ne!(fresh.generation, old);
}

#[test]
fn processing_mode_decides_cap_grouping_and_idle_time() {
    assert_eq!(
        dispatch_params(&MessageProcessingMode::Message, 10),
        (1, BatchGrouping::Thread, 10)
    );
    assert_eq!(
        dispatch_params(&MessageProcessingMode::Thread, 10),
        (10, BatchGrouping::Thread, 300)
    );
    assert_eq!(
        dispatch_params(&MessageProcessingMode::Lane, 7),
        (7, BatchGrouping::Lane, 300)
    );
    let d = make_dispatcher(BatchGrouping::Lane);
    assert_eq!((d.max_batch(), d.max_tokens(), d.idle_timeout()), (10, 24_000, 300));
}
