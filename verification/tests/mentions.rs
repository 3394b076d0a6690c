//! Mentions and their propagation to the parts of a split reply.

use openab::adapter::mentions::{
    contains_bot_mention, extract_mentions, mention_footer_len, propagate_mentions_to_chunks,
};

/// Splits a text into parts of at most `limit` characters.
fn split_message(text: &str, limit: usize) -> Vec<String> {
    let chars: Vec<char> = text.chars().collect();
    chars.chunks(limit).map(|part| part.iter().collect()).collect()
}

#[test]
fn extract_mentions_basic() {
    assert_eq!(
        extract_mentions("hello <@123> and <@&456> world"),
        vec!["<@123>", "<@&456>"]
    );
}

#[test]
fn extract_mentions_dedup() {
    assert_eq!(extract_mentions("<@123> foo <@123> bar"), vec!["<@123>"]);
}

#[test]
fn extract_mentions_normalizes_nickname() {
    assert_eq!(extract_mentions("hey <@!789>"), vec!["<@789>"]);
}

#[test]
fn extract_mentions_dedup_after_normalize() {
    // <@123> and <@!123> are the same user
    assert_eq!(extract_mentions("<@123> and <@!123>"), vec!["<@123>"]);
}

#[test]
fn extract_mentions_skips_code_blocks() {
    let content = "hello <@111>\n```\n<@222>\n```\nworld <@333>";
    assert_eq!(extract_mentions(content), vec!["<@111>", "<@333>"]);
}

#[test]
fn extract_mentions_role_vs_user_distinct() {
    assert_eq!(
        extract_mentions("<@&999> and <@999>"),
        vec!["<@&999>", "<@999>"]
    );
}

#[test]
fn extract_mentions_none() {
    assert!(extract_mentions("no mentions; email user@example.com").is_empty());
}

#[test]
fn mention_footer_len_values() {
    assert_eq!(mention_footer_len(&[]), 0);
    // "\n<@123>" = 1 + 6
    assert_eq!(mention_footer_len(&["<@123>".to_string()]), 7);
    // "\n<@123> <@456>" = 1 + 6 + 1 + 6
    assert_eq!(
        mention_footer_len(&["<@123>".to_string(), "<@456>".to_string()]),
        14
    );
}

#[test]
fn propagate_mentions_single_chunk_noop() {
    let chunks = vec!["hello <@123>".to_string()];
    assert_eq!(
        propagate_mentions_to_chunks(chunks.clone(), &["<@123>".to_string()], 2000),
        chunks
    );
}

#[test]
fn propagate_mentions_appends_to_missing_chunks() {
    let chunks = vec!["part1 <@123>".to_string(), "part2 no mention".to_string()];
    let out = propagate_mentions_to_chunks(chunks, &["<@123>".to_string()], 2000);
    assert_eq!(out[0], "part1 <@123>");
    assert_eq!(out[1], "part2 no mention\n<@123>");
}

#[test]
fn propagate_mentions_respects_hard_limit() {
    // chunk already at limit: appending would exceed it, so leave unchanged.
    let chunk = "x".repeat(2000);
    let chunks = vec!["<@1> head".to_string(), chunk.clone()];
    let out = propagate_mentions_to_chunks(chunks, &["<@1>".to_string()], 2000);
    assert_eq!(out[1], chunk); // unchanged — no footer busting the 2000 ceiling
}

#[test]
fn pipeline_split_then_propagate() {
    // End-to-end: a long mention-bearing message splits, and every chunk
    // carries the mention after propagation.
    let mention = "<@1514992231969456258>";
    let body = format!("{mention} {}", "word ".repeat(800)); // ~4000+ chars
    let mentions = extract_mentions(&body);
    let reserve = mention_footer_len(&mentions);
    let chunks = split_message(&body, 2000usize.saturating_sub(reserve));
    let chunks = propagate_mentions_to_chunks(chunks, &mentions, 2000);
    assert!(chunks.len() >= 2, "expected the body to split");
    for c in &chunks {
        assert!(c.contains(mention), "every chunk must carry the mention");
        assert!(c.chars().count() <= 2000, "no chunk exceeds the hard limit");
    }
}

#[test]
fn contains_bot_mention_user() {
    assert!(contains_bot_mention("hello <@1234567890> world"));
}

#[test]
fn contains_bot_mention_nickname() {
    assert!(contains_bot_mention("hey <@!9876543210>"));
}

#[test]
fn contains_bot_mention_role() {
    assert!(contains_bot_mention("calling <@&1496247626675257384>"));
}

#[test]
fn contains_bot_mention_embedded() {
    assert!(contains_bot_mention("请问 <@1501788608439386172> 1+1=?"));
}

#[test]
fn contains_bot_mention_no_match() {
    assert!(!contains_bot_mention("hello world"));
    assert!(!contains_bot_mention("email user@example.com"));
    assert!(!contains_bot_mention("<@not_a_number>"));
}
