//! Rendering of tool activity.

use openab::adapter::display::{compose_display, ToolEntry, ToolState};
use openab::config::ToolDisplay;

fn tool(id: &str, title: &str, state: ToolState) -> ToolEntry {
    ToolEntry {
        id: id.into(),
        title: title.into(),
        state,
    }
}

#[test]
fn compose_display_full_shows_complete_title() {
    let tools = vec![tool(
        "1",
        "curl -s https://example.com",
        ToolState::Completed,
    )];
    let out = compose_display(&tools, "done", false, ToolDisplay::Full);
    assert!(out.contains("`curl -s https://example.com`"));
}

#[test]
fn compose_display_compact_shows_count_summary() {
    let tools = vec![
        tool("1", "curl -s https://example.com", ToolState::Completed),
        tool("2", "grep -r pattern src/", ToolState::Completed),
        tool("3", "cat /etc/hosts", ToolState::Failed),
    ];
    let out = compose_display(&tools, "done", false, ToolDisplay::Compact);
    assert!(out.contains("✅ 2"), "expected completed count: {out}");
    assert!(out.contains("❌ 1"), "expected failed count: {out}");
    assert!(out.contains("tool(s)"), "expected tool(s) label: {out}");
    // Must NOT contain individual tool names
    assert!(!out.contains("curl"), "should not show tool names: {out}");
    assert!(!out.contains("grep"), "should not show tool names: {out}");
}

#[test]
fn compose_display_compact_shows_running_count() {
    let tools = vec![
        tool("1", "curl", ToolState::Completed),
        tool("2", "npm install", ToolState::Running),
    ];
    let out = compose_display(&tools, "", true, ToolDisplay::Compact);
    assert!(out.contains("✅ 1"), "expected completed count: {out}");
    assert!(out.contains("🔧 1"), "expected running count: {out}");
}

#[test]
fn compose_display_none_hides_tools() {
    let tools = vec![tool(
        "1",
        "curl -s https://example.com",
        ToolState::Completed,
    )];
    let out = compose_display(&tools, "response text", false, ToolDisplay::Hidden);
    assert_eq!(out, "response text");
}
