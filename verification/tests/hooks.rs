//! Hooks.

use openab::config::{HookConfig, OnFailure};
use openab::hooks::{
    accept_script, basic_env, check_script_size, handle_failure, hook_outcome, hook_result, hook_sees_env,
    resolve_script, script_not_found, temp_script_prefix, validate_hook, verify_script, HookExit, ScriptSource,
    MAX_SCRIPT_SIZE,
};

fn hook_with_script(path: &str) -> HookConfig {
    HookConfig {
        script: Some(path.into()),
        inline: None,
        url: None,
        sha256: None,
        timeout_seconds: 60,
        on_failure: OnFailure::Abort,
    }
}

fn hook_with_inline(content: &str) -> HookConfig {
    HookConfig {
        script: None,
        inline: Some(content.into()),
        url: None,
        sha256: None,
        timeout_seconds: 60,
        on_failure: OnFailure::Abort,
    }
}

#[test]
fn validate_rejects_no_source() {
    let hook = HookConfig {
        script: None,
        inline: None,
        url: None,
        sha256: None,
        timeout_seconds: 60,
        on_failure: OnFailure::Abort,
    };
    assert!(validate_hook("test", &hook).is_err());
}

#[test]
fn validate_rejects_multiple_sources() {
    let hook = HookConfig {
        script: Some("/bin/true".into()),
        inline: Some("echo hi".into()),
        url: None,
        sha256: None,
        timeout_seconds: 60,
        on_failure: OnFailure::Abort,
    };
    assert!(validate_hook("test", &hook).is_err());
}

#[test]
fn validate_rejects_url_without_sha256() {
    let hook = HookConfig {
        script: None,
        inline: None,
        url: Some("https://example.com/script.sh".into()),
        sha256: None,
        timeout_seconds: 60,
        on_failure: OnFailure::Abort,
    };
    assert!(validate_hook("test", &hook).is_err());
}

#[test]
fn validate_rejects_relative_script_path() {
    let hook = hook_with_script("relative/path.sh");
    assert!(validate_hook("test", &hook).is_err());
}

#[test]
fn validate_accepts_absolute_script_path() {
    let hook = hook_with_script("/usr/local/bin/bootstrap.sh");
    assert!(validate_hook("test", &hook).is_ok());
}

#[test]
fn validate_accepts_inline() {
    let hook = hook_with_inline("#!/bin/sh\necho hello");
    assert!(validate_hook("test", &hook).is_ok());
}

#[test]
fn validate_accepts_url_with_sha256() {
    let hook = HookConfig {
        script: None,
        inline: None,
        url: Some("https://example.com/script.sh".into()),
        sha256: Some("abc123".into()),
        timeout_seconds: 60,
        on_failure: OnFailure::Abort,
    };
    assert!(validate_hook("test", &hook).is_ok());
}

/// Runs a hook whose process ends as given.
fn run(hook: &HookConfig, exit: HookExit) -> Result<(), String> {
    hook_result(hook, hook_outcome(exit, hook.timeout_seconds))
}

#[test]
fn run_inline_script_success() {
    let hook = hook_with_inline("#!/bin/sh\nexit 0");
    assert!(run(&hook, HookExit::Success).is_ok());
}

#[test]
fn run_inline_script_failure_abort() {
    let hook = hook_with_inline("#!/bin/sh\nexit 1");
    assert_eq!(
        run(&hook, HookExit::Failed("exit status: 1".into())),
        Err("hook exited with exit status: 1".to_string())
    );
}

#[test]
fn run_inline_script_failure_warn() {
    let mut hook = hook_with_inline("#!/bin/sh\nexit 1");
    hook.on_failure = OnFailure::Warn;
    // warn mode continues
    assert!(run(&hook, HookExit::Failed("exit status: 1".into())).is_ok());
}

#[test]
fn run_inline_script_timeout() {
    let mut hook = hook_with_inline("#!/bin/sh\nsleep 10");
    hook.timeout_seconds = 1;
    let result = run(&hook, HookExit::TimedOut);
    assert!(result.is_err());
    assert!(result.unwrap_err().contains("timed out"));
}

#[test]
fn wait_errors_are_reported() {
    assert_eq!(
        hook_outcome(HookExit::WaitError("io".into()), 5),
        Err("hook process error: io".to_string())
    );
    assert_eq!(
        hook_outcome(HookExit::WaitError("io".into()), 0),
        Err("io".to_string())
    );
    assert_eq!(
        handle_failure(OnFailure::Abort, "x".to_string()),
        Err("x".to_string())
    );
}

#[test]
fn run_script_file_not_found() {
    let hook = hook_with_script("/tmp/openab-nonexistent-hook-12345.sh");
    let path = match resolve_script(&hook).unwrap() {
        ScriptSource::File(p) => p,
        other => panic!("unexpected {other:?}"),
    };
    let result = hook_result(&hook, Err(script_not_found("test", &path)));
    assert_eq!(
        result,
        Err("hooks.test: script not found: /tmp/openab-nonexistent-hook-12345.sh".to_string())
    );
}

#[test]
fn sources_are_told_apart() {
    assert!(matches!(
        resolve_script(&hook_with_inline("echo")),
        Some(ScriptSource::Inline(ref c)) if c == "echo"
    ));
    let mut hook = hook_with_inline("");
    hook.inline = None;
    assert!(resolve_script(&hook).is_none());
    hook.url = Some("https://example.com/s.sh".to_string());
    hook.sha256 = Some("ab".to_string());
    match resolve_script(&hook).unwrap() {
        ScriptSource::Fetch { url, sha256 } => {
            assert_eq!((url.as_str(), sha256.as_str()), ("https://example.com/s.sh", "ab"))
        }
        other => panic!("unexpected {other:?}"),
    }
    assert_eq!(temp_script_prefix("boot"), "openab-hook-boot-");
}

#[test]
fn hook_without_a_source_has_nothing_to_run() {
    let mut hook = hook_with_inline("");
    hook.inline = None;
    hook.on_failure = OnFailure::Abort;
    assert!(resolve_script(&hook).is_none());
    assert_eq!(hook_result(&hook, Ok(())), Ok(()));
    assert_eq!(hook_result(&hook, Err("x".to_string())), Ok(()));
    hook.inline = Some("exit 1".to_string());
    assert_eq!(hook_result(&hook, Err("x".to_string())), Err("x".to_string()));
}

#[test]
fn validation_messages_name_the_hook() {
    let mut hook = hook_with_script("/bin/true");
    hook.inline = Some("echo".to_string());
    assert_eq!(
        validate_hook("pre_boot", &hook).unwrap_err(),
        "hooks.pre_boot: only one of script, inline, or url may be set (found 2)"
    );
    assert_eq!(
        validate_hook("x", &hook_with_script("a.sh")).unwrap_err(),
        "hooks.x: script path must be absolute, got: a.sh"
    );
}

#[test]
fn fetched_script_must_have_its_digest() {
    let digest = "ba7816bf8f01cfea414140de5dae2223b00361a396177a9cb410ff61f20015ad";
    assert_eq!(verify_script(b"abc", digest), Ok("abc".to_string()));
    assert_eq!(
        verify_script(b"abc", &digest.to_uppercase()),
        Ok("abc".to_string())
    );
    assert_eq!(
        verify_script(b"abd", "00").unwrap_err(),
        "hook sha256 mismatch: expected 00, got a52d159f262b2c6ddb724a61840befc36eb30c88877a4030b65cbe86298449c9"
    );
    let large = vec![b'x'; MAX_SCRIPT_SIZE + 1];
    assert_eq!(
        verify_script(&large, digest).unwrap_err(),
        "hook script too large: 1048577 bytes (max 1048576)"
    );
    assert_eq!(check_script_size(MAX_SCRIPT_SIZE as u64), Ok(()));
    // Bytes that are not text are refused even with the right digest.
    assert!(accept_script(&[0xff], &[0xab], "AB", "ab").is_err());
    assert_eq!(accept_script(b"ok", &[0xab], "AB", "ab"), Ok("ok".to_string()));
}

#[test]
fn hooks_see_a_limited_environment() {
    for key in [
        "HOME",
        "PATH",
        "USER",
        "AWS_REGION",
        "ECS_CONTAINER_METADATA_URI_V4",
        "AZURE_CLIENT_ID",
        "STATE_BUCKET",
        "OPENAB_AGENT_NAME",
    ] {
        assert!(hook_sees_env(key, false), "{key}");
    }
    for key in ["DISCORD_BOT_TOKEN", "HOMEX", "MY_AWS_KEY", "BOOTSTRAP_URI_X", ""] {
        assert!(!hook_sees_env(key, false), "{key}");
        assert!(!hook_sees_env(key, true), "{key}");
    }
    for key in ["USERPROFILE", "USERNAME", "SystemRoot", "SystemDrive"] {
        assert!(hook_sees_env(key, true), "{key}");
        assert!(!hook_sees_env(key, false), "{key}");
    }
    assert!(hook_sees_env("PATH", true) && hook_sees_env("AWS_REGION", true));
    assert!(!hook_sees_env("USER", true));
    assert_eq!(basic_env(false), vec!["HOME", "PATH", "USER"]);
    assert_eq!(
        basic_env(true),
        vec!["HOME", "PATH", "USERPROFILE", "USERNAME", "SystemRoot", "SystemDrive"]
    );
}
