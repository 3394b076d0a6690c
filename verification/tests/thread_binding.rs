//! Shared bindings of threads to workspaces.

use openab::config::{ChannelProfileAgentConfig, ChannelProfileConfig, ThreadBindingConfig};
use openab::thread_binding::{
    ChannelProfile, ChannelProfileAgent, CwdFacts, LockAttempts, PrimaryUpdateActor,
    ThreadBinding, ThreadBindingContext, ThreadBindingStore, ThreadBindings, LOCK_STALE_SECS,
};

const ROOT: &str = "/workspace";
const PROJECT: &str = "/workspace/openab-lab";

fn profile(root: &str) -> ChannelProfileConfig {
    ChannelProfileConfig {
        profile_id: "dev".to_string(),
        guild_id: "111111111111111111".to_string(),
        parent_channel_id: "222222222222222222".to_string(),
        work_domain: "development".to_string(),
        workspace_root: root.to_string(),
        allowed_agents: vec!["codex".to_string(), "auditor".to_string()],
        agents: vec![
            ChannelProfileAgentConfig {
                name: "codex".to_string(),
                aliases: vec!["A".to_string()],
                discord_user_id: Some("9001".to_string()),
                discord_role_id: None,
                handoff_hint: None,
            },
            ChannelProfileAgentConfig {
                name: "auditor".to_string(),
                aliases: vec!["B".to_string()],
                discord_user_id: Some("9002".to_string()),
                discord_role_id: Some("9902".to_string()),
                handoff_hint: None,
            },
        ],
    }
}

fn config(agent_name: &str) -> ThreadBindingConfig {
    ThreadBindingConfig {
        enabled: true,
        agent_name: Some(agent_name.to_string()),
        store_dir: Some("/workspace/.openab".to_string()),
        channel_profiles: vec![profile(ROOT)],
    }
}

fn store(agent_name: &str) -> ThreadBindingStore {
    ThreadBindingStore::from_config(config(agent_name), Some("")).expect("store")
}

fn ctx(thread_id: &str) -> ThreadBindingContext {
    ThreadBindingContext {
        platform: "discord".to_string(),
        guild_id: Some("111111111111111111".to_string()),
        parent_channel_id: Some("222222222222222222".to_string()),
        thread_id: thread_id.to_string(),
        created_by_user_id: Some("333333333333333333".to_string()),
        trigger_message_id: Some("444444444444444444".to_string()),
    }
}

fn facts(cwd: &str) -> CwdFacts {
    CwdFacts {
        root: Ok(ROOT.to_string()),
        cwd: Ok(cwd.to_string()),
        is_dir: true,
    }
}

fn record(
    store: &ThreadBindingStore,
    bindings: &mut ThreadBindings,
    thread: &str,
    name: &str,
    cwd: &str,
) -> Result<bool, String> {
    store.record_binding(store.profiles(), bindings, &ctx(thread), name, cwd, &facts(cwd))
}

fn look_up(
    store: &ThreadBindingStore,
    bindings: &ThreadBindings,
    thread: &str,
    cwd: &str,
) -> Result<Option<ThreadBinding>, String> {
    store.lookup_binding(store.profiles(), bindings, &ctx(thread), &facts(cwd))
}

fn take_over(
    store: &ThreadBindingStore,
    bindings: &mut ThreadBindings,
    target: &str,
    actor: PrimaryUpdateActor,
    message: &str,
) -> Result<ThreadBinding, String> {
    store.handover_primary(
        store.profiles(),
        bindings,
        &ctx("555555555555555555"),
        target,
        &actor,
        message,
        &facts(PROJECT),
    )
}

fn human() -> PrimaryUpdateActor {
    PrimaryUpdateActor::Human {
        user_id: "333333333333333333".to_string(),
    }
}

fn bot(user_id: &str) -> PrimaryUpdateActor {
    PrimaryUpdateActor::Bot {
        user_id: user_id.to_string(),
    }
}

#[test]
fn profile_keeps_its_agents_in_order() {
    let profile = ChannelProfile::from(profile(ROOT));
    assert_eq!(
        profile
            .agents
            .iter()
            .map(|agent| agent.name.as_str())
            .collect::<Vec<_>>(),
        vec!["codex", "auditor"]
    );
}

#[test]
fn profile_lists_complete_each_other() {
    let mut only_agents = profile(ROOT);
    only_agents.allowed_agents = Vec::new();
    let p = ChannelProfile::from(only_agents);
    assert_eq!(p.allowed_agents, vec!["codex", "auditor"]);

    let mut only_names = profile(ROOT);
    only_names.agents = Vec::new();
    let p = ChannelProfile::from(only_names);
    assert_eq!(
        p.agents,
        vec![
            ChannelProfileAgent::name_only("codex"),
            ChannelProfileAgent::name_only("auditor")
        ]
    );
}

#[test]
fn binding_without_primary_is_led_by_its_creator() {
    let mut b = sample_binding();
    b.primary_bot = None;
    assert_eq!(b.effective_primary_bot(), "codex");
    b.primary_bot = Some("auditor".to_string());
    assert_eq!(b.effective_primary_bot(), "auditor");
}

fn sample_binding() -> ThreadBinding {
    ThreadBinding {
        platform: "discord".to_string(),
        guild_id: "111111111111111111".to_string(),
        parent_channel_id: "222222222222222222".to_string(),
        thread_id: "555555555555555555".to_string(),
        workspace_name: "openab-lab".to_string(),
        resolved_cwd: PROJECT.to_string(),
        created_by_agent: "codex".to_string(),
        created_by_user_id: "333333333333333333".to_string(),
        trigger_message_id: "444444444444444444".to_string(),
        created_at: "2026-06-04T00:00:00Z".to_string(),
        primary_bot: None,
        primary_bot_discord_user_id: None,
        primary_updated_by: None,
        primary_updated_at: None,
        primary_update_message_id: None,
    }
}

#[test]
fn lookup_fills_in_the_primary_of_an_old_binding() {
    let store = store("auditor");
    let mut bindings = ThreadBindings::new();
    bindings.insert("discord:555555555555555555", sample_binding());
    let b = look_up(&store, &bindings, "555555555555555555", PROJECT)
        .expect("lookup")
        .expect("binding");
    assert_eq!(b.primary_bot.as_deref(), Some("codex"));
    assert_eq!(b.primary_bot_discord_user_id.as_deref(), Some("9001"));
    assert_eq!(bindings.entries().len(), 1);
}

#[test]
fn records_and_reads_binding_from_workspace_store() {
    let store = store("codex");
    let mut bindings = ThreadBindings::new();

    record(&store, &mut bindings, "555555555555555555", "openab-lab", PROJECT).expect("record");
    let binding = look_up(&store, &bindings, "555555555555555555", PROJECT)
        .expect("lookup")
        .expect("binding");
    assert_eq!(binding.workspace_name, "openab-lab");
    assert_eq!(binding.resolved_cwd, PROJECT);
    assert_eq!(binding.primary_bot.as_deref(), Some("codex"));
    assert_eq!(binding.primary_bot_discord_user_id.as_deref(), Some("9001"));
}

#[test]
fn recorded_binding_is_stamped_with_the_time() {
    let store = store("codex");
    let mut bindings = ThreadBindings::new();
    record(&store, &mut bindings, "1", "openab-lab", PROJECT).expect("record");
    let b = look_up(&store, &bindings, "1", PROJECT).unwrap().unwrap();
    assert!(chrono::DateTime::parse_from_rfc3339(&b.created_at).is_ok());
    assert_eq!(b.primary_updated_at.as_deref(), Some(b.created_at.as_str()));
    assert_eq!(b.primary_updated_by.as_deref(), Some("agent:codex"));

    let mut bindings = ThreadBindings::new();
    let changed = store.record_binding_at(
        store.profiles(),
        &mut bindings,
        &ctx("1"),
        "openab-lab",
        PROJECT,
        &facts(PROJECT),
        "2026-01-01T00:00:00Z",
    );
    assert_eq!(changed, Ok(true));
    let b = bindings.get("discord:1").expect("binding");
    assert_eq!(b.created_at, "2026-01-01T00:00:00Z");
    assert_eq!(b.trigger_message_id, "444444444444444444");
}

#[test]
fn repeated_same_workspace_preserves_primary() {
    let store_a = store("codex");
    let store_b = store("auditor");
    let mut bindings = ThreadBindings::new();

    record(&store_a, &mut bindings, "555555555555555555", "openab-lab", PROJECT).expect("record");
    take_over(&store_b, &mut bindings, "9002", human(), "777777777777777777").expect("handover");
    record(&store_a, &mut bindings, "555555555555555555", "openab-lab", PROJECT)
        .expect("same workspace");

    let binding = look_up(&store_b, &bindings, "555555555555555555", PROJECT)
        .expect("lookup")
        .expect("binding");
    assert_eq!(binding.primary_bot.as_deref(), Some("auditor"));
}

#[test]
fn recording_another_workspace_is_rejected() {
    let store = store("codex");
    let mut bindings = ThreadBindings::new();
    record(&store, &mut bindings, "1", "openab-lab", PROJECT).expect("record");
    let err = record(&store, &mut bindings, "1", "b", "/workspace/b").unwrap_err();
    assert_eq!(
        err,
        "thread already has workspace /workspace/openab-lab; start a new thread to change workspace"
    );
}

#[test]
fn rejects_agent_not_allowed_in_profile() {
    let store = store("outsider");
    let mut bindings = ThreadBindings::new();
    let err = record(&store, &mut bindings, "555555555555555555", "openab-lab", PROJECT)
        .unwrap_err();
    assert!(err.contains("not allowed"));
    assert_eq!(err, "agent outsider is not allowed in ChannelProfile dev");
}

#[test]
fn rejects_parent_channel_mismatch() {
    let store = store("codex");
    let mut bindings = ThreadBindings::new();
    let mut bad_ctx = ctx("555555555555555555");
    bad_ctx.parent_channel_id = Some("999999999999999999".to_string());
    let err = store
        .record_binding(
            store.profiles(),
            &mut bindings,
            &bad_ctx,
            "openab-lab",
            PROJECT,
            &facts(PROJECT),
        )
        .unwrap_err();
    assert!(err.contains("no ChannelProfile"));

    bad_ctx.parent_channel_id = None;
    assert_eq!(
        store.matching_profile(store.profiles(), &bad_ctx).unwrap_err(),
        "missing parent channel id for channel profile lookup"
    );
    bad_ctx.guild_id = None;
    assert_eq!(
        store.matching_profile(store.profiles(), &bad_ctx).unwrap_err(),
        "missing guild id for channel profile lookup"
    );

    let mut moved = sample_binding();
    moved.parent_channel_id = "elsewhere".to_string();
    bindings.insert("discord:555555555555555555", moved);
    assert_eq!(
        look_up(&store, &bindings, "555555555555555555", PROJECT).unwrap_err(),
        "thread binding parent channel mismatch"
    );
}

#[test]
fn rejects_cwd_outside_profile_root() {
    let store = store("codex");
    let mut bindings = ThreadBindings::new();

    let err = record(&store, &mut bindings, "555555555555555555", "outside", "/outside")
        .unwrap_err();
    assert!(err.contains("outside the ChannelProfile workspace root"));

    let file = CwdFacts {
        is_dir: false,
        ..facts(PROJECT)
    };
    let err = store
        .record_binding(store.profiles(), &mut bindings, &ctx("1"), "x", PROJECT, &file)
        .unwrap_err();
    assert_eq!(err, "thread binding cwd is not a directory");
    let no_root = CwdFacts {
        root: Err("gone".to_string()),
        ..facts(PROJECT)
    };
    let err = store
        .record_binding(store.profiles(), &mut bindings, &ctx("1"), "x", PROJECT, &no_root)
        .unwrap_err();
    assert_eq!(
        err,
        "failed to resolve ChannelProfile workspace root /workspace: gone"
    );
}

#[test]
fn lookup_rejects_deleted_binding_cwd() {
    let store = store("codex");
    let mut bindings = ThreadBindings::new();

    record(&store, &mut bindings, "555555555555555555", "openab-lab", PROJECT).expect("record");
    let deleted = CwdFacts {
        root: Ok(ROOT.to_string()),
        cwd: Err("No such file or directory".to_string()),
        is_dir: false,
    };

    let err = store
        .lookup_binding(store.profiles(), &bindings, &ctx("555555555555555555"), &deleted)
        .unwrap_err();
    assert!(err.contains("failed to resolve thread binding cwd"));
}

#[test]
fn concurrent_writes_keep_both_bindings() {
    let store_a = store("codex");
    let store_b = store("auditor");
    let mut bindings = ThreadBindings::new();
    record(&store_a, &mut bindings, "555555555555555555", "a", "/workspace/a").expect("record a");
    record(&store_b, &mut bindings, "666666666666666666", "b", "/workspace/b").expect("record b");

    assert!(look_up(&store_a, &bindings, "555555555555555555", "/workspace/a")
        .expect("lookup a")
        .is_some());
    assert!(look_up(&store_a, &bindings, "666666666666666666", "/workspace/b")
        .expect("lookup b")
        .is_some());
}

#[test]
fn acquire_lock_reclaims_stale_lock() {
    // A zero staleness window treats any lock as reclaimable.
    assert!(LockAttempts::is_stale(Some(0), 0));
    assert!(LockAttempts::is_stale(Some(30_000_000_000), LOCK_STALE_SECS));
}

#[test]
fn acquire_lock_keeps_fresh_lock_held_by_live_holder() {
    // A live holder's lock is younger than the staleness window and must not be
    // stolen, so a second acquisition times out.
    assert!(!LockAttempts::is_stale(Some(29_999_999_999), LOCK_STALE_SECS));
    assert!(!LockAttempts::is_stale(None, LOCK_STALE_SECS));
    let mut attempts = LockAttempts::new();
    for _ in 0..250 {
        assert_eq!(attempts.again(), Ok(()));
    }
    let err = attempts.again().unwrap_err();
    assert!(err.contains("timed out"));
}

#[test]
fn detects_profile_agent_mentions() {
    let store = store("codex");
    let mentions = |content: &str| {
        store
            .message_mentions_profile_agent(store.profiles(), &ctx("555555555555555555"), content)
            .expect("mention")
    };
    assert!(mentions("hello <@9002>"));
    assert!(mentions("hello <@!9002>"));
    assert!(mentions("hello <@&9902>"));
    assert!(!mentions("hello B"));
}

#[test]
fn human_handover_updates_primary_to_target_agent() {
    let store_a = store("codex");
    let store_b = store("auditor");
    let mut bindings = ThreadBindings::new();

    record(&store_a, &mut bindings, "555555555555555555", "openab-lab", PROJECT).expect("record");
    let binding =
        take_over(&store_b, &mut bindings, "9002", human(), "777777777777777777").expect("handover");

    assert_eq!(binding.primary_bot.as_deref(), Some("auditor"));
    assert_eq!(binding.primary_bot_discord_user_id.as_deref(), Some("9002"));
    assert_eq!(
        binding.primary_update_message_id.as_deref(),
        Some("777777777777777777")
    );
    assert_eq!(
        binding.primary_updated_by.as_deref(),
        Some("user:333333333333333333")
    );
    let leads = |store: &ThreadBindingStore, user: &str| {
        store
            .current_agent_is_primary(
                store.profiles(),
                &bindings,
                &ctx("555555555555555555"),
                user,
                &facts(PROJECT),
            )
            .expect("primary")
    };
    assert!(leads(&store_b, "9002"));
    assert!(!leads(&store_a, "9001"));
    // An agent under another account than its profile says leads nothing.
    assert!(!leads(&store_b, "9001"));
}

#[test]
fn current_primary_bot_can_handover_but_non_primary_bot_cannot() {
    let store_a = store("codex");
    let store_b = store("auditor");
    let mut bindings = ThreadBindings::new();

    record(&store_a, &mut bindings, "555555555555555555", "openab-lab", PROJECT).expect("record");
    let b = take_over(&store_b, &mut bindings, "9002", bot("9001"), "777777777777777777")
        .expect("current primary handover");
    assert_eq!(b.primary_updated_by.as_deref(), Some("agent:codex"));

    let err = take_over(&store_a, &mut bindings, "9001", bot("9001"), "888888888888888888")
        .unwrap_err();
    assert!(err.contains("current primary"));
}

#[test]
fn invalid_handover_target_preserves_primary() {
    let store = store("codex");
    let mut bindings = ThreadBindings::new();
    assert_eq!(
        take_over(&store, &mut bindings, "9001", human(), "7").unwrap_err(),
        "thread is not bound to a workspace"
    );
    record(&store, &mut bindings, "555555555555555555", "openab-lab", PROJECT).expect("record");
    let err = take_over(&store, &mut bindings, "9999", human(), "777777777777777777").unwrap_err();
    assert!(err.contains("not in ChannelProfile"));
    assert_eq!(
        take_over(&store, &mut bindings, "9002", human(), "7").unwrap_err(),
        "handover target does not match this agent"
    );
    assert_eq!(
        take_over(&store, &mut bindings, "9001", bot("4"), "7").unwrap_err(),
        "handover author bot is not in ChannelProfile"
    );
    let binding = look_up(&store, &bindings, "555555555555555555", PROJECT)
        .expect("lookup")
        .expect("binding");
    assert_eq!(binding.primary_bot.as_deref(), Some("codex"));
}

#[test]
fn store_is_configured_or_below_the_workspace_root() {
    let mut off = config("codex");
    off.enabled = false;
    assert!(ThreadBindingStore::from_config(off, Some("/ws")).is_none());

    let mut by_root = config("codex");
    by_root.store_dir = None;
    let store = ThreadBindingStore::from_config(by_root, Some("/ws")).expect("store");
    assert_eq!(store.store_dir(), "/ws/.openab");
    assert_eq!(store.channel_profiles_path(), "/ws/.openab/channel-profiles.json");
    assert_eq!(store.thread_bindings_path(), "/ws/.openab/thread-bindings.json");
    assert_eq!(store.lock_path(), "/ws/.openab/thread-bindings.lock");
    assert_eq!(store.profiles().len(), 1);

    let mut nowhere = config("codex");
    nowhere.store_dir = None;
    assert!(ThreadBindingStore::from_config(nowhere, None).is_none());
}
