//! Sessions of agents and the directories of threads.

use openab::acp::pool::{
    choose_eviction, get_or_insert_gate, remove_if_same_handle, ConnectionProbe,
    CurrentConnection, IdleConnection, SessionPool,
};
use openab::acp::resolve::{WorkdirAction, WorkdirAnswer, WorkdirJob};
use openab::acp::setup::{SessionSetup, SetupAction, SetupAnswer};
use openab::acp::workdir::WorkdirPlan;
use openab::acp::workspace::{
    requested_workspace_path, safe_thread_component, PathFacts, WorkspaceFacts, WorkspaceStep,
};
use openab::config::{
    ChannelProfileConfig, ThreadBindingConfig, WorkspaceConfig, WorkspaceRequest,
};
use openab::json::{json_string, parse_mapping, render_mapping};
use openab::paths::path_parents;
use openab::table::{Table, TextTable};
use openab::thread_binding::{
    ChannelProfile, CwdFacts, ThreadBindingContext, ThreadBindingStore, ThreadBindings,
};

/// Directories and symbolic links held in memory.
struct Disk {
    dirs: Vec<String>,
    links: Vec<(String, String)>,
}

impl Disk {
    fn new(dirs: &[&str]) -> Disk {
        Disk {
            dirs: dirs.iter().map(|d| d.to_string()).collect(),
            links: Vec::new(),
        }
    }

    fn resolve(&self, path: &str) -> Option<String> {
        let mut resolved = path.trim_end_matches('/').to_string();
        if resolved.is_empty() {
            resolved = "/".to_string();
        }
        for (from, to) in &self.links {
            if resolved == *from || resolved.starts_with(&format!("{from}/")) {
                resolved = format!("{to}{}", &resolved[from.len()..]);
            }
        }
        let known = resolved == "/"
            || self
                .dirs
                .iter()
                .any(|d| *d == resolved || d.starts_with(&format!("{resolved}/")));
        if known {
            Some(resolved)
        } else {
            None
        }
    }

    fn canonical(&self, path: &str) -> Result<String, String> {
        self.resolve(path).ok_or("No such file or directory".to_string())
    }

    fn facts(&self, path: &str) -> PathFacts {
        let found = self.resolve(path).is_some();
        PathFacts {
            exists: found,
            is_dir: found,
            canonical: self.canonical(path),
        }
    }

    fn workspace(&self, path: &str, root: &str) -> WorkspaceFacts {
        WorkspaceFacts {
            root: self.canonical(root),
            requested: self.facts(path),
            ancestors: path_parents(path).iter().map(|p| self.facts(p)).collect(),
        }
    }

    fn create(&mut self, path: &str) {
        self.dirs.push(path.to_string());
    }
}

const ROOT: &str = "/data/workspaces";

fn no_bindings() -> ThreadBindingConfig {
    ThreadBindingConfig {
        enabled: false,
        agent_name: None,
        store_dir: None,
        channel_profiles: Vec::new(),
    }
}

fn pool_with(root: Option<&str>, required: bool, bindings: ThreadBindingConfig) -> SessionPool {
    SessionPool::new(
        "/data",
        1,
        false,
        WorkspaceConfig {
            root: root.map(|r| r.to_string()),
            required,
        },
        bindings,
        TextTable::new(),
        TextTable::new(),
    )
}

fn workspace_pool(required: bool) -> SessionPool {
    pool_with(Some(ROOT), required, no_bindings())
}

fn existing(name: &str) -> WorkspaceRequest {
    WorkspaceRequest::Existing(name.to_string())
}

fn create(name: &str) -> WorkspaceRequest {
    WorkspaceRequest::Create(name.to_string())
}

/// What there is to know of a requested directory; of a refused name nothing is looked up.
fn request_facts(disk: &Disk, request: &WorkspaceRequest) -> WorkspaceFacts {
    match requested_workspace_path(request, ROOT) {
        Ok(path) => disk.workspace(&path, ROOT),
        Err(_) => disk.workspace("", ROOT),
    }
}

/// Checks a request and creates its directory where that is asked for.
fn validate(pool: &SessionPool, disk: &mut Disk, request: &WorkspaceRequest) -> Result<String, String> {
    let facts = request_facts(disk, request);
    match pool.validate_requested_workspace(request, &facts)? {
        WorkspaceStep::Ready(cwd) => Ok(cwd),
        WorkspaceStep::Create(dir) => {
            disk.create(&dir);
            pool.validate_created_workspace(&dir, &disk.facts(&dir), &disk.canonical(ROOT))
        }
    }
}

fn prepare(
    pool: &SessionPool,
    disk: &mut Disk,
    request: Option<&WorkspaceRequest>,
) -> Result<Option<WorkspaceRequest>, String> {
    let checked = match request {
        Some(r) if pool.workspace_enabled() => validate(pool, disk, r),
        _ => Ok(String::new()),
    };
    pool.prepare_workspace_request(request, &checked)
}

fn preflight(pool: &SessionPool, disk: &Disk, request: &WorkspaceRequest) -> Result<(), String> {
    let facts = request_facts(disk, request);
    pool.preflight_workspace_request(request, &facts)
}

/// Runs the search for a thread's directory to its end.
fn resolve(
    pool: &mut SessionPool,
    disk: &mut Disk,
    thread: &str,
    request: Option<WorkspaceRequest>,
) -> Result<String, String> {
    resolve_shared(pool, disk, thread, request, None)
}

fn cwd_facts(disk: &Disk, root: &str, cwd: &str) -> CwdFacts {
    CwdFacts {
        root: disk.canonical(root),
        cwd: disk.canonical(cwd),
        is_dir: disk.facts(cwd).is_dir,
    }
}

fn resolve_shared(
    pool: &mut SessionPool,
    disk: &mut Disk,
    thread: &str,
    request: Option<WorkspaceRequest>,
    mut shared: Option<(&ThreadBindingStore, &mut ThreadBindings, &ThreadBindingContext)>,
) -> Result<String, String> {
    let (mut job, mut step) = WorkdirJob::start(pool, thread, request, shared.is_some());
    loop {
        let answer = match step.action {
            WorkdirAction::Done(cwd) => return Ok(cwd),
            WorkdirAction::Failed(e) => return Err(e),
            WorkdirAction::ProbePath(path) => WorkdirAnswer::Path {
                facts: disk.facts(&path),
                root: disk.canonical(ROOT),
            },
            WorkdirAction::ProbeWorkspace(path) => {
                WorkdirAnswer::Workspace(disk.workspace(&path, ROOT))
            }
            WorkdirAction::CreateDir(path) | WorkdirAction::CreateThreadDir(path) => {
                disk.create(&path);
                WorkdirAnswer::Performed(Ok(()))
            }
            WorkdirAction::LookupShared => {
                let (store, bindings, ctx) = shared.as_ref().unwrap();
                let key = ThreadBindingStore::binding_key(&ctx.platform, &ctx.thread_id);
                let cwd = match bindings.get(&key) {
                    Some(b) => b.resolved_cwd.clone(),
                    None => String::new(),
                };
                let facts = cwd_facts(disk, ROOT, &cwd);
                let found = store.lookup_binding(store.profiles(), bindings, ctx, &facts);
                WorkdirAnswer::Shared(found.map(|b| b.map(|b| b.resolved_cwd)))
            }
            WorkdirAction::RecordShared { name, cwd } => {
                let (store, bindings, ctx) = shared.as_mut().unwrap();
                let facts = cwd_facts(disk, ROOT, &cwd);
                let recorded =
                    store.record_binding(store.profiles(), bindings, ctx, &name, &cwd, &facts);
                WorkdirAnswer::Performed(recorded.map(|_| ()))
            }
        };
        step = job.answer(pool, answer);
    }
}

#[test]
fn remove_if_same_handle_removes_matching_entry() {
    let mut map: Table<u64> = Table::new();
    map.insert("thread", 1);

    let removed = remove_if_same_handle(&mut map, "thread", 1);

    assert!(removed.is_some());
    assert_eq!(map.len(), 0);
}

#[test]
fn remove_if_same_handle_keeps_replaced_entry() {
    let stale = 1;
    let fresh = 2;
    let mut map: Table<u64> = Table::new();
    map.insert("thread", fresh);

    let removed = remove_if_same_handle(&mut map, "thread", stale);

    assert!(removed.is_none());
    let current = map.get("thread").expect("entry should remain");
    assert_eq!(*current, fresh);
}

#[test]
fn get_or_insert_gate_reuses_gate_for_same_thread() {
    let mut map: Table<u64> = Table::new();

    let first = get_or_insert_gate(&mut map, "thread", 1);
    let second = get_or_insert_gate(&mut map, "thread", 2);

    assert_eq!(first, second);
    assert_eq!(map.len(), 1);
}

#[test]
fn persisted_mapping_can_include_active_and_suspended_sessions() {
    let mut persisted = TextTable::new();
    persisted.insert("active-thread", "session-active");
    persisted.insert("suspended-thread", "session-suspended");

    let serialized = render_mapping(&persisted);
    let roundtrip = parse_mapping(&serialized);

    assert_eq!(roundtrip.get("active-thread"), Some("session-active"));
    assert_eq!(roundtrip.get("suspended-thread"), Some("session-suspended"));
    assert_eq!(roundtrip.len(), 2);
    assert!(serialized.contains("\"active-thread\": \"session-active\""));
}

#[test]
fn corrupt_mapping_is_read_as_empty() {
    assert_eq!(parse_mapping("not json").len(), 0);
    assert_eq!(parse_mapping("{\"a\": 1}").len(), 0);
    assert_eq!(parse_mapping("{\"a\": \"1\", \"a\": \"2\"}").get("a"), Some("2"));
}

#[test]
fn resolve_working_dir_binds_required_workspace_create_without_rwlock_deadlock() {
    let mut disk = Disk::new(&[ROOT, "/data/home"]);
    let mut pool = workspace_pool(true);

    let result = resolve(&mut pool, &mut disk, "discord:test-thread", Some(create("project")))
        .expect("workspace should resolve");

    assert_eq!(result, "/data/workspaces/project");
    assert_eq!(
        pool.workdir_mapping().get("discord:test-thread"),
        Some("/data/workspaces/project")
    );
}

#[test]
fn resolve_working_dir_rejects_missing_workspace_without_create() {
    let mut disk = Disk::new(&[ROOT, "/data/home"]);
    let mut pool = workspace_pool(true);

    let err = resolve(
        &mut pool,
        &mut disk,
        "discord:test-thread",
        Some(existing("missing-project")),
    )
    .unwrap_err();
    assert!(err.contains("use [[ws:missing-project --create]]"));
    assert!(!disk.facts("/data/workspaces/missing-project").exists);
}

#[test]
fn resolve_working_dir_rejects_deleted_persisted_workspace() {
    let mut disk = Disk::new(&[ROOT, "/data/workspaces/project", "/data/home"]);
    let mut pool = workspace_pool(true);

    let thread_id = "discord:test-thread";
    resolve(&mut pool, &mut disk, thread_id, Some(existing("project")))
        .expect("workspace should bind");

    disk.dirs.retain(|d| d != "/data/workspaces/project");

    let err = resolve(&mut pool, &mut disk, thread_id, None).unwrap_err();
    assert!(err.contains("workspace no longer exists"));
    assert!(err.contains("project"));
}

#[test]
fn prepare_workspace_request_creates_then_normalizes_to_existing_relative_name() {
    let mut disk = Disk::new(&[ROOT, "/data/home"]);
    let pool = workspace_pool(true);

    let prepared = prepare(&pool, &mut disk, Some(&create("project")))
        .expect("workspace should create and normalize")
        .expect("request should stay present");

    assert!(disk.facts("/data/workspaces/project").is_dir);
    assert_eq!(prepared, existing("project"));
}

#[test]
fn preflighted_existing_workspace_resolves_to_canonical_cwd() {
    let mut disk = Disk::new(&["/data/workspaces/openab-lab", "/data/home"]);
    let mut pool = workspace_pool(true);

    let prepared = prepare(&pool, &mut disk, Some(&existing("openab-lab")))
        .expect("workspace preflight should resolve")
        .expect("request should stay present");

    assert_eq!(prepared, existing("openab-lab"));

    let cwd = resolve(&mut pool, &mut disk, "discord:test-thread", Some(prepared))
        .expect("preflighted workspace should create session cwd");

    assert_eq!(cwd, "/data/workspaces/openab-lab");
}

#[test]
fn list_workspaces_filters_hidden_and_orders_prefix_first() {
    let pool = workspace_pool(true);
    let mut entries: Vec<String> = ["openab-deploy", "openab-lab", "httpping", ".git", ".openab"]
        .iter()
        .map(|d| d.to_string())
        .collect();

    // No query → all visible dirs, sorted, hidden excluded.
    let all = pool.list_workspaces(&entries, "", 25);
    assert_eq!(all, vec!["httpping", "openab-deploy", "openab-lab"]);

    // Query narrows; substring "lab" matches openab-lab.
    assert_eq!(pool.list_workspaces(&entries, "lab", 25), vec!["openab-lab"]);

    // Prefix matches sort ahead of mid-string matches.
    entries.push("zz-openab".to_string());
    let q = pool.list_workspaces(&entries, "openab", 25);
    assert_eq!(q[0], "openab-deploy");
    assert_eq!(q[1], "openab-lab");
    assert!(q.contains(&"zz-openab".to_string()));
    assert!(q.iter().position(|n| n == "zz-openab").unwrap() > 1);

    // Limit is honored.
    assert_eq!(pool.list_workspaces(&entries, "", 1).len(), 1);
}

#[test]
fn list_workspaces_ignores_case_and_lists_nothing_without_a_root() {
    let entries = vec!["Alpha".to_string(), "beta".to_string(), "ALPS".to_string()];
    let pool = workspace_pool(false);
    assert_eq!(pool.list_workspaces(&entries, "  aLP ", 25), vec!["ALPS", "Alpha"]);

    let off = pool_with(None, false, no_bindings());
    assert!(off.list_workspaces(&entries, "", 25).is_empty());
}

#[test]
fn preflight_workspace_request_validates_without_side_effects() {
    let disk = Disk::new(&["/data/workspaces/project", "/data/home"]);
    let pool = workspace_pool(true);

    // Existing without create → ok.
    preflight(&pool, &disk, &existing("project")).expect("existing should pass");

    // Missing without create → error, no directory created.
    let err = preflight(&pool, &disk, &existing("missing")).unwrap_err();
    assert!(err.contains("does not exist"));
    assert!(!disk.facts("/data/workspaces/missing").exists);

    // Missing with create → ok, still no side effect (preflight does not mkdir).
    preflight(&pool, &disk, &create("fresh")).expect("create preflight should pass");
    assert!(!disk.facts("/data/workspaces/fresh").exists);

    // Existing with create → error (would clobber intent).
    let err = preflight(&pool, &disk, &create("project")).unwrap_err();
    assert!(err.contains("already exists"));

    // Traversal rejected.
    assert!(preflight(&pool, &disk, &existing("../escape")).is_err());
}

#[test]
fn bind_thread_workspace_creates_dir_and_is_idempotent() {
    let mut disk = Disk::new(&[ROOT, "/data/home"]);
    let mut pool = workspace_pool(true);

    let thread_id = "discord:ws-thread";
    let checked = validate(&pool, &mut disk, &create("fresh")).expect("create and resolve");
    let cwd = pool
        .bind_thread_workspace(thread_id, &checked)
        .expect("bind should create and resolve");
    assert_eq!(cwd, "/data/workspaces/fresh");
    assert!(disk.facts("/data/workspaces/fresh").is_dir);

    // A later turn with no directive resolves the same bound cwd.
    let resolved =
        resolve(&mut pool, &mut disk, thread_id, None).expect("follow-up resolves persisted cwd");
    assert_eq!(resolved, cwd);

    // Re-binding the same workspace is idempotent.
    let checked = validate(&pool, &mut disk, &existing("fresh")).expect("existing");
    let again = pool
        .bind_thread_workspace(thread_id, &checked)
        .expect("idempotent rebind");
    assert_eq!(again, cwd);

    // Binding a different workspace to the same thread is rejected.
    disk.create("/data/workspaces/other");
    let checked = validate(&pool, &mut disk, &existing("other")).expect("other");
    let err = pool.bind_thread_workspace(thread_id, &checked).unwrap_err();
    assert!(err.contains("already has workspace"));
}

fn profile_config(agent_name: &str) -> ThreadBindingConfig {
    ThreadBindingConfig {
        enabled: true,
        agent_name: Some(agent_name.to_string()),
        store_dir: Some("/data/workspaces/.openab".to_string()),
        channel_profiles: vec![ChannelProfileConfig {
            profile_id: "software-dev".to_string(),
            guild_id: "111111111111111111".to_string(),
            parent_channel_id: "222222222222222222".to_string(),
            work_domain: "software-development".to_string(),
            workspace_root: ROOT.to_string(),
            allowed_agents: vec!["codex".to_string(), "codex-second".to_string()],
            agents: Vec::new(),
        }],
    }
}

#[test]
fn thread_binding_inherits_cwd_across_independent_homes() {
    let mut disk = Disk::new(&["/data/workspaces/openab-lab", "/data/home-a", "/data/home-b"]);
    let mut pool_a = pool_with(Some(ROOT), true, profile_config("codex"));
    let mut pool_b = pool_with(Some(ROOT), true, profile_config("codex-second"));
    let store_a = ThreadBindingStore::from_config(profile_config("codex"), None).unwrap();
    let store_b = ThreadBindingStore::from_config(profile_config("codex-second"), None).unwrap();
    let mut bindings = ThreadBindings::new();
    let ctx = ThreadBindingContext {
        platform: "discord".to_string(),
        guild_id: Some("111111111111111111".to_string()),
        parent_channel_id: Some("222222222222222222".to_string()),
        thread_id: "555555555555555555".to_string(),
        created_by_user_id: Some("333333333333333333".to_string()),
        trigger_message_id: Some("444444444444444444".to_string()),
    };
    let thread_key = format!("discord:{}", ctx.thread_id);

    let bound = resolve_shared(
        &mut pool_a,
        &mut disk,
        &thread_key,
        Some(existing("openab-lab")),
        Some((&store_a, &mut bindings, &ctx)),
    )
    .expect("bot a should bind workspace");
    let inherited = resolve_shared(
        &mut pool_b,
        &mut disk,
        &thread_key,
        None,
        Some((&store_b, &mut bindings, &ctx)),
    )
    .expect("bot b should inherit shared binding");

    assert_eq!(bound, "/data/workspaces/openab-lab");
    assert_eq!(inherited, "/data/workspaces/openab-lab");

    let private_map = render_mapping(pool_b.workdir_mapping());
    let workdirs = parse_mapping(&private_map);
    assert_eq!(workdirs.get(&thread_key), Some(inherited.as_str()));
}

#[test]
fn repeated_same_workspace_is_allowed_but_workspace_change_is_rejected() {
    let mut disk = Disk::new(&["/data/workspaces/openab-lab", "/data/workspaces/other"]);
    let mut pool = workspace_pool(true);
    let thread_key = "discord:test-thread";
    let first = resolve(&mut pool, &mut disk, thread_key, Some(existing("openab-lab")))
        .expect("initial bind");
    let repeated = resolve(&mut pool, &mut disk, thread_key, Some(existing("openab-lab")))
        .expect("same workspace redeclaration should pass");

    assert_eq!(repeated, first);

    let err =
        resolve(&mut pool, &mut disk, thread_key, Some(existing("other"))).unwrap_err();
    assert!(err.contains("thread already has workspace"));
    assert!(err.contains("openab-lab"));
}

#[test]
fn prepare_workspace_request_rejects_existing_create() {
    let mut disk = Disk::new(&["/data/workspaces/project"]);
    let pool = workspace_pool(true);

    let err = prepare(&pool, &mut disk, Some(&create("project"))).unwrap_err();

    assert!(err.contains("workspace already exists"));
    assert!(err.contains("use [[ws:project]]"));
}

#[test]
fn prepare_workspace_request_ignores_ws_when_workspace_root_unset() {
    let mut disk = Disk::new(&["/data/home"]);
    let pool = pool_with(None, false, no_bindings());

    let prepared = prepare(&pool, &mut disk, Some(&existing("foo")))
        .expect("workspace feature should be disabled");
    assert_eq!(prepared, None);
}

#[test]
fn prepare_workspace_request_requires_ws_when_required() {
    let mut disk = Disk::new(&[ROOT]);
    let pool = workspace_pool(true);

    let err = prepare(&pool, &mut disk, None).unwrap_err();
    assert!(err.contains("missing workspace directive"));
}

#[test]
fn prepare_workspace_request_allows_nested_workspace() {
    let mut disk = Disk::new(&["/data/workspaces/team/foo"]);
    let pool = workspace_pool(false);

    let prepared = prepare(&pool, &mut disk, Some(&existing("team/foo")))
        .expect("nested workspace should resolve")
        .expect("request should stay present");

    assert_eq!(prepared, existing("team/foo"));
}

#[test]
fn prepare_workspace_request_rejects_absolute_and_parent_paths() {
    let mut disk = Disk::new(&[ROOT]);
    let pool = workspace_pool(false);

    let err = prepare(&pool, &mut disk, Some(&existing("/tmp/foo"))).unwrap_err();
    assert!(err.contains("relative path"));

    let err = prepare(&pool, &mut disk, Some(&existing("../foo"))).unwrap_err();
    assert!(err.contains("unsafe path components"));
}

#[test]
fn prepare_workspace_request_rejects_symlink_parent_escape_before_create() {
    let mut disk = Disk::new(&[ROOT, "/data/outside"]);
    disk.links.push(("/data/workspaces/link".to_string(), "/data/outside".to_string()));
    let pool = workspace_pool(false);

    let err = prepare(&pool, &mut disk, Some(&create("link/new"))).unwrap_err();
    assert!(err.contains("workspace parent is outside the workspace root"));
    assert!(!disk.facts("/data/outside/new").exists);
}

#[test]
fn unresolvable_paths_are_reported() {
    let pool = workspace_pool(false);
    let broken = WorkspaceFacts {
        root: Err("gone".to_string()),
        requested: PathFacts {
            exists: true,
            is_dir: true,
            canonical: Ok("/data/workspaces/a".to_string()),
        },
        ancestors: path_parents("/data/workspaces/a")
            .iter()
            .map(|_| PathFacts {
                exists: false,
                is_dir: false,
                canonical: Err("gone".to_string()),
            })
            .collect(),
    };
    let err = pool.validate_requested_workspace(&existing("a"), &broken).unwrap_err();
    assert_eq!(err, "failed to resolve workspace root /data/workspaces: gone");

    let no_parent = WorkspaceFacts {
        root: Ok(ROOT.to_string()),
        requested: PathFacts {
            exists: false,
            is_dir: false,
            canonical: Err("gone".to_string()),
        },
        ..broken
    };
    let err = pool.validate_requested_workspace(&create("a"), &no_parent).unwrap_err();
    assert_eq!(err, "workspace root does not exist: /data/workspaces");

    let file = PathFacts {
        exists: true,
        is_dir: false,
        canonical: Ok("/data/workspaces/a".to_string()),
    };
    let err = pool
        .validate_created_workspace("/data/workspaces/a", &file, &Ok(ROOT.to_string()))
        .unwrap_err();
    assert_eq!(err, "workspace is not a directory: /data/workspaces/a");

    let err = pool
        .validate_persisted_workdir(
            "/elsewhere",
            &PathFacts {
                exists: true,
                is_dir: true,
                canonical: Ok("/elsewhere".to_string()),
            },
            &Ok(ROOT.to_string()),
        )
        .unwrap_err();
    assert_eq!(
        err,
        "persisted workspace is invalid: /elsewhere: workspace is outside the workspace root"
    );
}

#[test]
fn threads_without_a_workspace_get_a_directory_of_their_own() {
    let pool = SessionPool::new(
        "/srv/agent",
        4,
        true,
        WorkspaceConfig {
            root: None,
            required: false,
        },
        no_bindings(),
        TextTable::new(),
        TextTable::new(),
    );
    match pool.plan_working_dir("discord:1", false, false).unwrap() {
        WorkdirPlan::PerThread(dir) => assert_eq!(dir, "/srv/agent/sessions/discord_3a1"),
        other => panic!("unexpected plan {other:?}"),
    }
    match pool.working_dir_for_thread("slack:é").unwrap() {
        WorkdirPlan::PerThread(dir) => assert_eq!(dir, "/srv/agent/sessions/slack_3a_c3_a9"),
        other => panic!("unexpected plan {other:?}"),
    }
    assert_eq!(
        pool.plan_working_dir("", false, false).unwrap_err(),
        "invalid thread_id: "
    );
    assert_eq!(safe_thread_component("a-b_C9").unwrap(), "a-b_C9");
}

#[test]
fn path_prefixes_are_compared_by_component() {
    assert!(openab::paths::under("/data/ws/a", "/data/ws"));
    assert!(openab::paths::under("/data/ws", "/data/ws/"));
    assert!(!openab::paths::under("/data/ws-evil", "/data/ws"));
    assert!(!openab::paths::under("data/ws/a", "/data/ws"));
    assert!(openab::paths::under("/data/ws", ""));
    assert!(openab::paths::under("a", ""));
    assert!(!openab::paths::under("/a", "a"));
    assert_eq!(openab::paths::joined_path("/a", "b"), "/a/b");
    assert_eq!(openab::paths::joined_path("/a/", "b"), "/a/b");
    assert_eq!(openab::paths::joined_path("/a", "/b"), "/b");
    assert_eq!(openab::paths::joined_path("", "b"), "b");
    assert_eq!(openab::paths::path_file_name("/a/b.txt"), Some("b.txt".to_string()));
    assert_eq!(openab::paths::path_file_name("/a/.."), None);
    assert_eq!(openab::paths::path_file_name("/"), None);
    assert_eq!(path_parents("/a/b/c"), vec!["/a/b", "/a", "/"]);
    assert_eq!(path_parents("a/b"), vec!["a", ""]);
    for path in ["/srv//ws/a", "//a/./b//", "./a/b", "a//b/../c/.", "/", "", ".", "/x/"] {
        let mut expected = Vec::new();
        let mut current = std::path::Path::new(path).parent();
        while let Some(dir) = current {
            expected.push(dir.to_str().unwrap().to_string());
            current = dir.parent();
        }
        assert_eq!(path_parents(path), expected, "{path}");
    }
    assert_eq!(path_parents("/srv//ws/a"), vec!["/srv//ws", "/srv", "/"]);
}

fn idle(key: &str, handle: u64, last_active: u128, session: &str) -> ConnectionProbe {
    ConnectionProbe {
        key: key.to_string(),
        handle,
        idle: Some(IdleConnection {
            last_active,
            alive: true,
            session_id: Some(session.to_string()),
        }),
    }
}

fn small_pool(max: usize) -> SessionPool {
    SessionPool::new(
        "/srv",
        max,
        false,
        WorkspaceConfig {
            root: None,
            required: false,
        },
        no_bindings(),
        TextTable::new(),
        TextTable::new(),
    )
}

/// Runs a setup of a thread that starts an agent which cannot resume sessions.
fn connect(
    pool: &mut SessionPool,
    thread: &str,
    handle: u64,
    session: &str,
    probes: Vec<ConnectionProbe>,
) -> Result<bool, String> {
    let (mut setup, mut action) = SessionSetup::start(pool, thread);
    let mut probes = Some(probes);
    loop {
        let answer = match action {
            SetupAction::ProbeExisting(_) => SetupAnswer::Existing {
                alive: false,
                session_id: None,
            },
            SetupAction::ScanConnections => {
                SetupAnswer::Connections(probes.take().unwrap_or_default())
            }
            SetupAction::Spawn => SetupAnswer::Spawned(Ok(false)),
            SetupAction::LoadSession(_) => SetupAnswer::Loaded(false),
            SetupAction::NewSession => SetupAnswer::Created(Ok(())),
            SetupAction::Commit { .. } => {
                return setup.commit(pool, handle, session, CurrentConnection::Dead)
            }
            SetupAction::Done => return Ok(false),
            SetupAction::Failed(e) => return Err(e),
        };
        action = setup.answer(pool, answer);
    }
}

#[test]
fn full_pool_suspends_the_oldest_idle_session() {
    let mut pool = small_pool(2);
    assert_eq!(connect(&mut pool, "a", 1, "sa", vec![]), Ok(true));
    assert_eq!(connect(&mut pool, "b", 2, "sb", vec![]), Ok(true));

    let probes = vec![idle("a", 1, 20, "sa"), idle("b", 2, 10, "sb")];
    assert_eq!(choose_eviction("c", &probes), Some(1));
    assert_eq!(connect(&mut pool, "c", 3, "sc", probes), Ok(true));

    assert_eq!(pool.connection("a"), Ok(1));
    assert_eq!(pool.connection("b"), Err("no connection for thread b".to_string()));
    assert_eq!(pool.connection("c"), Ok(3));
    assert_eq!(pool.session_to_resume("b", None), Some("sb".to_string()));
    assert_eq!(pool.mapping().get("b"), Some("sb"));
    assert_eq!(pool.mapping().get("c"), Some("sc"));
}

#[test]
fn busy_pool_is_exhausted() {
    let mut pool = small_pool(1);
    assert_eq!(connect(&mut pool, "a", 1, "sa", vec![]), Ok(true));
    let busy = vec![ConnectionProbe {
        key: "a".to_string(),
        handle: 1,
        idle: None,
    }];
    assert_eq!(
        connect(&mut pool, "b", 2, "sb", busy),
        Err("pool exhausted (1 sessions)".to_string())
    );
    // A connection that was replaced meanwhile is not evicted in its place.
    let replaced = vec![idle("a", 9, 1, "old")];
    assert!(connect(&mut pool, "b", 2, "sb", replaced).is_err());
    assert_eq!(pool.connection("a"), Ok(1));
}

#[test]
fn live_connection_is_kept_and_lost_session_is_announced() {
    let mut pool = small_pool(2);
    connect(&mut pool, "a", 1, "sa", vec![]).unwrap();

    let (mut setup, action) = SessionSetup::start(&pool, "a");
    assert!(matches!(action, SetupAction::ProbeExisting(1)));
    let action = setup.answer(
        &pool,
        SetupAnswer::Existing {
            alive: true,
            session_id: None,
        },
    );
    assert!(matches!(action, SetupAction::Done));

    let (mut setup, _) = SessionSetup::start(&pool, "a");
    setup.answer(
        &pool,
        SetupAnswer::Existing {
            alive: false,
            session_id: Some("sa".to_string()),
        },
    );
    setup.answer(&pool, SetupAnswer::Connections(vec![]));
    let action = setup.answer(&pool, SetupAnswer::Spawned(Ok(true)));
    match action {
        SetupAction::LoadSession(s) => assert_eq!(s, "sa"),
        other => panic!("unexpected action {other:?}"),
    }
    let action = setup.answer(&pool, SetupAnswer::Loaded(false));
    assert!(matches!(action, SetupAction::NewSession));
    let action = setup.answer(&pool, SetupAnswer::Created(Ok(())));
    assert!(matches!(action, SetupAction::Commit { reset: true }));
    // Another task got there first.
    assert_eq!(
        setup.commit(&mut pool, 5, "s5", CurrentConnection::Alive),
        Ok(false)
    );
    assert_eq!(pool.connection("a"), Ok(1));
}

#[test]
fn resumed_session_is_not_announced_as_lost() {
    let mut mapping = TextTable::new();
    mapping.insert("t", "old-session");
    let pool = SessionPool::new(
        "/srv",
        1,
        false,
        WorkspaceConfig {
            root: None,
            required: false,
        },
        no_bindings(),
        mapping,
        TextTable::new(),
    );
    let (mut setup, action) = SessionSetup::start(&pool, "t");
    assert!(matches!(action, SetupAction::ScanConnections));
    setup.answer(&pool, SetupAnswer::Connections(vec![]));
    setup.answer(&pool, SetupAnswer::Spawned(Ok(true)));
    let action = setup.answer(&pool, SetupAnswer::Loaded(true));
    assert!(matches!(action, SetupAction::Commit { reset: false }));
}

#[test]
fn failed_agents_are_reported() {
    let pool = small_pool(1);
    let (mut setup, _) = SessionSetup::start(&pool, "t");
    setup.answer(&pool, SetupAnswer::Connections(vec![]));
    match setup.answer(&pool, SetupAnswer::Spawned(Err("no such command".to_string()))) {
        SetupAction::Failed(e) => assert_eq!(e, "no such command"),
        other => panic!("unexpected action {other:?}"),
    }
}

#[test]
fn reset_forgets_the_session() {
    let mut pool = small_pool(1);
    connect(&mut pool, "a", 1, "sa", vec![]).unwrap();
    assert!(pool.cancel_session("a").is_ok());
    assert_eq!(pool.reset_session("a"), Ok(()));
    assert_eq!(pool.session_to_resume("a", None), None);
    assert_eq!(pool.mapping().len(), 0);
    assert_eq!(
        pool.reset_session("a"),
        Err("no session for thread a".to_string())
    );
    assert_eq!(
        pool.cancel_session("a"),
        Err("no session for thread a".to_string())
    );
}

#[test]
fn cancel_request_is_one_line_of_json() {
    let mut pool = small_pool(1);
    connect(&mut pool, "a", 1, "s\"1\n\u{1}é", vec![]).unwrap();
    let line = pool.cancel_session("a").unwrap();
    assert_eq!(
        line,
        "{\"jsonrpc\":\"2.0\",\"method\":\"session/cancel\",\"params\":{\"sessionId\":\"s\\\"1\\n\\u0001é\"}}"
    );
    let value: serde_json::Value = serde_json::from_str(&line).unwrap();
    assert_eq!(value["params"]["sessionId"], "s\"1\n\u{1}é");
    assert_eq!(json_string("a\\b\tc\u{8}\u{c}\r"), "\"a\\\\b\\tc\\b\\f\\r\"");
}

#[test]
fn idle_and_dead_connections_are_suspended() {
    let mut pool = small_pool(3);
    connect(&mut pool, "idle", 1, "s1", vec![]).unwrap();
    connect(&mut pool, "fresh", 2, "s2", vec![]).unwrap();
    connect(&mut pool, "dead", 3, "s3", vec![]).unwrap();
    let probes = vec![
        idle("idle", 1, 5, "s1"),
        idle("fresh", 2, 50, "s2"),
        ConnectionProbe {
            key: "dead".to_string(),
            handle: 3,
            idle: Some(IdleConnection {
                last_active: 60,
                alive: false,
                session_id: None,
            }),
        },
    ];
    assert!(pool.cleanup_idle(&probes, 10));
    assert_eq!(pool.connections(), vec![("fresh".to_string(), 2)]);
    assert_eq!(pool.session_to_resume("idle", None), Some("s1".to_string()));
    assert_eq!(pool.session_to_resume("dead", None), None);
    assert_eq!(pool.mapping().get("dead"), None);
    assert!(!pool.cleanup_idle(&[], 10));
}

#[test]
fn shutdown_keeps_sessions_for_later() {
    let mut pool = small_pool(2);
    connect(&mut pool, "a", 1, "sa", vec![]).unwrap();
    connect(&mut pool, "b", 2, "", vec![]).unwrap();
    let sessions = vec![("a".to_string(), "sa".to_string())];
    assert_eq!(pool.shutdown(&sessions), 2);
    assert!(pool.connections().is_empty());
    assert_eq!(pool.session_to_resume("a", None), Some("sa".to_string()));
    assert_eq!(pool.session_to_resume("b", None), None);
}

#[test]
fn restarted_pool_resumes_active_and_suspended_sessions() {
    let mut pool = small_pool(1);
    connect(&mut pool, "a", 1, "s\"a", vec![]).unwrap();
    connect(&mut pool, "b", 2, "sb", vec![idle("a", 1, 0, "s\"a")]).unwrap();
    assert_eq!(pool.connection("b"), Ok(2));

    let saved = render_mapping(pool.mapping());
    let again = SessionPool::new(
        "/srv",
        1,
        false,
        WorkspaceConfig {
            root: None,
            required: false,
        },
        no_bindings(),
        parse_mapping(&saved),
        TextTable::new(),
    );
    assert!(again.connections().is_empty());
    assert_eq!(again.session_to_resume("a", None), Some("s\"a".to_string()));
    assert_eq!(again.session_to_resume("b", None), Some("sb".to_string()));
    assert_eq!(again.session_to_resume("c", None), None);
}

#[test]
fn pool_without_shared_bindings_leads_no_thread() {
    let pool = small_pool(1);
    let profiles: Vec<ChannelProfile> = Vec::new();
    let mut bindings = ThreadBindings::new();
    let ctx = ThreadBindingContext {
        platform: "discord".to_string(),
        guild_id: None,
        parent_channel_id: None,
        thread_id: "1".to_string(),
        created_by_user_id: None,
        trigger_message_id: None,
    };
    let facts = CwdFacts {
        root: Ok("/".to_string()),
        cwd: Ok("/".to_string()),
        is_dir: true,
    };
    assert_eq!(
        pool.current_agent_is_primary(&profiles, &bindings, &ctx, "1", &facts),
        Ok(false)
    );
    assert_eq!(pool.message_mentions_profile_agent(&profiles, &ctx, "<@1>"), Ok(false));
    let actor = openab::thread_binding::PrimaryUpdateActor::Human {
        user_id: "2".to_string(),
    };
    assert_eq!(
        pool.handover_primary(&profiles, &mut bindings, &ctx, "1", &actor, "m", &facts)
            .unwrap_err(),
        "thread binding store is not enabled"
    );
    assert_eq!(SessionPool::state_dir(Some("/home/u")), "/home/u/.openab");
    assert_eq!(SessionPool::state_dir(None), "/tmp/.openab");
}
