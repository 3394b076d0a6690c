//! Sessions of agents: which threads have one, which are suspended, and where each
//! thread works.

use vstd::prelude::*;

use crate::acp::workspace::res_text;
use crate::config::{ThreadBindingConfig, WorkspaceConfig};
use crate::json::{json_quoted, json_string};
use crate::paths::{joined_path, path_join};
use crate::table::{Table, TextTable};
use crate::text::{copy_opt, decimal, opt_text, render_usize};
use crate::thread_binding::{
    configured_store, flag_result, handed_over, is_primary, matching, mentions_any, profiles_of,
    ChannelProfile, CwdFacts, PrimaryUpdateActor, StoreSettings, ThreadBinding,
    ThreadBindingContext, ThreadBindingStore, ThreadBindings,
};

verus! {

/// The sessions of all threads. A connection is known by a number that its owner
/// gives it; no two connections share one.
#[derive(Debug)]
pub struct SessionPool {
    working_dir: String,
    max_sessions: usize,
    per_thread_workdir: bool,
    workspace: WorkspaceConfig,
    /// Active connections by thread.
    active: Table<u64>,
    /// Sessions that can be cancelled, by thread.
    cancel_handles: TextTable,
    /// Sessions that can be resumed because they have no connection.
    suspended: TextTable,
    /// Sessions that survive a restart, both suspended and active.
    persisted: TextTable,
    /// Working directories by thread.
    workdirs: TextTable,
    /// What serializes the creation of sessions, by thread.
    creating: Table<u64>,
    /// Bindings that several agents share.
    thread_binding_store: Option<ThreadBindingStore>,
}

/// What a pool holds.
pub struct Pool {
    pub max_sessions: usize,
    pub active: Map<Seq<char>, u64>,
    pub cancel: Map<Seq<char>, Seq<char>>,
    pub suspended: Map<Seq<char>, Seq<char>>,
    pub persisted: Map<Seq<char>, Seq<char>>,
    pub workdirs: Map<Seq<char>, Seq<char>>,
    pub creating: Map<Seq<char>, u64>,
}

/// What a pool is set up with.
pub struct PoolSettings {
    pub working_dir: Seq<char>,
    pub per_thread_workdir: bool,
    pub root: Option<Seq<char>>,
    pub required: bool,
    pub store: Option<StoreSettings>,
}

impl View for SessionPool {
    type V = Pool;

    closed spec fn view(&self) -> Pool {
        Pool {
            max_sessions: self.max_sessions,
            active: self.active@,
            cancel: self.cancel_handles@,
            suspended: self.suspended@,
            persisted: self.persisted@,
            workdirs: self.workdirs@,
            creating: self.creating@,
        }
    }
}

/// What holds of a pool at all times: no more connections than allowed; a
/// suspended session has no connection; only a connection can be cancelled; and
/// every session, suspended or active, survives a restart.
pub open spec fn pool_ok(p: Pool) -> bool {
    &&& p.active.dom().finite()
    &&& p.active.len() <= p.max_sessions
    &&& p.active.dom().disjoint(p.suspended.dom())
    &&& p.cancel.dom().subset_of(p.active.dom())
    &&& p.suspended.submap_of(p.persisted)
    &&& p.cancel.submap_of(p.persisted)
}

/// A connection as it was found when it was looked at.
#[derive(Debug)]
pub struct ConnectionProbe {
    pub key: String,
    pub handle: u64,
    /// Nothing where the connection was in use.
    pub idle: Option<IdleConnection>,
}

/// A connection that is not in use.
#[derive(Debug)]
pub struct IdleConnection {
    /// When it was last used.
    pub last_active: u128,
    pub alive: bool,
    pub session_id: Option<String>,
}

/// Whether the connection may be evicted in favour of `thread`.
pub open spec fn evictable(probe: ConnectionProbe, thread: Seq<char>) -> bool {
    probe.key@ != thread && probe.idle is Some
}

/// Whether `i` is the longest unused connection that may be evicted, the first of
/// several such.
pub open spec fn is_oldest(probes: Seq<ConnectionProbe>, thread: Seq<char>, i: int) -> bool {
    &&& 0 <= i < probes.len()
    &&& evictable(probes[i], thread)
    &&& forall|j: int|
        0 <= j < probes.len() && evictable(#[trigger] probes[j], thread) ==> {
            &&& probes[i].idle->0.last_active <= probes[j].idle->0.last_active
            &&& j < i ==> probes[i].idle->0.last_active < probes[j].idle->0.last_active
        }
}

/// The longest unused connection that may be evicted in favour of `thread`.
pub fn choose_eviction(thread: &str, probes: &[ConnectionProbe]) -> (r: Option<usize>)
    ensures
        match r {
            Some(i) => is_oldest(probes@, thread@, i as int),
            None => forall|j: int|
                0 <= j < probes@.len() ==> !evictable(#[trigger] probes@[j], thread@),
        },
{
    let name = crate::text::chars_of(thread);
    let mut best: Option<usize> = None;
    let mut i: usize = 0;
    while i < probes.len()
        invariant
            i <= probes@.len(),
            name@ == thread@,
            match best {
                Some(b) => b < i && is_oldest(probes@.take(i as int), thread@, b as int),
                None => forall|j: int|
                    0 <= j < i ==> !evictable(#[trigger] probes@[j], thread@),
            },
        decreases probes@.len() - i,
    {
        let ghost t = probes@.take(i as int);
        let ghost u = probes@.take(i + 1);
        assert forall|j: int| 0 <= j < i implies t[j] == u[j] && u[j] == probes@[j] by {}
        if !crate::text::is_text(name.as_slice(), probes[i].key.as_str()) {
            if let Some(idle) = &probes[i].idle {
                match best {
                    Some(b) => {
                        if let Some(oldest) = &probes[b].idle {
                            if idle.last_active < oldest.last_active {
                                best = Some(i);
                            }
                        }
                    },
                    None => {
                        best = Some(i);
                    },
                }
            }
        }
        i += 1;
    }
    assert(probes@.take(i as int) =~= probes@);
    best
}

/// The connection of a thread as it was found when its replacement was ready.
#[derive(Clone, Copy, Debug, PartialEq, Eq, Structural)]
pub enum CurrentConnection {
    /// In use.
    Busy,
    Alive,
    Dead,
}

/// `p` with the connection of `key` gone; its session, if any, can be resumed.
pub open spec fn suspend(p: Pool, key: Seq<char>, session: Option<Seq<char>>) -> Pool {
    let q = Pool { active: p.active.remove(key), cancel: p.cancel.remove(key), ..p };
    match session {
        Some(s) => Pool {
            persisted: p.persisted.insert(key, s),
            suspended: p.suspended.insert(key, s),
            ..q
        },
        None => Pool { persisted: p.persisted.remove(key), ..q },
    }
}

/// `p` with the connection of `key` suspended, if it is still `handle`.
pub open spec fn suspend_if_same(
    p: Pool,
    key: Seq<char>,
    handle: u64,
    session: Option<Seq<char>>,
) -> Pool {
    if p.active.contains_key(key) && p.active[key] == handle {
        suspend(p, key, session)
    } else {
        p
    }
}

/// `p` with a dead connection of `thread` gone.
pub open spec fn drop_stale(p: Pool, thread: Seq<char>) -> Pool {
    if p.active.contains_key(thread) {
        Pool { active: p.active.remove(thread), cancel: p.cancel.remove(thread), ..p }
    } else {
        p
    }
}

/// `p` with room made for one more connection, where it is full and there is a
/// connection to evict.
pub open spec fn make_room(p: Pool, candidate: Option<ConnectionProbe>) -> Pool {
    if p.active.len() >= p.max_sessions && candidate is Some && candidate->0.idle is Some {
        let c = candidate->0;
        suspend_if_same(p, c.key@, c.handle, opt_text(c.idle->0.session_id))
    } else {
        p
    }
}

/// `p` with the connection `handle` for `thread`; an empty session id is none.
pub open spec fn install(p: Pool, thread: Seq<char>, handle: u64, session: Seq<char>) -> Pool {
    Pool {
        active: p.active.insert(thread, handle),
        suspended: p.suspended.remove(thread),
        persisted: if session.len() == 0 {
            p.persisted.remove(thread)
        } else {
            p.persisted.insert(thread, session)
        },
        cancel: if session.len() == 0 {
            p.cancel
        } else {
            p.cancel.insert(thread, session)
        },
        ..p
    }
}

/// Whether a connection that is ready is not needed: the thread has one by now.
pub open spec fn superseded(p: Pool, thread: Seq<char>, current: CurrentConnection) -> bool {
    p.active.contains_key(thread) && current != CurrentConnection::Dead
}

/// The pool after a new connection is ready.
pub open spec fn commit(
    p: Pool,
    thread: Seq<char>,
    handle: u64,
    session: Seq<char>,
    current: CurrentConnection,
    candidate: Option<ConnectionProbe>,
) -> Pool {
    if superseded(p, thread, current) {
        p
    } else {
        let q = make_room(drop_stale(p, thread), candidate);
        if q.active.len() >= q.max_sessions {
            q
        } else {
            install(q, thread, handle, session)
        }
    }
}

/// Takes `key` out of the table if it still holds `expected`.
pub fn remove_if_same_handle(map: &mut Table<u64>, key: &str, expected: u64) -> (r: Option<u64>)
    ensures
        if old(map)@.contains_key(key@) && old(map)@[key@] == expected {
            r == Some(expected) && final(map)@ == old(map)@.remove(key@)
        } else {
            r is None && final(map)@ == old(map)@
        },
{
    let same = match map.get(key) {
        Some(h) => *h == expected,
        None => false,
    };
    if same {
        map.remove(key)
    } else {
        None
    }
}

/// Looks up what serializes the creation of the session of `key`; `fresh` is put
/// there where there is nothing yet.
pub fn get_or_insert_gate(map: &mut Table<u64>, key: &str, fresh: u64) -> (gate: u64)
    ensures
        if old(map)@.contains_key(key@) {
            gate == old(map)@[key@] && final(map)@ == old(map)@
        } else {
            gate == fresh && final(map)@ == old(map)@.insert(key@, fresh)
        },
{
    match map.get(key) {
        Some(g) => *g,
        None => {
            map.insert(key, fresh);
            fresh
        },
    }
}

impl SessionPool {
    /// What the pool is set up with.
    pub closed spec fn settings(&self) -> PoolSettings {
        PoolSettings {
            working_dir: self.working_dir@,
            per_thread_workdir: self.per_thread_workdir,
            root: opt_text(self.workspace.root),
            required: self.workspace.required,
            store: match self.thread_binding_store {
                Some(s) => Some(s@),
                None => None,
            },
        }
    }

    /// A pool without connections, whose earlier sessions can be resumed.
    pub fn new(
        working_dir: &str,
        max_sessions: usize,
        per_thread_workdir: bool,
        workspace: WorkspaceConfig,
        thread_binding: ThreadBindingConfig,
        mapping: TextTable,
        workdirs: TextTable,
    ) -> (pool: Self)
        ensures
            pool@ == (Pool {
                max_sessions,
                active: Map::empty(),
                cancel: Map::empty(),
                suspended: mapping@,
                persisted: mapping@,
                workdirs: workdirs@,
                creating: Map::empty(),
            }),
            pool.settings() == (PoolSettings {
                working_dir: working_dir@,
                per_thread_workdir,
                root: opt_text(workspace.root),
                required: workspace.required,
                store: configured_store(thread_binding, opt_text(workspace.root)),
            }),
            pool_ok(pool@),
    {
        let root = match &workspace.root {
            Some(r) => Some(r.as_str()),
            None => None,
        };
        let thread_binding_store = ThreadBindingStore::from_config(thread_binding, root);
        SessionPool {
            working_dir: working_dir.to_string(),
            max_sessions,
            per_thread_workdir,
            workspace,
            active: Table::new(),
            cancel_handles: TextTable::new(),
            suspended: mapping.clone(),
            persisted: mapping,
            workdirs,
            creating: Table::new(),
            thread_binding_store,
        }
    }

    /// The directory in which the pool keeps its files.
    pub fn state_dir(home: Option<&str>) -> (r: String)
        ensures
            r@ == path_join(
                match home {
                    Some(h) => h@,
                    None => "/tmp"@,
                },
                ".openab"@,
            ),
    {
        match home {
            Some(h) => joined_path(h, ".openab"),
            None => joined_path("/tmp", ".openab"),
        }
    }

    /// Bindings that several agents share.
    pub fn binding_store(&self) -> (r: Option<&ThreadBindingStore>)
        ensures
            (match r {
                Some(s) => Some(s@),
                None => None,
            }) == self.settings().store,
    {
        match &self.thread_binding_store {
            Some(s) => Some(s),
            None => None,
        }
    }

    /// Whether this agent leads the thread; without shared bindings it does not.
    pub fn current_agent_is_primary(
        &self,
        profiles: &[ChannelProfile],
        bindings: &ThreadBindings,
        ctx: &ThreadBindingContext,
        current_discord_user_id: &str,
        facts: &CwdFacts,
    ) -> (r: Result<bool, String>)
        ensures
            flag_result(r) == (match self.settings().store {
                None => Ok::<bool, Seq<char>>(false),
                Some(s) => is_primary(
                    s.agent,
                    profiles_of(profiles@),
                    bindings@,
                    *ctx,
                    current_discord_user_id@,
                    *facts,
                ),
            }),
    {
        match &self.thread_binding_store {
            None => Ok(false),
            Some(s) => s.current_agent_is_primary(
                profiles,
                bindings,
                ctx,
                current_discord_user_id,
                facts,
            ),
        }
    }

    /// Whether a message mentions one of the channel's agents; without shared
    /// bindings it does not.
    pub fn message_mentions_profile_agent(
        &self,
        profiles: &[ChannelProfile],
        ctx: &ThreadBindingContext,
        content: &str,
    ) -> (r: Result<bool, String>)
        ensures
            flag_result(r) == (match self.settings().store {
                None => Ok::<bool, Seq<char>>(false),
                Some(_) => match matching(profiles_of(profiles@), *ctx) {
                    Err(e) => Err::<bool, Seq<char>>(e),
                    Ok(p) => Ok::<bool, Seq<char>>(mentions_any(content@, p.agents)),
                },
            }),
    {
        match &self.thread_binding_store {
            None => Ok(false),
            Some(s) => s.message_mentions_profile_agent(profiles, ctx, content),
        }
    }

    /// Makes this agent the leading agent of a thread, now.
    pub fn handover_primary(
        &self,
        profiles: &[ChannelProfile],
        bindings: &mut ThreadBindings,
        ctx: &ThreadBindingContext,
        target_discord_user_id: &str,
        actor: &PrimaryUpdateActor,
        message_id: &str,
        facts: &CwdFacts,
    ) -> (r: Result<ThreadBinding, String>)
        ensures
            match self.settings().store {
                None => r is Err && (r->Err_0)@ == "thread binding store is not enabled"@
                    && final(bindings)@ == old(bindings)@,
                Some(s) => handed_over(
                    s.agent,
                    profiles_of(profiles@),
                    old(bindings)@,
                    final(bindings)@,
                    *ctx,
                    target_discord_user_id@,
                    *actor,
                    message_id@,
                    *facts,
                    r,
                ),
            },
    {
        match &self.thread_binding_store {
            None => Err("thread binding store is not enabled".to_string()),
            Some(s) => s.handover_primary(
                profiles,
                bindings,
                ctx,
                target_discord_user_id,
                actor,
                message_id,
                facts,
            ),
        }
    }

    /// The directory that holds all workspaces.
    pub(crate) fn workspace_root(&self) -> (r: Option<String>)
        ensures
            opt_text(r) == self.settings().root,
    {
        copy_opt(&self.workspace.root)
    }

    /// Whether every thread must name a workspace.
    pub(crate) fn workspace_required(&self) -> (r: bool)
        ensures
            r == self.settings().required,
    {
        self.workspace.required
    }

    /// The directory of threads without one of their own.
    pub(crate) fn default_dir(&self) -> (r: String)
        ensures
            r@ == self.settings().working_dir,
    {
        self.working_dir.clone()
    }

    /// Whether each thread has a directory of its own.
    pub(crate) fn has_thread_dirs(&self) -> (r: bool)
        ensures
            r == self.settings().per_thread_workdir,
    {
        self.per_thread_workdir
    }

    /// The directory that a thread is bound to.
    pub(crate) fn workdir(&self, thread: &str) -> (r: Option<String>)
        ensures
            opt_text(r) == (if self@.workdirs.contains_key(thread@) {
                Some(self@.workdirs[thread@])
            } else {
                None
            }),
    {
        match self.workdirs.get(thread) {
            Some(s) => Some(s.to_string()),
            None => None,
        }
    }

    /// Binds a thread to a directory.
    pub(crate) fn set_workdir(&mut self, thread: &str, cwd: &str)
        ensures
            final(self)@ == (Pool {
                workdirs: old(self)@.workdirs.insert(thread@, cwd@),
                ..old(self)@
            }),
            final(self).settings() == old(self).settings(),
    {
        self.workdirs.insert(thread, cwd);
    }

    /// Whether workspaces are in use.
    pub fn workspace_enabled(&self) -> (r: bool)
        ensures
            r == (self.settings().root is Some),
    {
        self.workspace.root.is_some()
    }

    /// Looks up what serializes the creation of the thread's session.
    pub fn creation_gate(&mut self, thread: &str, fresh: u64) -> (gate: u64)
        requires
            pool_ok(old(self)@),
        ensures
            final(self)@ == (Pool {
                creating: if old(self)@.creating.contains_key(thread@) {
                    old(self)@.creating
                } else {
                    old(self)@.creating.insert(thread@, fresh)
                },
                ..old(self)@
            }),
            gate == final(self)@.creating[thread@],
            final(self).settings() == old(self).settings(),
            pool_ok(final(self)@),
    {
        get_or_insert_gate(&mut self.creating, thread, fresh)
    }

    /// The connection of a thread.
    pub fn connection(&self, thread: &str) -> (r: Result<u64, String>)
        ensures
            match r {
                Ok(h) => self@.active.contains_key(thread@) && h == self@.active[thread@],
                Err(e) => !self@.active.contains_key(thread@) && e@ == "no connection for thread "@
                    + thread@,
            },
    {
        match self.active.get(thread) {
            Some(h) => Ok(*h),
            None => Err("no connection for thread ".to_string().concat(thread)),
        }
    }

    /// The session to resume for a thread: a suspended one, else the one of its
    /// dead connection.
    pub fn session_to_resume(&self, thread: &str, stale: Option<String>) -> (r: Option<String>)
        ensures
            opt_text(r) == (if self@.suspended.contains_key(thread@) {
                Some(self@.suspended[thread@])
            } else {
                opt_text(stale)
            }),
    {
        match self.suspended.get(thread) {
            Some(s) => Some(s.to_string()),
            None => stale,
        }
    }

    /// Whether the session is to be loaded into a new agent.
    pub fn loads_session(saved: &Option<String>, supports_load: bool) -> (r: bool)
        ensures
            r == (saved is Some && supports_load),
    {
        saved.is_some() && supports_load
    }

    /// Whether the user is to be told that the session was lost.
    pub fn session_was_lost(resumed: bool, had_connection: bool, saved: &Option<String>) -> (r:
        bool)
        ensures
            r == (!resumed && (had_connection || saved is Some)),
    {
        !resumed && (had_connection || saved.is_some())
    }

    fn suspend_connection(&mut self, key: &str, handle: u64, session: &Option<String>)
        ensures
            final(self)@ == suspend_if_same(old(self)@, key@, handle, opt_text(*session)),
            final(self).settings() == old(self).settings(),
    {
        if remove_if_same_handle(&mut self.active, key, handle).is_some() {
            self.cancel_handles.remove(key);
            match session {
                Some(s) => {
                    self.persisted.insert(key, s.as_str());
                    self.suspended.insert(key, s.as_str());
                },
                None => self.persisted.remove(key),
            }
        }
    }

    /// Takes over a connection that is ready: `Ok(true)` if it is now the thread's
    /// connection, `Ok(false)` if the thread had got another one meanwhile. A full
    /// pool first suspends the `candidate`, and refuses if that makes no room.
    pub fn commit(
        &mut self,
        thread: &str,
        handle: u64,
        session: &str,
        current: CurrentConnection,
        candidate: &Option<ConnectionProbe>,
    ) -> (r: Result<bool, String>)
        requires
            pool_ok(old(self)@),
        ensures
            final(self)@ == commit(
                old(self)@,
                thread@,
                handle,
                session@,
                current,
                *candidate,
            ),
            final(self).settings() == old(self).settings(),
            pool_ok(final(self)@),
            match r {
                Ok(installed) => if installed {
                    !superseded(old(self)@, thread@, current)
                        && final(self)@.active.contains_key(thread@)
                        && final(self)@.active[thread@] == handle
                } else {
                    superseded(old(self)@, thread@, current)
                },
                Err(e) => {
                    &&& !superseded(old(self)@, thread@, current)
                    &&& make_room(
                        drop_stale(old(self)@, thread@),
                        *candidate,
                    ).active.len() >= old(self)@.max_sessions
                    &&& e@ == "pool exhausted ("@ + decimal(old(self)@.max_sessions as nat)
                        + " sessions)"@
                },
            },
    {
        proof {
            lemma_commit_keeps_ok(self@, thread@, handle, session@, current, *candidate);
        }
        if self.active.contains(thread) {
            if current != CurrentConnection::Dead {
                return Ok(false);
            }
            self.active.remove(thread);
            self.cancel_handles.remove(thread);
        }
        if self.active.len() >= self.max_sessions {
            if let Some(c) = candidate {
                if let Some(idle) = &c.idle {
                    self.suspend_connection(c.key.as_str(), c.handle, &idle.session_id);
                }
            }
        }
        if self.active.len() >= self.max_sessions {
            return Err(
                "pool exhausted (".to_string().concat(
                    render_usize(self.max_sessions).as_str(),
                ).concat(" sessions)"),
            );
        }
        if session.unicode_len() == 0 {
            self.persisted.remove(thread);
        } else {
            self.persisted.insert(thread, session);
            self.cancel_handles.insert(thread, session);
        }
        self.suspended.remove(thread);
        self.active.insert(thread, handle);
        Ok(true)
    }
}

proof fn lemma_suspend_keeps_ok(p: Pool, key: Seq<char>, handle: u64, session: Option<Seq<char>>)
    requires
        pool_ok(p),
    ensures
        pool_ok(suspend_if_same(p, key, handle, session)),
{
    if p.active.contains_key(key) && p.active[key] == handle {
        let q = suspend(p, key, session);
        assert(q.active.dom() =~= p.active.dom().remove(key));
        assert(q.active.len() <= p.active.len());
        assert(!p.suspended.contains_key(key)) by {
            assert(p.active.dom().contains(key));
        }
    }
}

proof fn lemma_drop_stale_keeps_ok(p: Pool, thread: Seq<char>)
    requires
        pool_ok(p),
    ensures
        pool_ok(drop_stale(p, thread)),
{
    assert(p.active.remove(thread).dom() =~= p.active.dom().remove(thread));
}

#[verifier::spinoff_prover]
proof fn lemma_install_keeps_ok(p: Pool, thread: Seq<char>, handle: u64, session: Seq<char>)
    requires
        pool_ok(p),
        !p.active.contains_key(thread),
        p.active.len() < p.max_sessions,
    ensures
        pool_ok(install(p, thread, handle, session)),
{
    let s = install(p, thread, handle, session);
    assert(s.active.dom() =~= p.active.dom().insert(thread));
    assert(s.active.len() <= p.active.len() + 1);
    assert(!p.cancel.dom().contains(thread));
    assert forall|k: Seq<char>| s.cancel.dom().contains(k) implies (s.persisted.dom().contains(k)
        && #[trigger] s.cancel[k] == s.persisted[k]) by {
        if k != thread {
            assert(p.cancel.dom().contains(k));
        }
    }
    assert forall|k: Seq<char>| s.suspended.dom().contains(k) implies (
    s.persisted.dom().contains(k) && #[trigger] s.suspended[k] == s.persisted[k]) by {
        assert(p.suspended.dom().contains(k));
    }
    assert(s.cancel.submap_of(s.persisted));
    assert(s.suspended.submap_of(s.persisted));
}

#[verifier::spinoff_prover]
proof fn lemma_commit_keeps_ok(
    p: Pool,
    thread: Seq<char>,
    handle: u64,
    session: Seq<char>,
    current: CurrentConnection,
    candidate: Option<ConnectionProbe>,
)
    requires
        pool_ok(p),
    ensures
        pool_ok(commit(p, thread, handle, session, current, candidate)),
{
    lemma_drop_stale_keeps_ok(p, thread);
    let q = drop_stale(p, thread);
    assert(!q.active.contains_key(thread));
    if candidate is Some && candidate->0.idle is Some {
        let c = candidate->0;
        lemma_suspend_keeps_ok(q, c.key@, c.handle, opt_text(c.idle->0.session_id));
    }
    let r = make_room(q, candidate);
    assert(pool_ok(r));
    if r.active.len() < r.max_sessions {
        lemma_install_keeps_ok(r, thread, handle, session);
    }
}

/// The request that stops what a session is doing, on one line.
pub open spec fn cancel_line(session: Seq<char>) -> Seq<char> {
    "{\"jsonrpc\":\"2.0\",\"method\":\"session/cancel\",\"params\":{\"sessionId\":"@ + json_quoted(
        session,
    ) + "}}"@
}

/// `p` with nothing left of the session of `thread`.
pub open spec fn forget(p: Pool, thread: Seq<char>) -> Pool {
    Pool {
        active: p.active.remove(thread),
        cancel: p.cancel.remove(thread),
        suspended: p.suspended.remove(thread),
        persisted: p.persisted.remove(thread),
        creating: p.creating.remove(thread),
        ..p
    }
}

/// Whether an idle connection is to be closed: unused since before `cutoff`, or
/// dead. One in use is kept.
pub open spec fn is_stale(probe: ConnectionProbe, cutoff: u128) -> bool {
    probe.idle is Some && (probe.idle->0.last_active < cutoff || !probe.idle->0.alive)
}

/// `p` with the stale ones among the first `n` connections suspended.
pub open spec fn without_stale(p: Pool, probes: Seq<ConnectionProbe>, cutoff: u128, n: int) -> Pool
    decreases n,
{
    if n <= 0 {
        p
    } else {
        let q = without_stale(p, probes, cutoff, n - 1);
        let probe = probes[n - 1];
        if is_stale(probe, cutoff) {
            suspend_if_same(q, probe.key@, probe.handle, opt_text(probe.idle->0.session_id))
        } else {
            q
        }
    }
}

/// `m` with the first `n` sessions.
pub open spec fn with_sessions(
    m: Map<Seq<char>, Seq<char>>,
    sessions: Seq<(String, String)>,
    n: int,
) -> Map<Seq<char>, Seq<char>>
    decreases n,
{
    if n <= 0 {
        m
    } else {
        with_sessions(m, sessions, n - 1).insert(sessions[n - 1].0@, sessions[n - 1].1@)
    }
}

/// `p` without connections; the `sessions` that they had, by thread, can be resumed.
pub open spec fn closed_pool(p: Pool, sessions: Seq<(String, String)>) -> Pool {
    Pool {
        active: Map::empty(),
        cancel: Map::empty(),
        suspended: with_sessions(p.suspended, sessions, sessions.len() as int),
        persisted: with_sessions(p.persisted, sessions, sessions.len() as int),
        ..p
    }
}

impl SessionPool {
    /// The request that stops what the thread's session is doing.
    pub fn cancel_session(&self, thread: &str) -> (r: Result<String, String>)
        ensures
            res_text(r) == (if self@.cancel.contains_key(thread@) {
                Ok::<Seq<char>, Seq<char>>(cancel_line(self@.cancel[thread@]))
            } else {
                Err::<Seq<char>, Seq<char>>("no session for thread "@ + thread@)
            }),
    {
        match self.cancel_handles.get(thread) {
            Some(session) => Ok(
                "{\"jsonrpc\":\"2.0\",\"method\":\"session/cancel\",\"params\":{\"sessionId\":".to_string().concat(
                    json_string(session).as_str(),
                ).concat("}}"),
            ),
            None => Err("no session for thread ".to_string().concat(thread)),
        }
    }

    /// Forgets the thread's session, active or suspended, so that the next message
    /// starts a fresh one; an error where the thread had no connection.
    pub fn reset_session(&mut self, thread: &str) -> (r: Result<(), String>)
        requires
            pool_ok(old(self)@),
        ensures
            final(self)@ == forget(old(self)@, thread@),
            final(self).settings() == old(self).settings(),
            pool_ok(final(self)@),
            match r {
                Ok(()) => old(self)@.active.contains_key(thread@),
                Err(e) => !old(self)@.active.contains_key(thread@) && e@
                    == "no session for thread "@ + thread@,
            },
    {
        proof {
            lemma_forget_keeps_ok(self@, thread@);
        }
        let had_active = self.active.remove(thread).is_some();
        self.cancel_handles.remove(thread);
        self.suspended.remove(thread);
        self.persisted.remove(thread);
        self.creating.remove(thread);
        if had_active {
            Ok(())
        } else {
            Err("no session for thread ".to_string().concat(thread))
        }
    }

    /// Suspends the connections that have been idle since before `cutoff` or are
    /// dead; tells whether there were any, so that the mapping is to be saved.
    pub fn cleanup_idle(&mut self, probes: &[ConnectionProbe], cutoff: u128) -> (r: bool)
        requires
            pool_ok(old(self)@),
        ensures
            final(self)@ == without_stale(old(self)@, probes@, cutoff, probes@.len() as int),
            final(self).settings() == old(self).settings(),
            pool_ok(final(self)@),
            r == exists|i: int| 0 <= i < probes@.len() && is_stale(#[trigger] probes@[i], cutoff),
    {
        let mut any = false;
        let mut i: usize = 0;
        while i < probes.len()
            invariant
                i <= probes@.len(),
                self@ == without_stale(old(self)@, probes@, cutoff, i as int),
                self.settings() == old(self).settings(),
                pool_ok(self@),
                any == exists|j: int| 0 <= j < i && is_stale(#[trigger] probes@[j], cutoff),
            decreases probes@.len() - i,
        {
            if let Some(idle) = &probes[i].idle {
                if idle.last_active < cutoff || !idle.alive {
                    proof {
                        lemma_suspend_keeps_ok(
                            self@,
                            probes@[i as int].key@,
                            probes@[i as int].handle,
                            opt_text(idle.session_id),
                        );
                    }
                    assert(is_stale(probes@[i as int], cutoff));
                    self.suspend_connection(
                        probes[i].key.as_str(),
                        probes[i].handle,
                        &idle.session_id,
                    );
                    any = true;
                }
            }
            i += 1;
        }
        any
    }

    /// Closes all connections; their `sessions`, by thread, can be resumed later.
    /// Returns the number of connections closed.
    pub fn shutdown(&mut self, sessions: &[(String, String)]) -> (n: usize)
        requires
            pool_ok(old(self)@),
        ensures
            n == old(self)@.active.len(),
            final(self)@ == closed_pool(old(self)@, sessions@),
            final(self).settings() == old(self).settings(),
            pool_ok(final(self)@),
    {
        let n: usize = self.active.len();
        let mut i: usize = 0;
        while i < sessions.len()
            invariant
                i <= sessions@.len(),
                self@ == (Pool {
                    suspended: with_sessions(old(self)@.suspended, sessions@, i as int),
                    persisted: with_sessions(old(self)@.persisted, sessions@, i as int),
                    ..old(self)@
                }),
                self.settings() == old(self).settings(),
                self@.suspended.submap_of(self@.persisted),
            decreases sessions@.len() - i,
        {
            self.persisted.insert(sessions[i].0.as_str(), sessions[i].1.as_str());
            self.suspended.insert(sessions[i].0.as_str(), sessions[i].1.as_str());
            i += 1;
        }
        self.active.clear();
        self.cancel_handles.clear();
        n
    }

    /// The sessions that survive a restart.
    pub fn mapping(&self) -> (r: &TextTable)
        ensures
            r@ == self@.persisted,
    {
        &self.persisted
    }

    /// The working directories that survive a restart.
    pub fn workdir_mapping(&self) -> (r: &TextTable)
        ensures
            r@ == self@.workdirs,
    {
        &self.workdirs
    }

    /// The threads that have a connection, and their connections.
    pub fn connections(&self) -> (out: Vec<(String, u64)>)
        ensures
            out@.len() == self@.active.len(),
            forall|i: int|
                0 <= i < out@.len() ==> self@.active.contains_key((#[trigger] out@[i]).0@)
                    && self@.active[out@[i].0@] == out@[i].1,
            forall|i: int, j: int|
                0 <= i < j < out@.len() ==> (#[trigger] out@[i]).0@ != (#[trigger] out@[j]).0@,
    {
        let n: usize = self.active.len();
        let mut out: Vec<(String, u64)> = Vec::new();
        let mut i: usize = 0;
        while i < n
            invariant
                i <= n,
                n == self.active.order().len(),
                self.active.order().no_duplicates(),
                out@.len() == i,
                forall|j: int|
                    0 <= j < i ==> (#[trigger] out@[j]).0@ == self.active.order()[j]
                        && self.active@.contains_key(out@[j].0@) && self.active@[out@[j].0@]
                        == out@[j].1,
            decreases n - i,
        {
            let (k, h) = self.active.entry(i);
            out.push((k.to_string(), *h));
            i += 1;
        }
        out
    }
}

proof fn lemma_forget_keeps_ok(p: Pool, thread: Seq<char>)
    requires
        pool_ok(p),
    ensures
        pool_ok(forget(p, thread)),
{
    let q = forget(p, thread);
    assert(q.active.dom() =~= p.active.dom().remove(thread));
    assert(q.suspended.dom() =~= p.suspended.dom().remove(thread));
    assert(q.suspended.submap_of(q.persisted)) by {
        assert forall|k: Seq<char>| q.suspended.dom().contains(k) implies (
        q.persisted.dom().contains(k) && #[trigger] q.suspended[k] == q.persisted[k]) by {
            assert(p.suspended.dom().contains(k));
        }
    }
}

/// Messages of a thread that has lost its session start a fresh one: after a reset
/// nothing of the session is left to be resumed or cancelled.
pub proof fn law_reset_forgets_session(p: Pool, thread: Seq<char>)
    ensures
        ({
            let q = forget(p, thread);
            &&& !q.active.contains_key(thread)
            &&& !q.cancel.contains_key(thread)
            &&& !q.suspended.contains_key(thread)
            &&& !q.persisted.contains_key(thread)
            &&& q.workdirs == p.workdirs
        }),
{
}

/// A connection that is evicted can be resumed with the session it had, and no
/// other thread is touched.
pub proof fn law_eviction_keeps_session(
    p: Pool,
    key: Seq<char>,
    session: Seq<char>,
    other: Seq<char>,
)
    requires
        p.active.contains_key(key),
        other != key,
    ensures
        ({
            let q = suspend(p, key, Some(session));
            &&& !q.active.contains_key(key)
            &&& q.suspended.contains_key(key) && q.suspended[key] == session
            &&& q.persisted.contains_key(key) && q.persisted[key] == session
            &&& q.active.contains_key(other) == p.active.contains_key(other)
            &&& p.active.contains_key(other) ==> q.active[other] == p.active[other]
            &&& q.suspended.contains_key(other) == p.suspended.contains_key(other)
        }),
{
}

/// A connection that somebody replaced meanwhile is never evicted in its place.
pub proof fn law_eviction_needs_same_connection(
    p: Pool,
    key: Seq<char>,
    handle: u64,
    session: Option<Seq<char>>,
)
    requires
        p.active.contains_key(key) ==> p.active[key] != handle,
    ensures
        suspend_if_same(p, key, handle, session) == p,
{
}

/// The operations that change which sessions there are.
pub enum PoolOp {
    Commit {
        thread: Seq<char>,
        handle: u64,
        session: Seq<char>,
        current: CurrentConnection,
        candidate: Option<ConnectionProbe>,
    },
    Cleanup { probes: Seq<ConnectionProbe>, cutoff: u128 },
    Reset { thread: Seq<char> },
    Shutdown { sessions: Seq<(String, String)> },
}

/// The pool after an operation.
pub open spec fn pool_after(p: Pool, op: PoolOp) -> Pool {
    match op {
        PoolOp::Commit { thread, handle, session, current, candidate } => commit(
            p,
            thread,
            handle,
            session,
            current,
            candidate,
        ),
        PoolOp::Cleanup { probes, cutoff } => without_stale(
            p,
            probes,
            cutoff,
            probes.len() as int,
        ),
        PoolOp::Reset { thread } => forget(p, thread),
        PoolOp::Shutdown { sessions } => closed_pool(p, sessions),
    }
}

/// The pool after a sequence of operations.
pub open spec fn pool_run(p: Pool, ops: Seq<PoolOp>) -> Pool
    decreases ops.len(),
{
    if ops.len() == 0 {
        p
    } else {
        pool_after(pool_run(p, ops.drop_last()), ops.last())
    }
}

/// Whatever happens, there are never more connections than allowed, no suspended
/// session has a connection, and every session survives a restart; the threads'
/// directories are left alone.
pub proof fn law_pool_invariant(p: Pool, ops: Seq<PoolOp>)
    requires
        pool_ok(p),
    ensures
        pool_ok(pool_run(p, ops)),
        pool_run(p, ops).workdirs == p.workdirs,
        pool_run(p, ops).max_sessions == p.max_sessions,
    decreases ops.len(),
{
    if ops.len() > 0 {
        law_pool_invariant(p, ops.drop_last());
        let q = pool_run(p, ops.drop_last());
        match ops.last() {
            PoolOp::Commit { thread, handle, session, current, candidate } => {
                lemma_commit_keeps_ok(q, thread, handle, session, current, candidate);
            },
            PoolOp::Cleanup { probes, cutoff } => {
                lemma_without_stale_keeps_ok(q, probes, cutoff, probes.len() as int);
            },
            PoolOp::Reset { thread } => {
                lemma_forget_keeps_ok(q, thread);
            },
            PoolOp::Shutdown { sessions } => {
                lemma_with_sessions(q.suspended, q.persisted, sessions, sessions.len() as int);
            },
        }
    }
}

proof fn lemma_with_sessions(
    a: Map<Seq<char>, Seq<char>>,
    b: Map<Seq<char>, Seq<char>>,
    sessions: Seq<(String, String)>,
    n: int,
)
    requires
        a.submap_of(b),
    ensures
        with_sessions(a, sessions, n).submap_of(with_sessions(b, sessions, n)),
    decreases n,
{
    if n > 0 {
        lemma_with_sessions(a, b, sessions, n - 1);
    }
}

/// The sessions that a restarted program finds: those that survived, all suspended.
pub open spec fn restarted(p: Pool) -> Pool {
    Pool {
        active: Map::empty(),
        cancel: Map::empty(),
        suspended: p.persisted,
        creating: Map::empty(),
        ..p
    }
}

/// A program that stops at any time finds every session again: after a restart each
/// thread that had a session, active or suspended, can resume that session, and works
/// in the same directory.
pub proof fn law_restart_recovers_sessions(p: Pool, thread: Seq<char>)
    requires
        pool_ok(p),
    ensures
        pool_ok(restarted(p)),
        p.cancel.contains_key(thread) ==> restarted(p).suspended.contains_key(thread)
            && restarted(p).suspended[thread] == p.cancel[thread],
        p.suspended.contains_key(thread) ==> restarted(p).suspended.contains_key(thread)
            && restarted(p).suspended[thread] == p.suspended[thread],
        restarted(p).workdirs == p.workdirs,
{
}

proof fn lemma_without_stale_keeps_ok(
    p: Pool,
    probes: Seq<ConnectionProbe>,
    cutoff: u128,
    n: int,
)
    requires
        pool_ok(p),
    ensures
        pool_ok(without_stale(p, probes, cutoff, n)),
        without_stale(p, probes, cutoff, n).workdirs == p.workdirs,
        without_stale(p, probes, cutoff, n).max_sessions == p.max_sessions,
    decreases n,
{
    if n > 0 {
        lemma_without_stale_keeps_ok(p, probes, cutoff, n - 1);
        let q = without_stale(p, probes, cutoff, n - 1);
        let probe = probes[n - 1];
        if is_stale(probe, cutoff) {
            lemma_suspend_keeps_ok(
                q,
                probe.key@,
                probe.handle,
                opt_text(probe.idle->0.session_id),
            );
        }
    }
}

/// Whether a thread is in the same state in both pools: its connection, what can be
/// cancelled of it, and the session that it can resume now and after a restart.
pub open spec fn same_thread(p: Pool, q: Pool, k: Seq<char>) -> bool {
    &&& p.active.contains_key(k) == q.active.contains_key(k)
    &&& p.active.contains_key(k) ==> p.active[k] == q.active[k]
    &&& p.cancel.contains_key(k) == q.cancel.contains_key(k)
    &&& p.cancel.contains_key(k) ==> p.cancel[k] == q.cancel[k]
    &&& p.suspended.contains_key(k) == q.suspended.contains_key(k)
    &&& p.suspended.contains_key(k) ==> p.suspended[k] == q.suspended[k]
    &&& p.persisted.contains_key(k) == q.persisted.contains_key(k)
    &&& p.persisted.contains_key(k) ==> p.persisted[k] == q.persisted[k]
}

/// Whether a thread has no connection and can resume exactly the session `session`, now
/// and after a restart.
pub open spec fn resumes(p: Pool, k: Seq<char>, session: Seq<char>) -> bool {
    &&& !p.active.contains_key(k)
    &&& !p.cancel.contains_key(k)
    &&& p.suspended.contains_key(k) && p.suspended[k] == session
    &&& p.persisted.contains_key(k) && p.persisted[k] == session
}

/// Whether a probe found a connection idle that is unused since before `cutoff` or dead,
/// and it is still the connection of its thread.
pub open spec fn to_be_closed(p: Pool, probe: ConnectionProbe, cutoff: u128) -> bool {
    &&& probe.idle matches Some(idle) && (idle.last_active < cutoff || !idle.alive)
    &&& p.active.contains_key(probe.key@) && p.active[probe.key@] == probe.handle
}

/// Cleaning up leaves every thread alone whose connection is in use, or recently used
/// and alive, or was replaced since it was looked at.
pub proof fn law_cleanup_leaves_others(
    p: Pool,
    probes: Seq<ConnectionProbe>,
    cutoff: u128,
    n: int,
    k: Seq<char>,
)
    requires
        n <= probes.len(),
        forall|j: int|
            0 <= j < n && (#[trigger] probes[j]).key@ == k ==> !to_be_closed(p, probes[j], cutoff),
    ensures
        same_thread(p, without_stale(p, probes, cutoff, n), k),
        without_stale(p, probes, cutoff, n).workdirs == p.workdirs,
        without_stale(p, probes, cutoff, n).creating == p.creating,
    decreases n,
{
    if n > 0 {
        law_cleanup_leaves_others(p, probes, cutoff, n - 1, k);
        assert(probes[n - 1].key@ == k ==> !to_be_closed(p, probes[n - 1], cutoff));
    }
}

/// Cleaning up never loses a session: a thread whose connection is unused since before
/// the cutoff, or dead, can resume the session that the connection had.
pub proof fn law_cleanup_keeps_sessions(
    p: Pool,
    probes: Seq<ConnectionProbe>,
    cutoff: u128,
    i: int,
)
    requires
        0 <= i < probes.len(),
        forall|a: int, b: int|
            0 <= a < b < probes.len() ==> (#[trigger] probes[a]).key@ != (
            #[trigger] probes[b]).key@,
        to_be_closed(p, probes[i], cutoff),
        probes[i].idle->0.session_id is Some,
    ensures
        resumes(
            without_stale(p, probes, cutoff, probes.len() as int),
            probes[i].key@,
            probes[i].idle->0.session_id->0@,
        ),
{
    lemma_cleanup_closes(p, probes, cutoff, i, probes.len() as int);
}

proof fn lemma_cleanup_closes(
    p: Pool,
    probes: Seq<ConnectionProbe>,
    cutoff: u128,
    i: int,
    n: int,
)
    requires
        0 <= i < n <= probes.len(),
        forall|a: int, b: int|
            0 <= a < b < probes.len() ==> (#[trigger] probes[a]).key@ != (
            #[trigger] probes[b]).key@,
        to_be_closed(p, probes[i], cutoff),
    ensures
        ({
            let q = without_stale(p, probes, cutoff, n);
            let k = probes[i].key@;
            &&& probes[i].idle->0.session_id matches Some(s) ==> resumes(q, k, s@)
            &&& probes[i].idle->0.session_id is None ==> !q.active.contains_key(k)
                && !q.cancel.contains_key(k) && !q.persisted.contains_key(k)
        }),
    decreases n,
{
    let k = probes[i].key@;
    if n == i + 1 {
        assert forall|j: int| 0 <= j < i implies (#[trigger] probes[j]).key@ != k by {
            assert(probes[j].key@ != probes[i].key@);
        }
        law_cleanup_leaves_others(p, probes, cutoff, i, k);
    } else {
        lemma_cleanup_closes(p, probes, cutoff, i, n - 1);
        assert(probes[i].key@ != probes[n - 1].key@);
    }
}

/// A connection that is closed without a known session leaves nothing to resume after a
/// restart.
pub proof fn law_cleanup_of_unknown_session(
    p: Pool,
    probes: Seq<ConnectionProbe>,
    cutoff: u128,
    i: int,
)
    requires
        0 <= i < probes.len(),
        forall|a: int, b: int|
            0 <= a < b < probes.len() ==> (#[trigger] probes[a]).key@ != (
            #[trigger] probes[b]).key@,
        to_be_closed(p, probes[i], cutoff),
        probes[i].idle->0.session_id is None,
    ensures
        ({
            let q = without_stale(p, probes, cutoff, probes.len() as int);
            let k = probes[i].key@;
            !q.active.contains_key(k) && !q.cancel.contains_key(k) && !q.persisted.contains_key(k)
        }),
{
    lemma_cleanup_closes(p, probes, cutoff, i, probes.len() as int);
}

/// Whether a thread has the connection `handle`; a session that is not empty can be
/// cancelled and resumed after a restart, and none is left suspended.
pub open spec fn connected(p: Pool, k: Seq<char>, handle: u64, session: Seq<char>) -> bool {
    &&& p.active.contains_key(k) && p.active[k] == handle
    &&& !p.suspended.contains_key(k)
    &&& session.len() > 0 ==> p.cancel.contains_key(k) && p.cancel[k] == session
        && p.persisted.contains_key(k) && p.persisted[k] == session
    &&& session.len() == 0 ==> !p.cancel.contains_key(k) && !p.persisted.contains_key(k)
}

/// A thread that has got a connection meanwhile, in use or alive, keeps it.
pub proof fn law_commit_yields_to_live_connection(
    p: Pool,
    thread: Seq<char>,
    handle: u64,
    session: Seq<char>,
    current: CurrentConnection,
    candidate: Option<ConnectionProbe>,
)
    requires
        p.active.contains_key(thread),
        current == CurrentConnection::Busy || current == CurrentConnection::Alive,
    ensures
        commit(p, thread, handle, session, current, candidate) == p,
{
}

/// Where there is room, a thread without a live connection gets the new one with its
/// session, and no other thread is touched.
pub proof fn law_commit_with_room(
    p: Pool,
    thread: Seq<char>,
    handle: u64,
    session: Seq<char>,
    current: CurrentConnection,
    candidate: Option<ConnectionProbe>,
    other: Seq<char>,
)
    requires
        pool_ok(p),
        !p.active.contains_key(thread) || current == CurrentConnection::Dead,
        p.active.remove(thread).len() < p.max_sessions,
        other != thread,
    ensures
        ({
            let q = commit(p, thread, handle, session, current, candidate);
            &&& connected(q, thread, handle, session)
            &&& same_thread(p, q, other)
            &&& q.workdirs == p.workdirs
        }),
{
    assert(!p.active.contains_key(thread) ==> p.active.remove(thread) =~= p.active);
    assert(!p.active.dom().contains(thread) ==> !p.cancel.dom().contains(thread));
}

/// A full pool gives up the connection that was chosen, if it is still the one of its
/// thread: that thread can resume its session, the new one is connected, and no other
/// thread is touched.
pub proof fn law_full_pool_makes_room(
    p: Pool,
    thread: Seq<char>,
    handle: u64,
    session: Seq<char>,
    current: CurrentConnection,
    c: ConnectionProbe,
    other: Seq<char>,
)
    requires
        pool_ok(p),
        !p.active.contains_key(thread) || current == CurrentConnection::Dead,
        p.active.remove(thread).len() >= p.max_sessions,
        p.max_sessions > 0,
        c.idle is Some,
        c.key@ != thread,
        p.active.contains_key(c.key@) && p.active[c.key@] == c.handle,
        other != thread,
        other != c.key@,
    ensures
        ({
            let q = commit(p, thread, handle, session, current, Some(c));
            &&& connected(q, thread, handle, session)
            &&& c.idle->0.session_id matches Some(s) ==> resumes(q, c.key@, s@)
            &&& c.idle->0.session_id is None ==> !q.active.contains_key(c.key@)
            &&& same_thread(p, q, other)
            &&& q.workdirs == p.workdirs
        }),
{
    assert(!p.active.contains_key(thread) ==> p.active.remove(thread) =~= p.active);
    assert(!p.active.dom().contains(thread) ==> !p.cancel.dom().contains(thread));
    let d = drop_stale(p, thread);
    lemma_drop_stale_keeps_ok(p, thread);
    assert(d.active.remove(c.key@).dom() =~= d.active.dom().remove(c.key@));
    assert(d.active.len() <= d.max_sessions);
}

/// A full pool without a connection to give up takes no new one: all other threads keep
/// theirs.
pub proof fn law_exhausted_pool_keeps_connections(
    p: Pool,
    thread: Seq<char>,
    handle: u64,
    session: Seq<char>,
    current: CurrentConnection,
    candidate: Option<ConnectionProbe>,
    other: Seq<char>,
)
    requires
        pool_ok(p),
        !p.active.contains_key(thread) || current == CurrentConnection::Dead,
        p.active.remove(thread).len() >= p.max_sessions,
        candidate matches Some(c) ==> c.idle is None || !p.active.contains_key(c.key@)
            || p.active[c.key@] != c.handle,
        other != thread,
    ensures
        ({
            let q = commit(p, thread, handle, session, current, candidate);
            &&& !q.active.contains_key(thread)
            &&& same_thread(p, q, other)
            &&& q.persisted == p.persisted && q.suspended == p.suspended
        }),
{
    assert(!p.active.contains_key(thread) ==> p.active.remove(thread) =~= p.active);
}

/// The connection that is given up is idle, belongs to another thread and has been
/// unused for at least as long as every other such connection.
pub proof fn law_eviction_takes_the_oldest(
    probes: Seq<ConnectionProbe>,
    thread: Seq<char>,
    i: int,
    j: int,
)
    requires
        is_oldest(probes, thread, i),
        0 <= j < probes.len(),
        probes[j].key@ != thread,
        probes[j].idle is Some,
    ensures
        0 <= i < probes.len(),
        probes[i].key@ != thread,
        probes[i].idle is Some,
        probes[i].idle->0.last_active <= probes[j].idle->0.last_active,
        j < i ==> probes[i].idle->0.last_active < probes[j].idle->0.last_active,
{
    assert(evictable(probes[j], thread));
}

/// Where another thread has an idle connection there is one to give up.
pub proof fn law_idle_connection_can_be_evicted(probe: ConnectionProbe, thread: Seq<char>)
    ensures
        evictable(probe, thread) <==> probe.key@ != thread && probe.idle is Some,
{
}

/// A reset touches no other thread.
pub proof fn law_reset_leaves_others(p: Pool, thread: Seq<char>, other: Seq<char>)
    requires
        other != thread,
    ensures
        same_thread(p, forget(p, thread), other),
        forget(p, thread).creating.contains_key(other) == p.creating.contains_key(other),
{
}

proof fn lemma_session_kept(
    m: Map<Seq<char>, Seq<char>>,
    sessions: Seq<(String, String)>,
    n: int,
    k: Seq<char>,
)
    requires
        n <= sessions.len(),
        forall|j: int| 0 <= j < n ==> (#[trigger] sessions[j]).0@ != k,
    ensures
        with_sessions(m, sessions, n).contains_key(k) == m.contains_key(k),
        m.contains_key(k) ==> with_sessions(m, sessions, n)[k] == m[k],
    decreases n,
{
    if n > 0 {
        lemma_session_kept(m, sessions, n - 1, k);
        assert(sessions[n - 1].0@ != k);
    }
}

proof fn lemma_session_listed(
    m: Map<Seq<char>, Seq<char>>,
    sessions: Seq<(String, String)>,
    n: int,
    i: int,
)
    requires
        0 <= i < n <= sessions.len(),
        forall|j: int| i < j < n ==> (#[trigger] sessions[j]).0@ != sessions[i].0@,
    ensures
        with_sessions(m, sessions, n).contains_key(sessions[i].0@),
        with_sessions(m, sessions, n)[sessions[i].0@] == sessions[i].1@,
    decreases n,
{
    if n > i + 1 {
        lemma_session_listed(m, sessions, n - 1, i);
        assert(sessions[n - 1].0@ != sessions[i].0@);
    }
}

/// Shutting down closes every connection and keeps every session: a thread that had one
/// can resume it, and what was suspended before stays so.
pub proof fn law_shutdown_keeps_sessions(
    p: Pool,
    sessions: Seq<(String, String)>,
    i: int,
    other: Seq<char>,
)
    requires
        0 <= i < sessions.len(),
        forall|j: int| i < j < sessions.len() ==> (#[trigger] sessions[j]).0@ != sessions[i].0@,
        forall|j: int| 0 <= j < sessions.len() ==> (#[trigger] sessions[j]).0@ != other,
    ensures
        ({
            let q = closed_pool(p, sessions);
            &&& q.active.len() == 0
            &&& resumes(q, sessions[i].0@, sessions[i].1@)
            &&& q.suspended.contains_key(other) == p.suspended.contains_key(other)
            &&& p.suspended.contains_key(other) ==> q.suspended[other] == p.suspended[other]
            &&& q.persisted.contains_key(other) == p.persisted.contains_key(other)
            &&& p.persisted.contains_key(other) ==> q.persisted[other] == p.persisted[other]
            &&& q.workdirs == p.workdirs
        }),
{
    let n = sessions.len() as int;
    lemma_session_listed(p.suspended, sessions, n, i);
    lemma_session_listed(p.persisted, sessions, n, i);
    lemma_session_kept(p.suspended, sessions, n, other);
    lemma_session_kept(p.persisted, sessions, n, other);
}

/// The request that stops a session is one JSON object that names it.
pub proof fn law_cancel_request_names_session(session: Seq<char>)
    ensures
        cancel_line(session)
            == "{\"jsonrpc\":\"2.0\",\"method\":\"session/cancel\",\"params\":{\"sessionId\":"@
            + json_quoted(session) + "}}"@,
{
}

} // verus!
