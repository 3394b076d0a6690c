//! The steps by which a thread gets a connection to an agent.

use vstd::prelude::*;

use crate::acp::pool::{
    choose_eviction, commit, drop_stale, evictable, is_oldest, pool_ok, superseded,
    ConnectionProbe, CurrentConnection, IdleConnection, Pool, SessionPool,
};
use crate::text::{copy_opt, decimal, opt_text};

verus! {

/// What is to be done next.
#[derive(Debug)]
pub enum SetupAction {
    /// Wait for this connection and look at it.
    ProbeExisting(u64),
    /// Look at all connections that are not in use.
    ScanConnections,
    /// Start an agent in the thread's directory.
    Spawn,
    /// Have the agent resume this session.
    LoadSession(String),
    /// Have the agent begin a session.
    NewSession,
    /// Hand the connection to the pool; `reset` if the user is to be told that the
    /// session was lost.
    Commit { reset: bool },
    /// The thread has a connection.
    Done,
    /// The thread has none, for this reason.
    Failed(String),
}

/// What such an action says.
pub enum Action {
    ProbeExisting(u64),
    ScanConnections,
    Spawn,
    LoadSession(Seq<char>),
    NewSession,
    Commit(bool),
    Done,
    Failed(Seq<char>),
}

impl View for SetupAction {
    type V = Action;

    open spec fn view(&self) -> Action {
        match self {
            SetupAction::ProbeExisting(h) => Action::ProbeExisting(*h),
            SetupAction::ScanConnections => Action::ScanConnections,
            SetupAction::Spawn => Action::Spawn,
            SetupAction::LoadSession(s) => Action::LoadSession(s@),
            SetupAction::NewSession => Action::NewSession,
            SetupAction::Commit { reset } => Action::Commit(*reset),
            SetupAction::Done => Action::Done,
            SetupAction::Failed(e) => Action::Failed(e@),
        }
    }
}

/// What came of an action.
#[derive(Debug)]
pub enum SetupAnswer {
    /// Of the thread's connection: whether it is alive, and its session.
    Existing { alive: bool, session_id: Option<String> },
    /// Of all connections.
    Connections(Vec<ConnectionProbe>),
    /// Of starting an agent: whether it can resume sessions.
    Spawned(Result<bool, String>),
    /// Of resuming a session.
    Loaded(bool),
    /// Of beginning a session.
    Created(Result<(), String>),
}

/// How far the setup has come.
#[derive(Clone, Copy, Debug, PartialEq, Eq, Structural)]
pub enum SetupPhase {
    Existing,
    Scanning,
    Spawning,
    Loading,
    Creating,
    Committing,
    Ended,
}

/// The setup of one thread's connection.
#[derive(Debug)]
pub struct SessionSetup {
    thread: String,
    phase: SetupPhase,
    /// Whether the thread had a connection, which is dead.
    had_connection: bool,
    /// The session to resume.
    saved: Option<String>,
    /// The connection to evict from a full pool.
    candidate: Option<ConnectionProbe>,
}

/// What such a setup says.
pub struct Setup {
    pub thread: Seq<char>,
    pub phase: SetupPhase,
    pub had_connection: bool,
    pub saved: Option<Seq<char>>,
    pub candidate: Option<Candidate>,
}

/// A connection that may be evicted.
pub struct Candidate {
    pub key: Seq<char>,
    pub handle: u64,
    pub session: Option<Seq<char>>,
}

/// The connection that a probe found.
pub open spec fn candidate_of(c: ConnectionProbe) -> Candidate {
    Candidate {
        key: c.key@,
        handle: c.handle,
        session: match c.idle {
            Some(i) => opt_text(i.session_id),
            None => None,
        },
    }
}

impl View for SessionSetup {
    type V = Setup;

    closed spec fn view(&self) -> Setup {
        Setup {
            thread: self.thread@,
            phase: self.phase,
            had_connection: self.had_connection,
            saved: opt_text(self.saved),
            candidate: match self.candidate {
                Some(c) => Some(candidate_of(c)),
                None => None,
            },
        }
    }
}

/// The session to resume for a thread: a suspended one, else that of its dead
/// connection.
pub open spec fn resumable(p: Pool, thread: Seq<char>, stale: Option<Seq<char>>) -> Option<
    Seq<char>,
> {
    if p.suspended.contains_key(thread) {
        Some(p.suspended[thread])
    } else {
        stale
    }
}

/// A setup at its start: a thread that has a connection has it looked at first.
pub open spec fn setup_start(p: Pool, thread: Seq<char>) -> (Setup, Action) {
    let s = Setup {
        thread,
        phase: SetupPhase::Scanning,
        had_connection: false,
        saved: resumable(p, thread, None),
        candidate: None,
    };
    if p.active.contains_key(thread) {
        (
            Setup { phase: SetupPhase::Existing, had_connection: true, ..s },
            Action::ProbeExisting(p.active[thread]),
        )
    } else {
        (s, Action::ScanConnections)
    }
}

/// Whether an answer is one to the phase of a setup.
pub open spec fn expects(phase: SetupPhase, a: SetupAnswer) -> bool {
    match a {
        SetupAnswer::Existing { .. } => phase == SetupPhase::Existing,
        SetupAnswer::Connections(_) => phase == SetupPhase::Scanning,
        SetupAnswer::Spawned(_) => phase == SetupPhase::Spawning,
        SetupAnswer::Loaded(_) => phase == SetupPhase::Loading,
        SetupAnswer::Created(_) => phase == SetupPhase::Creating,
    }
}

/// Whether `c` is the connection to evict among those looked at.
pub open spec fn is_candidate(
    probes: Seq<ConnectionProbe>,
    thread: Seq<char>,
    c: Option<Candidate>,
) -> bool {
    match c {
        Some(x) => exists|i: int|
            #[trigger] is_oldest(probes, thread, i) && x == candidate_of(probes[i]),
        None => forall|i: int| 0 <= i < probes.len() ==> !evictable(#[trigger] probes[i], thread),
    }
}

/// The setup after an answer, and what is to be done. The connection to evict comes
/// as `c`.
pub open spec fn setup_after(p: Pool, s: Setup, a: SetupAnswer, c: Option<Candidate>) -> (
    Setup,
    Action,
) {
    match a {
        SetupAnswer::Existing { alive, session_id } => if alive {
            (Setup { phase: SetupPhase::Ended, ..s }, Action::Done)
        } else {
            (
                Setup {
                    phase: SetupPhase::Scanning,
                    saved: match s.saved {
                        Some(x) => Some(x),
                        None => opt_text(session_id),
                    },
                    ..s
                },
                Action::ScanConnections,
            )
        },
        SetupAnswer::Connections(_) => (
            Setup { phase: SetupPhase::Spawning, candidate: c, ..s },
            Action::Spawn,
        ),
        SetupAnswer::Spawned(r) => match r {
            Err(e) => (Setup { phase: SetupPhase::Ended, ..s }, Action::Failed(e@)),
            Ok(supports_load) => if s.saved is Some && supports_load {
                (
                    Setup { phase: SetupPhase::Loading, ..s },
                    Action::LoadSession(s.saved->0),
                )
            } else {
                (Setup { phase: SetupPhase::Creating, ..s }, Action::NewSession)
            },
        },
        SetupAnswer::Loaded(ok) => if ok {
            (Setup { phase: SetupPhase::Committing, ..s }, Action::Commit(false))
        } else {
            (Setup { phase: SetupPhase::Creating, ..s }, Action::NewSession)
        },
        SetupAnswer::Created(r) => match r {
            Err(e) => (Setup { phase: SetupPhase::Ended, ..s }, Action::Failed(e@)),
            Ok(()) => (
                Setup { phase: SetupPhase::Committing, ..s },
                Action::Commit(s.had_connection || s.saved is Some),
            ),
        },
    }
}

/// A copy of what a probe found.
fn copy_probe(c: &ConnectionProbe) -> (r: ConnectionProbe)
    ensures
        candidate_of(r) == candidate_of(*c),
        r.idle is Some == c.idle is Some,
{
    ConnectionProbe {
        key: c.key.clone(),
        handle: c.handle,
        idle: match &c.idle {
            Some(i) => Some(
                IdleConnection {
                    last_active: i.last_active,
                    alive: i.alive,
                    session_id: copy_opt(&i.session_id),
                },
            ),
            None => None,
        },
    }
}

/// The pool after a connection is handed over: `candidate` is suspended first where
/// the pool is full.
pub open spec fn handed(
    p: Pool,
    s: Setup,
    handle: u64,
    session: Seq<char>,
    current: CurrentConnection,
) -> Pool {
    if superseded(p, s.thread, current) {
        p
    } else {
        let q = drop_stale(p, s.thread);
        let r = if q.active.len() >= q.max_sessions && s.candidate is Some {
            let c = s.candidate->0;
            crate::acp::pool::suspend_if_same(q, c.key, c.handle, c.session)
        } else {
            q
        };
        if r.active.len() >= r.max_sessions {
            r
        } else {
            crate::acp::pool::install(r, s.thread, handle, session)
        }
    }
}

impl SessionSetup {
    /// The candidate was found idle.
    pub closed spec fn ok(&self) -> bool {
        self.candidate is Some ==> self.candidate->0.idle is Some
    }

    /// Begins the setup of a thread's connection.
    pub fn start(pool: &SessionPool, thread: &str) -> (r: (Self, SetupAction))
        ensures
            (r.0@, r.1@) == setup_start(pool@, thread@),
            r.0.ok(),
    {
        let saved = pool.session_to_resume(thread, None);
        let mut setup = SessionSetup {
            thread: thread.to_string(),
            phase: SetupPhase::Scanning,
            had_connection: false,
            saved,
            candidate: None,
        };
        match pool.connection(thread) {
            Ok(h) => {
                setup.phase = SetupPhase::Existing;
                setup.had_connection = true;
                (setup, SetupAction::ProbeExisting(h))
            },
            Err(_) => (setup, SetupAction::ScanConnections),
        }
    }

    /// Takes the answer to the last action.
    pub fn answer(&mut self, pool: &SessionPool, a: SetupAnswer) -> (action: SetupAction)
        requires
            old(self).ok(),
            expects(old(self)@.phase, a),
        ensures
            final(self).ok(),
            exists|c: Option<Candidate>|
                {
                    &&& (final(self)@, action@) == #[trigger] setup_after(
                        pool@,
                        old(self)@,
                        a,
                        c,
                    )
                    &&& a matches SetupAnswer::Connections(probes) ==> is_candidate(
                        probes@,
                        old(self)@.thread,
                        c,
                    )
                },
    {
        let ghost s = self@;
        match a {
            SetupAnswer::Existing { alive, session_id } => {
                let action = if alive {
                    self.phase = SetupPhase::Ended;
                    SetupAction::Done
                } else {
                    if self.saved.is_none() {
                        self.saved = session_id;
                    }
                    self.phase = SetupPhase::Scanning;
                    SetupAction::ScanConnections
                };
                assert((self@, action@) == setup_after(pool@, s, a, None));
                action
            },
            SetupAnswer::Connections(probes) => {
                self.candidate = match choose_eviction(self.thread.as_str(), probes.as_slice()) {
                    Some(i) => {
                        assert(is_oldest(probes@, s.thread, i as int));
                        Some(copy_probe(&probes[i]))
                    },
                    None => None,
                };
                self.phase = SetupPhase::Spawning;
                assert((self@, Action::Spawn) == setup_after(pool@, s, a, self@.candidate));
                SetupAction::Spawn
            },
            SetupAnswer::Spawned(r) => {
                let action = match r {
                    Err(e) => {
                        self.phase = SetupPhase::Ended;
                        SetupAction::Failed(e)
                    },
                    Ok(supports_load) => match &self.saved {
                        Some(session) if SessionPool::loads_session(
                            &self.saved,
                            supports_load,
                        ) => {
                            let session = session.clone();
                            self.phase = SetupPhase::Loading;
                            SetupAction::LoadSession(session)
                        },
                        _ => {
                            self.phase = SetupPhase::Creating;
                            SetupAction::NewSession
                        },
                    },
                };
                assert((self@, action@) == setup_after(pool@, s, a, None));
                action
            },
            SetupAnswer::Loaded(ok) => {
                let action = if ok {
                    self.phase = SetupPhase::Committing;
                    SetupAction::Commit { reset: false }
                } else {
                    self.phase = SetupPhase::Creating;
                    SetupAction::NewSession
                };
                assert((self@, action@) == setup_after(pool@, s, a, None));
                action
            },
            SetupAnswer::Created(r) => {
                let action = match r {
                    Err(e) => {
                        self.phase = SetupPhase::Ended;
                        SetupAction::Failed(e)
                    },
                    Ok(()) => {
                        self.phase = SetupPhase::Committing;
                        SetupAction::Commit {
                            reset: SessionPool::session_was_lost(
                                false,
                                self.had_connection,
                                &self.saved,
                            ),
                        }
                    },
                };
                assert((self@, action@) == setup_after(pool@, s, a, None));
                action
            },
        }
    }

    /// Hands the new connection `handle` to the pool, where `current` tells how the
    /// thread's connection was found, if it has one: `Ok(true)` if the thread now has
    /// the new connection, `Ok(false)` if it had got another one meanwhile.
    pub fn commit(
        self,
        pool: &mut SessionPool,
        handle: u64,
        session: &str,
        current: CurrentConnection,
    ) -> (r: Result<bool, String>)
        requires
            self.ok(),
            pool_ok(old(pool)@),
        ensures
            final(pool)@ == handed(old(pool)@, self@, handle, session@, current),
            final(pool).settings() == old(pool).settings(),
            pool_ok(final(pool)@),
            match r {
                Ok(installed) => installed == !superseded(
                    old(pool)@,
                    self@.thread,
                    current,
                ) && (installed ==> final(pool)@.active.contains_key(self@.thread)
                    && final(pool)@.active[self@.thread] == handle),
                Err(e) => {
                    &&& !superseded(old(pool)@, self@.thread, current)
                    &&& final(pool)@.active.len() >= old(pool)@.max_sessions
                    &&& e@ == "pool exhausted ("@ + decimal(old(pool)@.max_sessions as nat)
                        + " sessions)"@
                },
            },
    {
        pool.commit(self.thread.as_str(), handle, session, current, &self.candidate)
    }
}

/// A lost session is announced exactly where the thread had a connection or a
/// session to resume, and a resumed one never is.
pub proof fn law_lost_session_is_announced(p: Pool, s: Setup, a: SetupAnswer, c: Option<Candidate>)
    requires
        expects(s.phase, a),
    ensures
        setup_after(p, s, a, c).1 matches Action::Commit(reset) ==> reset == (s.phase
            == SetupPhase::Creating && (s.had_connection || s.saved is Some)),
{
}

/// A connection that is alive is kept: nothing is started or evicted.
pub proof fn law_live_connection_is_kept(
    p: Pool,
    s: Setup,
    session_id: Option<String>,
    c: Option<Candidate>,
)
    ensures
        setup_after(p, s, SetupAnswer::Existing { alive: true, session_id }, c).1 == Action::Done,
{
}

/// The thread's own connection is never the one that is evicted for it.
pub proof fn law_own_connection_is_not_evicted(
    probes: Seq<ConnectionProbe>,
    thread: Seq<char>,
    c: Candidate,
)
    requires
        is_candidate(probes, thread, Some(c)),
    ensures
        c.key != thread,
{
}

/// A thread that has a connection has it looked at before anything else; the session to
/// resume is the suspended one, if there is one.
pub proof fn law_setup_begins(p: Pool, thread: Seq<char>)
    ensures
        ({
            let (s, a) = setup_start(p, thread);
            &&& s.thread == thread
            &&& p.active.contains_key(thread) ==> a == Action::ProbeExisting(p.active[thread])
                && s.had_connection && s.phase == SetupPhase::Existing
            &&& !p.active.contains_key(thread) ==> a == Action::ScanConnections
                && !s.had_connection && s.phase == SetupPhase::Scanning
            &&& p.suspended.contains_key(thread) ==> s.saved == Some(p.suspended[thread])
            &&& !p.suspended.contains_key(thread) ==> s.saved is None
        }),
{
}

/// A dead connection is replaced; its session is resumed where none is suspended, and a
/// suspended one comes first.
pub proof fn law_dead_connection_is_replaced(
    p: Pool,
    s: Setup,
    session_id: Option<String>,
    c: Option<Candidate>,
)
    ensures
        ({
            let (t, a) = setup_after(
                p,
                s,
                SetupAnswer::Existing { alive: false, session_id },
                c,
            );
            &&& a == Action::ScanConnections && t.phase == SetupPhase::Scanning
            &&& s.saved is Some ==> t.saved == s.saved
            &&& s.saved is None && session_id is Some ==> t.saved == Some(session_id->0@)
            &&& s.saved is None && session_id is None ==> t.saved is None
            &&& t.thread == s.thread && t.had_connection == s.had_connection
        }),
{
}

/// After the scan an agent is started, whatever was found; what was found to evict is
/// remembered.
pub proof fn law_scan_leads_to_spawn(
    p: Pool,
    s: Setup,
    probes: Vec<ConnectionProbe>,
    c: Option<Candidate>,
)
    ensures
        ({
            let (t, a) = setup_after(p, s, SetupAnswer::Connections(probes), c);
            &&& a == Action::Spawn && t.phase == SetupPhase::Spawning
            &&& t.candidate == c && t.saved == s.saved && t.thread == s.thread
            &&& t.had_connection == s.had_connection
        }),
{
}

/// A session that can be resumed is resumed wherever the agent is able to; otherwise, and
/// where resuming fails, a new one is begun. Only an agent that does not start, or does
/// not begin a session, makes the setup fail.
pub proof fn law_session_is_resumed_where_possible(
    p: Pool,
    s: Setup,
    able: bool,
    e: String,
    c: Option<Candidate>,
)
    ensures
        s.saved is Some && able ==> setup_after(p, s, SetupAnswer::Spawned(Ok(able)), c).1
            == Action::LoadSession(s.saved->0),
        s.saved is None || !able ==> setup_after(p, s, SetupAnswer::Spawned(Ok(able)), c).1
            == Action::NewSession,
        setup_after(p, s, SetupAnswer::Spawned(Err(e)), c).1 == Action::Failed(e@),
        setup_after(p, s, SetupAnswer::Loaded(true), c).1 == Action::Commit(false),
        setup_after(p, s, SetupAnswer::Loaded(false), c).1 == Action::NewSession,
        setup_after(p, s, SetupAnswer::Created(Ok(())), c).1 == Action::Commit(
            s.had_connection || s.saved is Some,
        ),
        setup_after(p, s, SetupAnswer::Created(Err(e)), c).1 == Action::Failed(e@),
        ({
            let t = setup_after(p, s, SetupAnswer::Spawned(Ok(able)), c).0;
            t == Setup { phase: t.phase, ..s } && t.phase == (if s.saved is Some && able {
                SetupPhase::Loading
            } else {
                SetupPhase::Creating
            })
        }),
        ({
            let t = setup_after(p, s, SetupAnswer::Loaded(able), c).0;
            t == Setup { phase: t.phase, ..s } && t.phase == (if able {
                SetupPhase::Committing
            } else {
                SetupPhase::Creating
            })
        }),
        setup_after(p, s, SetupAnswer::Created(Ok(())), c).0 == (Setup {
            phase: SetupPhase::Committing,
            ..s
        }),
{
}

/// What is remembered to be evicted is a connection of another thread that was found
/// idle, and none that was found idle has been unused for longer.
pub proof fn law_candidate_is_the_oldest(
    probes: Seq<ConnectionProbe>,
    thread: Seq<char>,
    c: Option<Candidate>,
    j: int,
)
    requires
        is_candidate(probes, thread, c),
        0 <= j < probes.len(),
        probes[j].key@ != thread,
        probes[j].idle is Some,
    ensures
        c is Some,
        exists|i: int|
            {
                &&& 0 <= i < probes.len()
                &&& (#[trigger] probes[i]).key@ == c->0.key && probes[i].handle == c->0.handle
                &&& c->0.key != thread
                &&& probes[i].idle is Some
                &&& opt_text(probes[i].idle->0.session_id) == c->0.session
                &&& probes[i].idle->0.last_active <= probes[j].idle->0.last_active
            },
{
    assert(evictable(probes[j], thread));
    let i = choose|i: int|
        #[trigger] is_oldest(probes, thread, i) && c->0 == candidate_of(probes[i]);
    assert(probes[i].idle->0.last_active <= probes[j].idle->0.last_active);
}

/// Handing a connection over is what the pool does with it, with the connection that was
/// found to be evicted.
pub proof fn law_handover_evicts_the_candidate(
    p: Pool,
    s: Setup,
    c: ConnectionProbe,
    handle: u64,
    session: Seq<char>,
    current: CurrentConnection,
)
    requires
        c.idle is Some,
    ensures
        s.candidate == Some(candidate_of(c)) ==> handed(p, s, handle, session, current) == commit(
            p,
            s.thread,
            handle,
            session,
            current,
            Some(c),
        ),
        s.candidate is None ==> handed(p, s, handle, session, current) == commit(
            p,
            s.thread,
            handle,
            session,
            current,
            None,
        ),
{
}

} // verus!
