//! The steps by which a thread's working directory is found, checked and bound.

use vstd::prelude::*;

use crate::acp::pool::{pool_ok, Pool, PoolSettings, SessionPool};
use crate::acp::workdir::{
    already_bound, bind, plan_result, unshared_dir, workdir_plan, Plan, WorkdirPlan,
};
use crate::acp::workspace::{
    existing_workspace, facts_match, first_existing, persisted_workdir, requested_workspace,
    requested_workspace_path, workspace_name, PathFacts, Step, WorkspaceFacts,
    WorkspaceStep,
};
use crate::config::{Workspace, WorkspaceRequest};
use crate::paths::{is_under, path_join};

verus! {

/// What is to be done next.
#[derive(Debug)]
pub enum WorkdirAction {
    /// Look at this directory, which the thread or another agent was bound to, and
    /// resolve the workspace root.
    ProbePath(String),
    /// Look at this requested directory and those above it, and resolve the
    /// workspace root.
    ProbeWorkspace(String),
    /// Create this directory and those above it.
    CreateDir(String),
    /// Look up the binding that other agents share.
    LookupShared,
    /// Record this workspace and its directory for other agents.
    RecordShared { name: String, cwd: String },
    /// Create the thread's own directory.
    CreateThreadDir(String),
    /// The thread works here.
    Done(String),
    /// The thread cannot work, for this reason.
    Failed(String),
}

/// What such an action says.
pub enum Action {
    ProbePath(Seq<char>),
    ProbeWorkspace(Seq<char>),
    CreateDir(Seq<char>),
    LookupShared,
    RecordShared(Seq<char>, Seq<char>),
    CreateThreadDir(Seq<char>),
    Done(Seq<char>),
    Failed(Seq<char>),
}

impl View for WorkdirAction {
    type V = Action;

    open spec fn view(&self) -> Action {
        match self {
            WorkdirAction::ProbePath(p) => Action::ProbePath(p@),
            WorkdirAction::ProbeWorkspace(p) => Action::ProbeWorkspace(p@),
            WorkdirAction::CreateDir(p) => Action::CreateDir(p@),
            WorkdirAction::LookupShared => Action::LookupShared,
            WorkdirAction::RecordShared { name, cwd } => Action::RecordShared(name@, cwd@),
            WorkdirAction::CreateThreadDir(p) => Action::CreateThreadDir(p@),
            WorkdirAction::Done(p) => Action::Done(p@),
            WorkdirAction::Failed(e) => Action::Failed(e@),
        }
    }
}

/// What came of an action.
#[derive(Debug)]
pub enum WorkdirAnswer {
    /// Of a directory and of the workspace root.
    Path { facts: PathFacts, root: Result<String, String> },
    /// Of a requested directory.
    Workspace(WorkspaceFacts),
    /// Of creating or recording something.
    Performed(Result<(), String>),
    /// The directory of a shared binding, if there is one.
    Shared(Result<Option<String>, String>),
}

/// How far the search for a thread's directory has come.
#[derive(Debug)]
pub enum WorkdirPhase {
    /// The thread's earlier directory is looked at.
    Persisted(String),
    /// The requested directory is looked at; the thread may have one already.
    Requested { path: String, existing: Option<String> },
    /// The requested directory is created.
    Creating { path: String, existing: Option<String> },
    /// The new directory is looked at.
    Created { path: String, existing: Option<String> },
    /// A shared binding is looked up.
    Shared,
    /// The directory of a shared binding is looked at.
    SharedPath(String),
    /// The directory is recorded for other agents.
    Recording(String),
    /// The thread's own directory is created.
    ThreadDir(String),
    /// The search has ended.
    Ended,
}

/// What such a phase says.
pub enum Phase {
    Persisted(Seq<char>),
    Requested(Seq<char>, Option<Seq<char>>),
    Creating(Seq<char>, Option<Seq<char>>),
    Created(Seq<char>, Option<Seq<char>>),
    Shared,
    SharedPath(Seq<char>),
    Recording(Seq<char>),
    ThreadDir(Seq<char>),
    Ended,
}

impl View for WorkdirPhase {
    type V = Phase;

    open spec fn view(&self) -> Phase {
        match self {
            WorkdirPhase::Persisted(p) => Phase::Persisted(p@),
            WorkdirPhase::Requested { path, existing } => Phase::Requested(
                path@,
                crate::text::opt_text(*existing),
            ),
            WorkdirPhase::Creating { path, existing } => Phase::Creating(
                path@,
                crate::text::opt_text(*existing),
            ),
            WorkdirPhase::Created { path, existing } => Phase::Created(
                path@,
                crate::text::opt_text(*existing),
            ),
            WorkdirPhase::Shared => Phase::Shared,
            WorkdirPhase::SharedPath(p) => Phase::SharedPath(p@),
            WorkdirPhase::Recording(p) => Phase::Recording(p@),
            WorkdirPhase::ThreadDir(p) => Phase::ThreadDir(p@),
            WorkdirPhase::Ended => Phase::Ended,
        }
    }
}

/// The search for the directory of one thread.
#[derive(Debug)]
pub struct WorkdirJob {
    thread: String,
    request: Option<WorkspaceRequest>,
    /// Whether the thread belongs to a channel with shared bindings.
    has_binding: bool,
    phase: WorkdirPhase,
}

/// What such a search says.
pub struct Search {
    pub thread: Seq<char>,
    pub request: Option<Workspace>,
    pub has_binding: bool,
    pub phase: Phase,
}

impl View for WorkdirJob {
    type V = Search;

    closed spec fn view(&self) -> Search {
        Search {
            thread: self.thread@,
            request: match self.request {
                Some(r) => Some(r@),
                None => None,
            },
            has_binding: self.has_binding,
            phase: self.phase@,
        }
    }
}

/// One step of a search.
#[derive(Debug)]
pub struct WorkdirStep {
    /// Whether the threads' directories have changed and are to be saved first.
    pub save: bool,
    pub action: WorkdirAction,
}

/// The pool, the search and what is to be done, after a step.
pub struct Outcome {
    pub pool: Pool,
    pub phase: Phase,
    pub save: bool,
    pub action: Action,
}

/// The search has ended with `cwd`.
pub open spec fn found(p: Pool, save: bool, cwd: Seq<char>) -> Outcome {
    Outcome { pool: p, phase: Phase::Ended, save, action: Action::Done(cwd) }
}

/// The search has failed.
pub open spec fn failed(p: Pool, e: Seq<char>) -> Outcome {
    Outcome { pool: p, phase: Phase::Ended, save: false, action: Action::Failed(e) }
}

/// The search goes on.
pub open spec fn goes_on(p: Pool, save: bool, phase: Phase, action: Action) -> Outcome {
    Outcome { pool: p, phase, save, action }
}

/// The search turns to a directory that needs no workspace.
pub open spec fn without_workspace(p: Pool, plan: Result<Plan, Seq<char>>) -> Outcome {
    match plan {
        Ok(Plan::PerThread(dir)) => goes_on(
            p,
            false,
            Phase::ThreadDir(dir),
            Action::CreateThreadDir(dir),
        ),
        Ok(Plan::Fixed(dir)) => found(p, false, dir),
        Ok(_) => failed(p, Seq::empty()),
        Err(e) => failed(p, e),
    }
}

/// The search turns to the requested workspace below `root`.
pub open spec fn on_request(
    p: Pool,
    root: Seq<char>,
    request: Workspace,
    existing: Option<Seq<char>>,
) -> Outcome {
    match workspace_name(request.name) {
        Err(e) => failed(p, e),
        Ok(rel) => {
            let path = path_join(root, rel);
            goes_on(p, false, Phase::Requested(path, existing), Action::ProbeWorkspace(path))
        },
    }
}

/// The search at its start.
pub open spec fn search_start(s: PoolSettings, p: Pool, j: Search) -> Outcome {
    match workdir_plan(s, p, j.thread, j.request is Some, j.has_binding) {
        Ok(Plan::Persisted(cwd)) => goes_on(
            p,
            false,
            Phase::Persisted(cwd),
            Action::ProbePath(cwd),
        ),
        Ok(Plan::Requested) => on_request(p, s.root->0, j.request->0, None),
        Ok(Plan::Shared) => goes_on(p, false, Phase::Shared, Action::LookupShared),
        plan => without_workspace(p, plan),
    }
}

/// The search has found the checked directory `cwd` of the request.
pub open spec fn on_workspace(
    p: Pool,
    j: Search,
    existing: Option<Seq<char>>,
    cwd: Seq<char>,
) -> Outcome {
    match existing {
        Some(e) => if e == cwd {
            found(p, false, e)
        } else {
            failed(p, already_bound(e))
        },
        None => if p.workdirs.contains_key(j.thread) {
            failed(p, already_bound(p.workdirs[j.thread]))
        } else if j.has_binding {
            goes_on(
                bind(p, j.thread, cwd),
                true,
                Phase::Recording(cwd),
                Action::RecordShared(j.request->0.name, cwd),
            )
        } else {
            found(bind(p, j.thread, cwd), true, cwd)
        },
    }
}

/// Whether an answer is one to the phase of a search.
pub open spec fn expects(j: Search, root: Option<Seq<char>>, a: WorkdirAnswer) -> bool {
    match (j.phase, a) {
        (Phase::Persisted(_), WorkdirAnswer::Path { .. }) => true,
        (Phase::Requested(_, _), WorkdirAnswer::Workspace(facts)) => root is Some && j.request
            is Some && facts_match(j.request->0, root->0, facts),
        (Phase::Creating(_, _), WorkdirAnswer::Performed(_)) => true,
        (Phase::Created(_, _), WorkdirAnswer::Path { .. }) => true,
        (Phase::Shared, WorkdirAnswer::Shared(_)) => true,
        (Phase::SharedPath(_), WorkdirAnswer::Path { .. }) => true,
        (Phase::Recording(_), WorkdirAnswer::Performed(_)) => true,
        (Phase::ThreadDir(_), WorkdirAnswer::Performed(_)) => true,
        _ => false,
    }
}

/// A search that is consistent: workspaces are looked at only where there is a
/// root, and a requested one only where there is a request.
pub open spec fn search_ok(s: PoolSettings, j: Search) -> bool {
    match j.phase {
        Phase::Persisted(_) | Phase::SharedPath(_) | Phase::Shared => s.root is Some,
        Phase::Requested(_, _) | Phase::Creating(_, _) | Phase::Created(_, _) => s.root is Some
            && j.request is Some,
        _ => true,
    }
}

/// The search after an answer.
pub open spec fn search_after(s: PoolSettings, p: Pool, j: Search, a: WorkdirAnswer) -> Outcome {
    match (j.phase, a) {
        (Phase::Persisted(cwd), WorkdirAnswer::Path { facts, root }) => match persisted_workdir(
            cwd,
            s.root->0,
            facts,
            root,
        ) {
            Err(e) => failed(p, e),
            Ok(c) => match j.request {
                Some(r) => on_request(p, s.root->0, r, Some(c)),
                None => found(p, false, c),
            },
        },
        (
            Phase::Requested(path, existing),
            WorkdirAnswer::Workspace(facts),
        ) => match requested_workspace(j.request->0, s.root->0, facts) {
            Err(e) => failed(p, e),
            Ok(Step::Ready(c)) => on_workspace(p, j, existing, c),
            Ok(Step::Create(dir)) => goes_on(
                p,
                false,
                Phase::Creating(dir, existing),
                Action::CreateDir(dir),
            ),
        },
        (Phase::Creating(path, existing), WorkdirAnswer::Performed(r)) => match r {
            Err(e) => failed(p, "failed to create workspace "@ + path + ": "@ + e@),
            Ok(()) => goes_on(p, false, Phase::Created(path, existing), Action::ProbePath(path)),
        },
        (
            Phase::Created(path, existing),
            WorkdirAnswer::Path { facts, root },
        ) => match existing_workspace(path, s.root->0, facts, root) {
            Err(e) => failed(p, e),
            Ok(c) => on_workspace(p, j, existing, c),
        },
        (Phase::Shared, WorkdirAnswer::Shared(r)) => match r {
            Err(e) => failed(p, e@),
            Ok(Some(cwd)) => goes_on(
                p,
                false,
                Phase::SharedPath(cwd@),
                Action::ProbePath(cwd@),
            ),
            Ok(None) => without_workspace(p, unshared_dir(s, j.thread)),
        },
        (Phase::SharedPath(cwd), WorkdirAnswer::Path { facts, root }) => match persisted_workdir(
            cwd,
            s.root->0,
            facts,
            root,
        ) {
            Err(e) => failed(p, e),
            Ok(c) => found(Pool { workdirs: p.workdirs.insert(j.thread, c), ..p }, true, c),
        },
        (Phase::Recording(cwd), WorkdirAnswer::Performed(r)) => match r {
            Err(e) => failed(p, e@),
            Ok(()) => found(p, false, cwd),
        },
        (Phase::ThreadDir(dir), WorkdirAnswer::Performed(r)) => match r {
            Err(e) => failed(p, e@),
            Ok(()) => found(p, false, dir),
        },
        _ => failed(p, Seq::empty()),
    }
}

/// The pool, the search and the step as they are.
pub open spec fn outcome(p: Pool, j: Search, step: WorkdirStep) -> Outcome {
    Outcome { pool: p, phase: j.phase, save: step.save, action: step.action@ }
}

/// Ends a search with `cwd`.
fn found_step(save: bool, cwd: String) -> (r: (WorkdirPhase, WorkdirStep))
    ensures
        r.0@ == Phase::Ended,
        r.1.save == save,
        r.1.action@ == Action::Done(cwd@),
{
    (WorkdirPhase::Ended, WorkdirStep { save, action: WorkdirAction::Done(cwd) })
}

/// Ends a search with an error.
fn failed_step(e: String) -> (r: (WorkdirPhase, WorkdirStep))
    ensures
        r.0@ == Phase::Ended,
        !r.1.save,
        r.1.action@ == Action::Failed(e@),
{
    (WorkdirPhase::Ended, WorkdirStep { save: false, action: WorkdirAction::Failed(e) })
}

/// Turns a search to a directory that needs no workspace.
fn plain_step(plan: Result<WorkdirPlan, String>, Ghost(p): Ghost<Pool>) -> (r: (
    WorkdirPhase,
    WorkdirStep,
))
    ensures
        (Outcome { pool: p, phase: r.0@, save: r.1.save, action: r.1.action@ })
            == without_workspace(p, plan_result(plan)),
{
    match plan {
        Ok(WorkdirPlan::PerThread(dir)) => {
            let phase = WorkdirPhase::ThreadDir(dir.clone());
            (phase, WorkdirStep { save: false, action: WorkdirAction::CreateThreadDir(dir) })
        },
        Ok(WorkdirPlan::Fixed(dir)) => found_step(false, dir),
        Ok(_) => failed_step(String::new()),
        Err(e) => failed_step(e),
    }
}

/// Turns a search to the requested workspace below `root`.
fn request_step(
    root: &str,
    request: &WorkspaceRequest,
    existing: Option<String>,
    Ghost(p): Ghost<Pool>,
) -> (r: (WorkdirPhase, WorkdirStep))
    ensures
        (Outcome { pool: p, phase: r.0@, save: r.1.save, action: r.1.action@ }) == on_request(
            p,
            root@,
            request@,
            crate::text::opt_text(existing),
        ),
{
    match requested_workspace_path(request, root) {
        Err(e) => failed_step(e),
        Ok(path) => {
            let phase = WorkdirPhase::Requested { path: path.clone(), existing };
            (phase, WorkdirStep { save: false, action: WorkdirAction::ProbeWorkspace(path) })
        },
    }
}

impl WorkdirJob {
    /// Begins the search for the directory of `thread`.
    pub fn start(
        pool: &SessionPool,
        thread: &str,
        request: Option<WorkspaceRequest>,
        has_binding: bool,
    ) -> (r: (Self, WorkdirStep))
        ensures
            ({
                let j = Search {
                    thread: thread@,
                    request: match request {
                        Some(w) => Some(w@),
                        None => None,
                    },
                    has_binding,
                    phase: Phase::Ended,
                };
                &&& outcome(pool@, r.0@, r.1) == search_start(pool.settings(), pool@, j)
                &&& r.0@ == (Search { phase: r.0@.phase, ..j })
                &&& search_ok(pool.settings(), r.0@)
            }),
    {
        let ghost p = pool@;
        let plan = pool.plan_working_dir(thread, request.is_some(), has_binding);
        let (phase, step) = match plan {
            Ok(WorkdirPlan::Persisted(cwd)) => {
                let phase = WorkdirPhase::Persisted(cwd.clone());
                (phase, WorkdirStep { save: false, action: WorkdirAction::ProbePath(cwd) })
            },
            Ok(WorkdirPlan::Requested) => match (&request, pool.workspace_root()) {
                (Some(w), Some(root)) => request_step(root.as_str(), w, None, Ghost(p)),
                _ => failed_step(String::new()),
            },
            Ok(WorkdirPlan::Shared) => (
                WorkdirPhase::Shared,
                WorkdirStep { save: false, action: WorkdirAction::LookupShared },
            ),
            plan => plain_step(plan, Ghost(p)),
        };
        let job = WorkdirJob { thread: thread.to_string(), request, has_binding, phase };
        (job, step)
    }

    /// The search has found the checked directory of the request.
    fn on_workspace(&self, pool: &mut SessionPool, existing: Option<String>, cwd: String) -> (r: (
        WorkdirPhase,
        WorkdirStep,
    ))
        requires
            pool_ok(old(pool)@),
            self@.request is Some,
        ensures
            (Outcome {
                pool: final(pool)@,
                phase: r.0@,
                save: r.1.save,
                action: r.1.action@,
            }) == on_workspace(old(pool)@, self@, crate::text::opt_text(existing), cwd@),
            final(pool).settings() == old(pool).settings(),
            pool_ok(final(pool)@),
    {
        match existing {
            Some(e) => {
                let wanted = Some(cwd);
                match SessionPool::resolve_bound(e.as_str(), &wanted) {
                    Ok(c) => found_step(false, c),
                    Err(err) => failed_step(err),
                }
            },
            None => match pool.bind_requested(self.thread.as_str(), cwd.as_str()) {
                Err(err) => failed_step(err),
                Ok(c) => match &self.request {
                    Some(w) if self.has_binding => {
                        let name = w.name().to_string();
                        let phase = WorkdirPhase::Recording(c.clone());
                        let action = WorkdirAction::RecordShared { name, cwd: c };
                        (phase, WorkdirStep { save: true, action })
                    },
                    _ => found_step(true, c),
                },
            },
        }
    }

    /// Takes the answer to the last action.
    pub fn answer(&mut self, pool: &mut SessionPool, a: WorkdirAnswer) -> (step: WorkdirStep)
        requires
            pool_ok(old(pool)@),
            search_ok(old(pool).settings(), old(self)@),
            expects(old(self)@, old(pool).settings().root, a),
        ensures
            outcome(final(pool)@, final(self)@, step) == search_after(
                old(pool).settings(),
                old(pool)@,
                old(self)@,
                a,
            ),
            final(self)@ == (Search { phase: final(self)@.phase, ..old(self)@ }),
            final(pool).settings() == old(pool).settings(),
            pool_ok(final(pool)@),
            search_ok(final(pool).settings(), final(self)@),
    {
        let mut phase = WorkdirPhase::Ended;
        std::mem::swap(&mut phase, &mut self.phase);
        let (next, step) = match (phase, a) {
            (WorkdirPhase::Persisted(cwd), WorkdirAnswer::Path { facts, root }) => {
                match pool.validate_persisted_workdir(cwd.as_str(), &facts, &root) {
                    Err(e) => failed_step(e),
                    Ok(c) => match (&self.request, pool.workspace_root()) {
                        (Some(w), Some(r)) => request_step(
                            r.as_str(),
                            w,
                            Some(c),
                            Ghost(pool@),
                        ),
                        _ => found_step(false, c),
                    },
                }
            },
            (WorkdirPhase::Requested { path, existing }, WorkdirAnswer::Workspace(facts)) => {
                let checked = match &self.request {
                    Some(w) => pool.validate_requested_workspace(w, &facts),
                    None => Err(String::new()),
                };
                match checked {
                    Err(e) => failed_step(e),
                    Ok(WorkspaceStep::Ready(c)) => self.on_workspace(pool, existing, c),
                    Ok(WorkspaceStep::Create(dir)) => {
                        let phase = WorkdirPhase::Creating { path: dir.clone(), existing };
                        let action = WorkdirAction::CreateDir(dir);
                        (phase, WorkdirStep { save: false, action })
                    },
                }
            },
            (WorkdirPhase::Creating { path, existing }, WorkdirAnswer::Performed(r)) => match r {
                Err(e) => failed_step(
                    "failed to create workspace ".to_string().concat(path.as_str()).concat(
                        ": ",
                    ).concat(e.as_str()),
                ),
                Ok(()) => {
                    let phase = WorkdirPhase::Created { path: path.clone(), existing };
                    (phase, WorkdirStep { save: false, action: WorkdirAction::ProbePath(path) })
                },
            },
            (WorkdirPhase::Created { path, existing }, WorkdirAnswer::Path { facts, root }) => {
                match pool.validate_created_workspace(path.as_str(), &facts, &root) {
                    Err(e) => failed_step(e),
                    Ok(c) => self.on_workspace(pool, existing, c),
                }
            },
            (WorkdirPhase::Shared, WorkdirAnswer::Shared(r)) => match r {
                Err(e) => failed_step(e),
                Ok(Some(cwd)) => {
                    let phase = WorkdirPhase::SharedPath(cwd.clone());
                    (phase, WorkdirStep { save: false, action: WorkdirAction::ProbePath(cwd) })
                },
                Ok(None) => plain_step(
                    pool.unshared_working_dir(self.thread.as_str()),
                    Ghost(pool@),
                ),
            },
            (WorkdirPhase::SharedPath(cwd), WorkdirAnswer::Path { facts, root }) => {
                match pool.validate_persisted_workdir(cwd.as_str(), &facts, &root) {
                    Err(e) => failed_step(e),
                    Ok(c) => {
                        pool.bind_shared(self.thread.as_str(), c.as_str());
                        found_step(true, c)
                    },
                }
            },
            (WorkdirPhase::Recording(cwd), WorkdirAnswer::Performed(r)) => match r {
                Err(e) => failed_step(e),
                Ok(()) => found_step(false, cwd),
            },
            (WorkdirPhase::ThreadDir(dir), WorkdirAnswer::Performed(r)) => match r {
                Err(e) => failed_step(e),
                Ok(()) => found_step(false, dir),
            },
            _ => failed_step(String::new()),
        };
        self.phase = next;
        step
    }
}

/// Where workspaces are in use, a thread works in a directory found by looking at it,
/// and one is recorded for other agents, only if it lies below the resolved workspace
/// root.
pub proof fn law_directory_below_root(
    s: PoolSettings,
    p: Pool,
    j: Search,
    facts: PathFacts,
    root: Result<String, String>,
    cwd: Seq<char>,
)
    requires
        search_ok(s, j),
        j.phase is Persisted || j.phase is Created || j.phase is SharedPath,
        ({
            let action = search_after(s, p, j, WorkdirAnswer::Path { facts, root }).action;
            action == Action::Done(cwd) || (action is RecordShared && action->RecordShared_1
                == cwd)
        }),
    ensures
        root is Ok,
        is_under(cwd, root->Ok_0@),
        facts.is_dir,
{
}

/// A requested directory that exists is used, and recorded for other agents, only if it
/// lies below the resolved workspace root; one that does not exist is created only on
/// request and only where its nearest existing parent lies below that root.
pub proof fn law_requested_directory_below_root(
    s: PoolSettings,
    p: Pool,
    j: Search,
    facts: WorkspaceFacts,
)
    requires
        search_ok(s, j),
        j.phase is Requested,
    ensures
        ({
            let action = search_after(s, p, j, WorkdirAnswer::Workspace(facts)).action;
            &&& action matches Action::Done(cwd) ==> facts.root is Ok && is_under(
                cwd,
                facts.root->Ok_0@,
            )
            &&& action matches Action::RecordShared(_, cwd) ==> facts.root is Ok && is_under(
                cwd,
                facts.root->Ok_0@,
            )
            &&& action is CreateDir ==> {
                &&& j.request->0.create && !facts.requested.exists
                &&& facts.root is Ok && first_existing(facts.ancestors@, 0) is Some
                &&& ({
                    let a = facts.ancestors@[first_existing(facts.ancestors@, 0)->0];
                    a.canonical is Ok && is_under(a.canonical->Ok_0@, facts.root->Ok_0@)
                })
            }
        }),
{
}

/// A thread that has a directory keeps it: no step of a search changes the binding
/// of a thread that was bound, other than to what a shared binding says where the
/// thread had none when the search began.
pub proof fn law_search_keeps_bindings(s: PoolSettings, p: Pool, j: Search, a: WorkdirAnswer)
    requires
        !(j.phase is SharedPath),
    ensures
        p.workdirs.submap_of(search_after(s, p, j, a).pool.workdirs),
        search_after(s, p, j, a).pool.active == p.active,
        search_after(s, p, j, a).pool.persisted == p.persisted,
{
}

/// Whether a step asks for `action`, has not changed the pool and saves nothing.
pub open spec fn only_asks(o: Outcome, p: Pool, action: Action) -> bool {
    o.pool == p && !o.save && o.action == action
}

/// How a search begins: an earlier directory is looked at, a requested one as well, a
/// shared binding is looked up, a directory of the thread's own is created, and a fixed
/// one is used at once.
pub proof fn law_search_begins(s: PoolSettings, p: Pool, j: Search)
    ensures
        ({
            let plan = workdir_plan(s, p, j.thread, j.request is Some, j.has_binding);
            let o = search_start(s, p, j);
            &&& plan matches Ok(Plan::Persisted(cwd)) ==> only_asks(o, p, Action::ProbePath(cwd))
                && o.phase == Phase::Persisted(cwd)
            &&& plan matches Ok(Plan::Shared) ==> only_asks(o, p, Action::LookupShared) && o.phase
                == Phase::Shared
            &&& plan matches Ok(Plan::PerThread(dir)) ==> only_asks(
                o,
                p,
                Action::CreateThreadDir(dir),
            ) && o.phase == Phase::ThreadDir(dir)
            &&& plan matches Ok(Plan::Fixed(dir)) ==> only_asks(o, p, Action::Done(dir))
            &&& plan matches Err(e) ==> only_asks(o, p, Action::Failed(e))
            &&& plan matches Ok(Plan::Requested) ==> asks_for_workspace(
                o,
                p,
                s.root->0,
                j.request->0,
                None,
            )
        }),
{
}

/// Whether a step looks at the requested directory below the root, or tells what is wrong
/// with its name.
pub open spec fn asks_for_workspace(
    o: Outcome,
    p: Pool,
    root: Seq<char>,
    request: Workspace,
    existing: Option<Seq<char>>,
) -> bool {
    match workspace_name(request.name) {
        Ok(rel) => only_asks(o, p, Action::ProbeWorkspace(path_join(root, rel))) && o.phase
            == Phase::Requested(path_join(root, rel), existing),
        Err(e) => only_asks(o, p, Action::Failed(e)),
    }
}

/// Whether a step ends well with the directory `cwd` that a request stands for: it is the
/// thread's directory already, or becomes it and is recorded where it is shared.
pub open spec fn takes_workspace(
    o: Outcome,
    p: Pool,
    j: Search,
    existing: Option<Seq<char>>,
    cwd: Seq<char>,
) -> bool {
    let bound = p.workdirs.contains_key(j.thread);
    &&& existing is Some && existing->0 == cwd ==> only_asks(o, p, Action::Done(cwd))
    &&& existing is Some && existing->0 != cwd ==> only_asks(
        o,
        p,
        Action::Failed(
            "thread already has workspace "@ + existing->0
                + "; start a new thread to change workspace"@,
        ),
    )
    &&& existing is None && bound ==> only_asks(
        o,
        p,
        Action::Failed(
            "thread already has workspace "@ + p.workdirs[j.thread]
                + "; start a new thread to change workspace"@,
        ),
    )
    &&& existing is None && !bound ==> {
        &&& o.save
        &&& o.pool == (Pool { workdirs: p.workdirs.insert(j.thread, cwd), ..p })
        &&& j.has_binding ==> o.action == Action::RecordShared(j.request->0.name, cwd) && o.phase
            == Phase::Recording(cwd)
        &&& !j.has_binding ==> o.action == Action::Done(cwd)
    }
}

/// How a search goes on from an earlier directory, and from that of a shared binding. One
/// that may be used is the thread's directory; a request must stand for the same one. The
/// directory of a shared binding becomes the thread's own.
pub proof fn law_search_with_known_directory(
    s: PoolSettings,
    p: Pool,
    j: Search,
    facts: PathFacts,
    root: Result<String, String>,
    cwd: Seq<char>,
)
    ensures
        ({
            let o = search_after(s, p, j, WorkdirAnswer::Path { facts, root });
            let r = persisted_workdir(cwd, s.root->0, facts, root);
            &&& j.phase == Phase::Persisted(cwd) && r is Err ==> only_asks(
                o,
                p,
                Action::Failed(r->Err_0),
            )
            &&& j.phase == Phase::Persisted(cwd) && r is Ok && j.request is None ==> only_asks(
                o,
                p,
                Action::Done(r->Ok_0),
            )
            &&& j.phase == Phase::Persisted(cwd) && r is Ok && j.request is Some
                ==> asks_for_workspace(o, p, s.root->0, j.request->0, Some(r->Ok_0))
            &&& j.phase == Phase::SharedPath(cwd) && r is Err ==> only_asks(
                o,
                p,
                Action::Failed(r->Err_0),
            )
            &&& j.phase == Phase::SharedPath(cwd) && r is Ok ==> o.save && o.action == Action::Done(
                r->Ok_0,
            ) && o.pool == (Pool { workdirs: p.workdirs.insert(j.thread, r->Ok_0), ..p })
        }),
{
}

/// How a search goes on with a requested directory: one that exists is taken where it may
/// be used; one that is missing is created where that was asked for, looked at again, and
/// then taken.
pub proof fn law_search_with_requested_directory(
    s: PoolSettings,
    p: Pool,
    j: Search,
    facts: WorkspaceFacts,
    again: PathFacts,
    root: Result<String, String>,
    e: String,
    path: Seq<char>,
    existing: Option<Seq<char>>,
)
    ensures
        j.phase == Phase::Requested(path, existing) ==> {
            let o = search_after(s, p, j, WorkdirAnswer::Workspace(facts));
            let r = requested_workspace(j.request->0, s.root->0, facts);
            &&& r matches Err(x) ==> only_asks(o, p, Action::Failed(x))
            &&& r matches Ok(Step::Ready(c)) ==> takes_workspace(o, p, j, existing, c)
            &&& r matches Ok(Step::Create(dir)) ==> only_asks(o, p, Action::CreateDir(dir))
                && o.phase == Phase::Creating(dir, existing)
        },
        j.phase == Phase::Creating(path, existing) ==> {
            let ok = search_after(s, p, j, WorkdirAnswer::Performed(Ok(())));
            let bad = search_after(s, p, j, WorkdirAnswer::Performed(Err(e)));
            &&& only_asks(ok, p, Action::ProbePath(path)) && ok.phase == Phase::Created(
                path,
                existing,
            )
            &&& only_asks(
                bad,
                p,
                Action::Failed("failed to create workspace "@ + path + ": "@ + e@),
            )
        },
        j.phase == Phase::Created(path, existing) ==> {
            let o = search_after(s, p, j, WorkdirAnswer::Path { facts: again, root });
            let r = existing_workspace(path, s.root->0, again, root);
            &&& r matches Err(x) ==> only_asks(o, p, Action::Failed(x))
            &&& r matches Ok(c) ==> takes_workspace(o, p, j, existing, c)
        },
{
}

/// How a search goes on with a shared binding, with a directory of the thread's own, and
/// once a directory was recorded.
pub proof fn law_search_with_shared_binding(
    s: PoolSettings,
    p: Pool,
    j: Search,
    cwd: String,
    e: String,
    dir: Seq<char>,
)
    ensures
        j.phase is Shared ==> {
            let some = search_after(s, p, j, WorkdirAnswer::Shared(Ok(Some(cwd))));
            let none = search_after(s, p, j, WorkdirAnswer::Shared(Ok(None)));
            let bad = search_after(s, p, j, WorkdirAnswer::Shared(Err(e)));
            let plan = unshared_dir(s, j.thread);
            &&& only_asks(some, p, Action::ProbePath(cwd@)) && some.phase == Phase::SharedPath(cwd@)
            &&& only_asks(bad, p, Action::Failed(e@))
            &&& plan matches Ok(Plan::Fixed(d)) ==> only_asks(none, p, Action::Done(d))
            &&& plan matches Ok(Plan::PerThread(d)) ==> only_asks(
                none,
                p,
                Action::CreateThreadDir(d),
            ) && none.phase == Phase::ThreadDir(d)
            &&& plan matches Err(x) ==> only_asks(none, p, Action::Failed(x))
        },
        j.phase == Phase::Recording(dir) || j.phase == Phase::ThreadDir(dir) ==> {
            &&& only_asks(
                search_after(s, p, j, WorkdirAnswer::Performed(Ok(()))),
                p,
                Action::Done(dir),
            )
            &&& only_asks(
                search_after(s, p, j, WorkdirAnswer::Performed(Err(e))),
                p,
                Action::Failed(e@),
            )
        },
{
}

} // verus!
