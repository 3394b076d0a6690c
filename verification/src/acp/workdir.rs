//! Where a thread's agent works.

use vstd::prelude::*;
use vstd::utf8::encode_utf8;

use crate::acp::pool::{pool_ok, Pool, PoolSettings, SessionPool};
use crate::acp::workspace::{
    check_persisted_workdir, check_preflight, check_requested_workspace, existing_workspace,
    facts_match, persisted_workdir, preflight, requested_workspace, res_text,
    safe_thread_component, thread_component, validate_existing_workspace_path,
    validate_workspace_name, workspace_name, PathFacts, Step, WorkspaceFacts, WorkspaceStep,
};
use crate::config::{Workspace, WorkspaceRequest};
use crate::paths::{joined_path, path_join};

verus! {

/// How a thread's working directory is found.
#[derive(Debug)]
pub enum WorkdirPlan {
    /// The thread is bound to this directory, which is to be checked.
    Persisted(String),
    /// The requested workspace is to be checked and bound.
    Requested,
    /// A binding that other agents share is to be looked up.
    Shared,
    /// The thread has this directory of its own, created where it is missing.
    PerThread(String),
    /// This directory.
    Fixed(String),
}

/// What such a plan says.
pub enum Plan {
    Persisted(Seq<char>),
    Requested,
    Shared,
    PerThread(Seq<char>),
    Fixed(Seq<char>),
}

impl View for WorkdirPlan {
    type V = Plan;

    open spec fn view(&self) -> Plan {
        match self {
            WorkdirPlan::Persisted(s) => Plan::Persisted(s@),
            WorkdirPlan::Requested => Plan::Requested,
            WorkdirPlan::Shared => Plan::Shared,
            WorkdirPlan::PerThread(s) => Plan::PerThread(s@),
            WorkdirPlan::Fixed(s) => Plan::Fixed(s@),
        }
    }
}

/// The contents of a planning result.
pub open spec fn plan_result(r: Result<WorkdirPlan, String>) -> Result<Plan, Seq<char>> {
    match r {
        Ok(p) => Ok(p@),
        Err(e) => Err(e@),
    }
}

/// What a thread that must name a workspace and does not is told.
pub open spec fn missing_directive() -> Seq<char> {
    "missing workspace directive; start the thread with [[ws:<name>]] for an existing workspace or [[ws:<name> --create]] to create one"@
}

/// What a thread that asks for another workspace is told.
pub open spec fn already_bound(existing: Seq<char>) -> Seq<char> {
    "thread already has workspace "@ + existing + "; start a new thread to change workspace"@
}

/// The directory of a thread that has no workspace.
pub open spec fn unbound_dir(s: PoolSettings, thread: Seq<char>) -> Result<Plan, Seq<char>> {
    if !s.per_thread_workdir {
        Ok(Plan::Fixed(s.working_dir))
    } else if encode_utf8(thread).len() == 0 {
        Err("invalid thread_id: "@ + thread)
    } else {
        Ok(
            Plan::PerThread(
                path_join(
                    path_join(s.working_dir, "sessions"@),
                    thread_component(encode_utf8(thread)),
                ),
            ),
        )
    }
}

/// The directory of a thread that no binding gives a workspace.
pub open spec fn unshared_dir(s: PoolSettings, thread: Seq<char>) -> Result<Plan, Seq<char>> {
    if s.root is Some && s.required {
        Err(missing_directive())
    } else {
        unbound_dir(s, thread)
    }
}

/// How a thread's working directory is found: an earlier binding comes first, then
/// the request, then a shared binding.
pub open spec fn workdir_plan(
    s: PoolSettings,
    p: Pool,
    thread: Seq<char>,
    has_request: bool,
    has_binding: bool,
) -> Result<Plan, Seq<char>> {
    if s.root is None {
        unbound_dir(s, thread)
    } else if p.workdirs.contains_key(thread) {
        Ok(Plan::Persisted(p.workdirs[thread]))
    } else if has_request {
        Ok(Plan::Requested)
    } else if has_binding {
        Ok(Plan::Shared)
    } else {
        unshared_dir(s, thread)
    }
}

/// `p` with `thread` bound to `cwd`, unless it is bound already.
pub open spec fn bind(p: Pool, thread: Seq<char>, cwd: Seq<char>) -> Pool {
    if p.workdirs.contains_key(thread) {
        p
    } else {
        Pool { workdirs: p.workdirs.insert(thread, cwd), ..p }
    }
}

impl SessionPool {
    fn missing_directive_text() -> (s: String)
        ensures
            s@ == missing_directive(),
    {
        "missing workspace directive; start the thread with [[ws:<name>]] for an existing workspace or [[ws:<name> --create]] to create one".to_string()
    }

    fn already_bound_text(existing: &str) -> (s: String)
        ensures
            s@ == already_bound(existing@),
    {
        "thread already has workspace ".to_string().concat(existing).concat(
            "; start a new thread to change workspace",
        )
    }

    /// The directory below the workspace root, if workspaces are in use, and what is
    /// to be done for it.
    pub fn validate_requested_workspace(
        &self,
        request: &WorkspaceRequest,
        facts: &WorkspaceFacts,
    ) -> (r: Result<WorkspaceStep, String>)
        requires
            self.settings().root matches Some(root) ==> facts_match(request@, root, *facts),
        ensures
            (match r {
                Ok(s) => Ok::<Step, Seq<char>>(s@),
                Err(e) => Err::<Step, Seq<char>>(e@),
            }) == (match self.settings().root {
                None => Ok::<Step, Seq<char>>(Step::Ready(self.settings().working_dir)),
                Some(root) => requested_workspace(request@, root, *facts),
            }),
    {
        match self.workspace_root() {
            None => Ok(WorkspaceStep::Ready(self.default_dir())),
            Some(root) => check_requested_workspace(request, root.as_str(), facts),
        }
    }

    /// The directory that was just created for a request.
    pub fn validate_created_workspace(
        &self,
        path: &str,
        facts: &PathFacts,
        root_canonical: &Result<String, String>,
    ) -> (r: Result<String, String>)
        ensures
            res_text(r) == (match self.settings().root {
                None => Ok::<Seq<char>, Seq<char>>(path@),
                Some(root) => existing_workspace(path@, root, *facts, *root_canonical),
            }),
    {
        match self.workspace_root() {
            None => Ok(path.to_string()),
            Some(root) => validate_existing_workspace_path(
                path,
                root.as_str(),
                facts,
                root_canonical,
            ),
        }
    }

    /// The directory that a thread was bound to earlier, if it may still be used.
    pub fn validate_persisted_workdir(
        &self,
        existing: &str,
        facts: &PathFacts,
        root_canonical: &Result<String, String>,
    ) -> (r: Result<String, String>)
        ensures
            res_text(r) == (match self.settings().root {
                None => Ok::<Seq<char>, Seq<char>>(existing@),
                Some(root) => persisted_workdir(existing@, root, *facts, *root_canonical),
            }),
    {
        match self.workspace_root() {
            None => Ok(existing.to_string()),
            Some(root) => check_persisted_workdir(
                existing,
                root.as_str(),
                facts,
                root_canonical,
            ),
        }
    }

    /// Validate a workspace request WITHOUT creating anything. Used before a chat
    /// thread is created, so a bad name never leaves an orphan thread behind.
    pub fn preflight_workspace_request(
        &self,
        request: &WorkspaceRequest,
        facts: &WorkspaceFacts,
    ) -> (r: Result<(), String>)
        requires
            self.settings().root matches Some(root) ==> facts_match(request@, root, *facts),
        ensures
            (match r {
                Ok(()) => Ok::<(), Seq<char>>(()),
                Err(e) => Err::<(), Seq<char>>(e@),
            }) == (match self.settings().root {
                None => Ok::<(), Seq<char>>(()),
                Some(root) => preflight(request@, root, *facts),
            }),
    {
        match self.workspace_root() {
            None => Ok(()),
            Some(root) => check_preflight(request, root.as_str(), facts),
        }
    }

    /// The request as it is remembered for a new thread, given what came of checking
    /// (and, on request, creating) its directory.
    pub fn prepare_workspace_request(
        &self,
        request: Option<&WorkspaceRequest>,
        checked: &Result<String, String>,
    ) -> (r: Result<Option<WorkspaceRequest>, String>)
        ensures
            (match r {
                Ok(None) => Ok::<Option<Workspace>, Seq<char>>(None),
                Ok(Some(w)) => Ok::<Option<Workspace>, Seq<char>>(Some(w@)),
                Err(e) => Err::<Option<Workspace>, Seq<char>>(e@),
            }) == (if self.settings().root is None {
                Ok::<Option<Workspace>, Seq<char>>(None)
            } else {
                match request {
                    None => if self.settings().required {
                        Err::<Option<Workspace>, Seq<char>>(missing_directive())
                    } else {
                        Ok::<Option<Workspace>, Seq<char>>(None)
                    },
                    Some(w) => match workspace_name(w@.name) {
                        Err(e) => Err::<Option<Workspace>, Seq<char>>(e),
                        Ok(rel) => match checked {
                            Err(e) => Err::<Option<Workspace>, Seq<char>>(e@),
                            Ok(_) => Ok::<Option<Workspace>, Seq<char>>(
                                Some(Workspace { name: rel, create: false }),
                            ),
                        },
                    },
                }
            }),
    {
        if !self.workspace_enabled() {
            return Ok(None);
        }
        match request {
            None => {
                if self.workspace_required() {
                    Err(Self::missing_directive_text())
                } else {
                    Ok(None)
                }
            },
            Some(w) => match validate_workspace_name(w.name()) {
                Err(e) => Err(e),
                Ok(rel) => match checked {
                    Err(e) => Err(e.clone()),
                    Ok(_) => Ok(Some(WorkspaceRequest::Existing(rel))),
                },
            },
        }
    }

    /// Binds a thread to the directory `cwd`. Binding it again to the same directory
    /// changes nothing; another directory is refused.
    pub fn bind_thread_workspace(&mut self, thread: &str, cwd: &str) -> (r: Result<String, String>)
        requires
            pool_ok(old(self)@),
        ensures
            final(self)@ == bind(old(self)@, thread@, cwd@),
            final(self).settings() == old(self).settings(),
            pool_ok(final(self)@),
            res_text(r) == (if old(self)@.workdirs.contains_key(thread@)
                && old(self)@.workdirs[thread@] != cwd@ {
                Err::<Seq<char>, Seq<char>>(already_bound(old(self)@.workdirs[thread@]))
            } else {
                Ok::<Seq<char>, Seq<char>>(cwd@)
            }),
    {
        match self.workdir(thread) {
            Some(existing) => {
                let chars = crate::text::chars_of(existing.as_str());
                if crate::text::is_text(chars.as_slice(), cwd) {
                    Ok(existing)
                } else {
                    Err(Self::already_bound_text(existing.as_str()))
                }
            },
            None => {
                self.set_workdir(thread, cwd);
                Ok(cwd.to_string())
            },
        }
    }

    /// How the thread's working directory is found.
    pub fn plan_working_dir(&self, thread: &str, has_request: bool, has_binding: bool) -> (r:
        Result<WorkdirPlan, String>)
        ensures
            plan_result(r) == workdir_plan(
                self.settings(),
                self@,
                thread@,
                has_request,
                has_binding,
            ),
    {
        if self.workspace_enabled() {
            if let Some(existing) = self.workdir(thread) {
                return Ok(WorkdirPlan::Persisted(existing));
            }
            if has_request {
                return Ok(WorkdirPlan::Requested);
            }
            if has_binding {
                return Ok(WorkdirPlan::Shared);
            }
        }
        self.unshared_working_dir(thread)
    }

    /// The directory of a thread that no binding gives a workspace.
    pub fn unshared_working_dir(&self, thread: &str) -> (r: Result<WorkdirPlan, String>)
        ensures
            plan_result(r) == unshared_dir(self.settings(), thread@),
    {
        if self.workspace_enabled() && self.workspace_required() {
            return Err(Self::missing_directive_text());
        }
        self.unbound_working_dir(thread)
    }

    fn unbound_working_dir(&self, thread: &str) -> (r: Result<WorkdirPlan, String>)
        ensures
            plan_result(r) == unbound_dir(self.settings(), thread@),
    {
        if self.has_thread_dirs() {
            match safe_thread_component(thread) {
                Ok(safe) => {
                    let sessions = joined_path(self.default_dir().as_str(), "sessions");
                    Ok(WorkdirPlan::PerThread(joined_path(sessions.as_str(), safe.as_str())))
                },
                Err(e) => Err(e),
            }
        } else {
            Ok(WorkdirPlan::Fixed(self.default_dir()))
        }
    }

    /// The directory of a bound thread, given the checked directory that it asks
    /// for, if any: asking for another one is refused.
    pub fn resolve_bound(existing: &str, requested: &Option<String>) -> (r: Result<String, String>)
        ensures
            res_text(r) == (match requested {
                Some(q) => if q@ == existing@ {
                    Ok::<Seq<char>, Seq<char>>(existing@)
                } else {
                    Err::<Seq<char>, Seq<char>>(already_bound(existing@))
                },
                None => Ok::<Seq<char>, Seq<char>>(existing@),
            }),
    {
        match requested {
            Some(q) => {
                let chars = crate::text::chars_of(existing);
                if crate::text::is_text(chars.as_slice(), q.as_str()) {
                    Ok(existing.to_string())
                } else {
                    Err(Self::already_bound_text(existing))
                }
            },
            None => Ok(existing.to_string()),
        }
    }

    /// Binds a thread to the checked directory it asked for; a thread that was bound
    /// meanwhile is refused.
    pub fn bind_requested(&mut self, thread: &str, cwd: &str) -> (r: Result<String, String>)
        requires
            pool_ok(old(self)@),
        ensures
            final(self)@ == bind(old(self)@, thread@, cwd@),
            final(self).settings() == old(self).settings(),
            pool_ok(final(self)@),
            res_text(r) == (if old(self)@.workdirs.contains_key(thread@) {
                Err::<Seq<char>, Seq<char>>(already_bound(old(self)@.workdirs[thread@]))
            } else {
                Ok::<Seq<char>, Seq<char>>(cwd@)
            }),
    {
        match self.workdir(thread) {
            Some(existing) => Err(Self::already_bound_text(existing.as_str())),
            None => {
                self.set_workdir(thread, cwd);
                Ok(cwd.to_string())
            },
        }
    }

    /// Binds a thread to the checked directory of a shared binding.
    pub fn bind_shared(&mut self, thread: &str, cwd: &str)
        requires
            pool_ok(old(self)@),
        ensures
            final(self)@ == (Pool {
                workdirs: old(self)@.workdirs.insert(thread@, cwd@),
                ..old(self)@
            }),
            final(self).settings() == old(self).settings(),
            pool_ok(final(self)@),
    {
        self.set_workdir(thread, cwd);
    }

    /// The directory in which a thread's files are looked up: that of its binding,
    /// which is to be checked, else the one it works in.
    pub fn working_dir_for_thread(&self, thread: &str) -> (r: Result<WorkdirPlan, String>)
        ensures
            plan_result(r) == (if self@.workdirs.contains_key(thread@) {
                Ok::<Plan, Seq<char>>(Plan::Persisted(self@.workdirs[thread@]))
            } else {
                unbound_dir(self.settings(), thread@)
            }),
    {
        match self.workdir(thread) {
            Some(existing) => Ok(WorkdirPlan::Persisted(existing)),
            None => self.unbound_working_dir(thread),
        }
    }
}

/// Once a thread is bound to a directory, no request changes that, and binding one
/// thread leaves the others alone.
pub proof fn law_binding_is_permanent(
    p: Pool,
    thread: Seq<char>,
    cwd: Seq<char>,
    later: Seq<char>,
    other: Seq<char>,
)
    requires
        other != thread,
    ensures
        bind(bind(p, thread, cwd), thread, later) == bind(p, thread, cwd),
        bind(p, thread, cwd).workdirs.contains_key(thread),
        p.workdirs.submap_of(bind(p, thread, cwd).workdirs),
        bind(p, thread, cwd).workdirs.contains_key(other) == p.workdirs.contains_key(other),
{
}

/// A bound thread keeps its directory whatever it asks for or others share.
pub proof fn law_bound_thread_keeps_its_directory(
    s: PoolSettings,
    p: Pool,
    thread: Seq<char>,
    cwd: Seq<char>,
    has_request: bool,
    has_binding: bool,
)
    requires
        s.root is Some,
        !p.workdirs.contains_key(thread),
    ensures
        workdir_plan(s, bind(p, thread, cwd), thread, has_request, has_binding) == Ok::<
            Plan,
            Seq<char>,
        >(Plan::Persisted(cwd)),
{
}

/// Where a thread's directory comes from: where workspaces are in use, from its earlier
/// binding, else from its request, else from a shared binding, else it must do without one
/// unless one is required; elsewhere from the settings alone.
pub proof fn law_where_a_directory_comes_from(
    s: PoolSettings,
    p: Pool,
    thread: Seq<char>,
    has_request: bool,
    has_binding: bool,
)
    ensures
        ({
            let plan = workdir_plan(s, p, thread, has_request, has_binding);
            let bound = p.workdirs.contains_key(thread);
            &&& s.root is None ==> plan == unbound_dir(s, thread)
            &&& s.root is Some && bound ==> plan == Ok::<Plan, Seq<char>>(
                Plan::Persisted(p.workdirs[thread]),
            )
            &&& s.root is Some && !bound && has_request ==> plan == Ok::<Plan, Seq<char>>(
                Plan::Requested,
            )
            &&& s.root is Some && !bound && !has_request && has_binding ==> plan == Ok::<
                Plan,
                Seq<char>,
            >(Plan::Shared)
            &&& s.root is Some && !bound && !has_request && !has_binding ==> plan == unshared_dir(
                s,
                thread,
            )
            &&& s.root is Some && s.required ==> unshared_dir(s, thread) == Err::<Plan, Seq<char>>(
                "missing workspace directive; start the thread with [[ws:<name>]] for an existing workspace or [[ws:<name> --create]] to create one"@,
            )
            &&& s.root is None || !s.required ==> unshared_dir(s, thread) == unbound_dir(s, thread)
            &&& !s.per_thread_workdir ==> unbound_dir(s, thread) == Ok::<Plan, Seq<char>>(
                Plan::Fixed(s.working_dir),
            )
            &&& s.per_thread_workdir && encode_utf8(thread).len() > 0 ==> unbound_dir(s, thread)
                == Ok::<Plan, Seq<char>>(
                Plan::PerThread(
                    path_join(
                        path_join(s.working_dir, "sessions"@),
                        thread_component(encode_utf8(thread)),
                    ),
                ),
            )
            &&& s.per_thread_workdir && encode_utf8(thread).len() == 0 ==> unbound_dir(s, thread)
                == Err::<Plan, Seq<char>>("invalid thread_id: "@ + thread)
        }),
{
}

/// Binding a thread that has no directory gives it this one, and changes nothing else.
pub proof fn law_binding_is_recorded(p: Pool, thread: Seq<char>, cwd: Seq<char>)
    ensures
        !p.workdirs.contains_key(thread) ==> bind(p, thread, cwd).workdirs == p.workdirs.insert(
            thread,
            cwd,
        ),
        p.workdirs.contains_key(thread) ==> bind(p, thread, cwd) == p,
        bind(p, thread, cwd) == (Pool { workdirs: bind(p, thread, cwd).workdirs, ..p }),
        already_bound(cwd) == "thread already has workspace "@ + cwd
            + "; start a new thread to change workspace"@,
{
}

} // verus!
