//! Which directory a requested workspace stands for, and whether it may be used.

use vstd::prelude::*;
use vstd::utf8::encode_utf8;

use crate::config::{Workspace, WorkspaceRequest};
use crate::paths::{
    absolute, components, is_absolute, is_under, joined_path, parents, path_components, path_join,
    path_parents, under,
};
use crate::text::{
    chars_of, hex_byte, is_alnum, is_text, push_hex_byte, string_of, texts, trim, trimmed,
};

verus! {

/// What the file system says of one path; an unresolvable path comes with the
/// reason.
#[derive(Debug)]
pub struct PathFacts {
    pub exists: bool,
    pub is_dir: bool,
    pub canonical: Result<String, String>,
}

/// What the file system says of a requested workspace.
#[derive(Debug)]
pub struct WorkspaceFacts {
    /// Of the workspace root: its resolved path.
    pub root: Result<String, String>,
    /// Of the requested directory.
    pub requested: PathFacts,
    /// Of the directories above it, from the nearest one up.
    pub ancestors: Vec<PathFacts>,
}

/// What is to be done for a requested workspace.
#[derive(Debug)]
pub enum WorkspaceStep {
    /// The workspace is this directory.
    Ready(String),
    /// This directory is to be created, and then looked at again.
    Create(String),
}

/// What such a step says.
pub enum Step {
    Ready(Seq<char>),
    Create(Seq<char>),
}

impl View for WorkspaceStep {
    type V = Step;

    open spec fn view(&self) -> Step {
        match self {
            WorkspaceStep::Ready(s) => Step::Ready(s@),
            WorkspaceStep::Create(s) => Step::Create(s@),
        }
    }
}

/// The texts of a result: a value or the reason there is none.
pub open spec fn res_text(r: Result<String, String>) -> Result<Seq<char>, Seq<char>> {
    match r {
        Ok(s) => Ok(s@),
        Err(e) => Err(e@),
    }
}

/// Whether a path leaves its directory or stays in place: it has a component of
/// one or two dots.
pub open spec fn unsafe_components(p: Seq<char>) -> bool {
    exists|i: int|
        0 <= i < components(p).len() && (#[trigger] components(p)[i] == ".."@ || components(p)[i]
            == "."@)
}

/// The relative path that a workspace name stands for.
pub open spec fn workspace_name(name: Seq<char>) -> Result<Seq<char>, Seq<char>> {
    let t = trim(name);
    if t.len() == 0 {
        Err("empty workspace directive"@)
    } else if is_absolute(t) {
        Err("workspace must be a relative path under the workspace root"@)
    } else if unsafe_components(t) {
        Err("workspace contains unsafe path components"@)
    } else {
        Ok(t)
    }
}

/// The directory behind an existing path, if it lies below the root.
pub open spec fn existing_workspace(
    path: Seq<char>,
    root: Seq<char>,
    facts: PathFacts,
    root_canonical: Result<String, String>,
) -> Result<Seq<char>, Seq<char>> {
    if !facts.is_dir {
        Err("workspace is not a directory: "@ + path)
    } else {
        match root_canonical {
            Err(e) => Err("failed to resolve workspace root "@ + root + ": "@ + e@),
            Ok(r) => match facts.canonical {
                Err(e) => Err("failed to resolve workspace "@ + path + ": "@ + e@),
                Ok(c) => if is_under(c@, r@) {
                    Ok(c@)
                } else {
                    Err("workspace is outside the workspace root"@)
                },
            },
        }
    }
}

/// The first of the directories, not before `i`, that exists.
pub open spec fn first_existing(facts: Seq<PathFacts>, i: int) -> Option<int>
    decreases facts.len() - i,
{
    if i < 0 || i >= facts.len() {
        None
    } else if facts[i].exists {
        Some(i)
    } else {
        first_existing(facts, i + 1)
    }
}

/// Whether a missing directory may be created below the root: nothing, or the
/// reason why not.
pub open spec fn creation_refused(
    path: Seq<char>,
    root: Seq<char>,
    facts: WorkspaceFacts,
) -> Option<Seq<char>> {
    match facts.root {
        Err(e) => Some("failed to resolve workspace root "@ + root + ": "@ + e@),
        Ok(r) => match first_existing(facts.ancestors@, 0) {
            None => Some("workspace root does not exist: "@ + root),
            Some(i) => match facts.ancestors@[i].canonical {
                Err(e) => Some(
                    "failed to resolve workspace parent "@ + parents(path)[i] + ": "@ + e@,
                ),
                Ok(c) => if is_under(c@, r@) {
                    None
                } else {
                    Some("workspace parent is outside the workspace root"@)
                },
            },
        },
    }
}

/// What is to be done for a workspace that is requested below `root`.
pub open spec fn requested_workspace(
    request: Workspace,
    root: Seq<char>,
    facts: WorkspaceFacts,
) -> Result<Step, Seq<char>> {
    match workspace_name(request.name) {
        Err(e) => Err(e),
        Ok(rel) => {
            let path = path_join(root, rel);
            if !is_under(path, root) {
                Err("workspace is outside the workspace root"@)
            } else if facts.requested.exists {
                if request.create {
                    Err(
                        "workspace already exists: "@ + path + "; use [[ws:"@ + request.name
                            + "]] for an existing workspace"@,
                    )
                } else {
                    match existing_workspace(path, root, facts.requested, facts.root) {
                        Ok(c) => Ok(Step::Ready(c)),
                        Err(e) => Err(e),
                    }
                }
            } else if !request.create {
                Err(
                    "workspace does not exist: "@ + path + "; use [[ws:"@ + request.name
                        + " --create]] to create it"@,
                )
            } else {
                match creation_refused(path, root, facts) {
                    Some(e) => Err(e),
                    None => Ok(Step::Create(path)),
                }
            }
        },
    }
}

/// Whether a workspace request would be accepted, with nothing created.
pub open spec fn preflight(request: Workspace, root: Seq<char>, facts: WorkspaceFacts) -> Result<
    (),
    Seq<char>,
> {
    match workspace_name(request.name) {
        Err(e) => Err(e),
        Ok(rel) => {
            let path = path_join(root, rel);
            if !is_under(path, root) {
                Err("workspace is outside the workspace root"@)
            } else if facts.requested.exists {
                if request.create {
                    Err(
                        "workspace already exists: "@ + request.name
                            + "; pick it from the list instead of passing create"@,
                    )
                } else {
                    match existing_workspace(path, root, facts.requested, facts.root) {
                        Ok(c) => Ok(()),
                        Err(e) => Err(e),
                    }
                }
            } else if !request.create {
                Err(
                    "workspace does not exist: "@ + request.name
                        + "; pass create: true to create it"@,
                )
            } else {
                match creation_refused(path, root, facts) {
                    Some(e) => Err(e),
                    None => Ok(()),
                }
            }
        },
    }
}

/// The directory that a thread was bound to earlier, if it may still be used.
pub open spec fn persisted_workdir(
    existing: Seq<char>,
    root: Seq<char>,
    facts: PathFacts,
    root_canonical: Result<String, String>,
) -> Result<Seq<char>, Seq<char>> {
    if !facts.is_dir {
        Err(
            "workspace no longer exists: "@ + existing
                + "; recreate it or start a new thread with [[ws:<name>]]"@,
        )
    } else {
        match existing_workspace(existing, root, facts, root_canonical) {
            Ok(c) => Ok(c),
            Err(e) => Err("persisted workspace is invalid: "@ + existing + ": "@ + e),
        }
    }
}

/// Whether a path has a component of one or two dots.
pub fn has_unsafe_components(path: &str) -> (r: bool)
    ensures
        r == unsafe_components(path@),
{
    let parts = path_components(path);
    let mut i: usize = 0;
    while i < parts.len()
        invariant
            i <= parts@.len(),
            texts(parts@) == components(path@),
            forall|j: int|
                0 <= j < i ==> #[trigger] components(path@)[j] != ".."@ && components(path@)[j]
                    != "."@,
        decreases parts@.len() - i,
    {
        let part = chars_of(parts[i].as_str());
        assert(texts(parts@)[i as int] == parts@[i as int]@);
        if is_text(part.as_slice(), "..") || is_text(part.as_slice(), ".") {
            return true;
        }
        i += 1;
    }
    assert(texts(parts@).len() == parts@.len());
    false
}

/// The relative path that a workspace name stands for.
pub fn validate_workspace_name(name: &str) -> (r: Result<String, String>)
    ensures
        res_text(r) == workspace_name(name@),
{
    let chars = chars_of(name);
    let t = string_of(trimmed(chars.as_slice()));
    if t.as_str().unicode_len() == 0 {
        return Err("empty workspace directive".to_string());
    }
    if absolute(t.as_str()) {
        return Err("workspace must be a relative path under the workspace root".to_string());
    }
    if has_unsafe_components(t.as_str()) {
        return Err("workspace contains unsafe path components".to_string());
    }
    Ok(t)
}

/// The directory behind an existing path, if it lies below the root.
pub fn validate_existing_workspace_path(
    path: &str,
    root: &str,
    facts: &PathFacts,
    root_canonical: &Result<String, String>,
) -> (r: Result<String, String>)
    ensures
        res_text(r) == existing_workspace(path@, root@, *facts, *root_canonical),
{
    if !facts.is_dir {
        return Err("workspace is not a directory: ".to_string().concat(path));
    }
    match root_canonical {
        Err(e) => Err(
            "failed to resolve workspace root ".to_string().concat(root).concat(": ").concat(
                e.as_str(),
            ),
        ),
        Ok(r) => match &facts.canonical {
            Err(e) => Err(
                "failed to resolve workspace ".to_string().concat(path).concat(": ").concat(
                    e.as_str(),
                ),
            ),
            Ok(c) => {
                if under(c.as_str(), r.as_str()) {
                    Ok(c.clone())
                } else {
                    Err("workspace is outside the workspace root".to_string())
                }
            },
        },
    }
}

/// The nearest directory above a path that exists.
fn existing_ancestor(facts: &[PathFacts]) -> (r: Option<usize>)
    ensures
        match r {
            Some(i) => first_existing(facts@, 0) == Some(i as int) && i < facts@.len(),
            None => first_existing(facts@, 0) is None,
        },
{
    let mut i: usize = 0;
    while i < facts.len()
        invariant
            i <= facts@.len(),
            first_existing(facts@, 0) == first_existing(facts@, i as int),
        decreases facts@.len() - i,
    {
        if facts[i].exists {
            return Some(i);
        }
        i += 1;
    }
    None
}

/// Whether a missing directory may be created below the root.
fn check_creation(path: &str, root: &str, facts: &WorkspaceFacts) -> (r: Option<String>)
    requires
        facts.ancestors@.len() == parents(path@).len(),
    ensures
        crate::text::opt_text(r) == creation_refused(path@, root@, *facts),
{
    match &facts.root {
        Err(e) => Some(
            "failed to resolve workspace root ".to_string().concat(root).concat(": ").concat(
                e.as_str(),
            ),
        ),
        Ok(r) => match existing_ancestor(facts.ancestors.as_slice()) {
            None => Some("workspace root does not exist: ".to_string().concat(root)),
            Some(i) => match &facts.ancestors[i].canonical {
                Err(e) => {
                    let dirs = path_parents(path);
                    assert(texts(dirs@)[i as int] == dirs@[i as int]@);
                    Some(
                        "failed to resolve workspace parent ".to_string().concat(
                            dirs[i].as_str(),
                        ).concat(": ").concat(e.as_str()),
                    )
                },
                Ok(c) => {
                    if under(c.as_str(), r.as_str()) {
                        None
                    } else {
                        Some("workspace parent is outside the workspace root".to_string())
                    }
                },
            },
        },
    }
}

/// The path that a request points to below `root`; the facts to be gathered are
/// those of this path and of the directories above it.
pub fn requested_workspace_path(request: &WorkspaceRequest, root: &str) -> (r: Result<
    String,
    String,
>)
    ensures
        res_text(r) == (match workspace_name(request@.name) {
            Ok(rel) => Ok::<Seq<char>, Seq<char>>(path_join(root@, rel)),
            Err(e) => Err::<Seq<char>, Seq<char>>(e),
        }),
{
    match validate_workspace_name(request.name()) {
        Ok(rel) => Ok(joined_path(root, rel.as_str())),
        Err(e) => Err(e),
    }
}

/// Facts about as many directories as there are above the requested one.
pub open spec fn facts_match(request: Workspace, root: Seq<char>, facts: WorkspaceFacts) -> bool {
    workspace_name(request.name) matches Ok(rel) ==> facts.ancestors@.len() == parents(
        path_join(root, rel),
    ).len()
}

/// What is to be done for a workspace that is requested below `root`.
pub fn check_requested_workspace(
    request: &WorkspaceRequest,
    root: &str,
    facts: &WorkspaceFacts,
) -> (r: Result<WorkspaceStep, String>)
    requires
        facts_match(request@, root@, *facts),
    ensures
        (match r {
            Ok(s) => Ok::<Step, Seq<char>>(s@),
            Err(e) => Err::<Step, Seq<char>>(e@),
        }) == requested_workspace(request@, root@, *facts),
{
    let rel = match validate_workspace_name(request.name()) {
        Ok(rel) => rel,
        Err(e) => {
            return Err(e);
        },
    };
    let path = joined_path(root, rel.as_str());
    if !under(path.as_str(), root) {
        return Err("workspace is outside the workspace root".to_string());
    }
    if facts.requested.exists {
        if request.creates_missing() {
            return Err(
                "workspace already exists: ".to_string().concat(path.as_str()).concat(
                    "; use [[ws:",
                ).concat(request.name()).concat("]] for an existing workspace"),
            );
        }
        return match validate_existing_workspace_path(
            path.as_str(),
            root,
            &facts.requested,
            &facts.root,
        ) {
            Ok(c) => Ok(WorkspaceStep::Ready(c)),
            Err(e) => Err(e),
        };
    }
    if !request.creates_missing() {
        return Err(
            "workspace does not exist: ".to_string().concat(path.as_str()).concat(
                "; use [[ws:",
            ).concat(request.name()).concat(" --create]] to create it"),
        );
    }
    match check_creation(path.as_str(), root, facts) {
        Some(e) => Err(e),
        None => Ok(WorkspaceStep::Create(path)),
    }
}

/// Whether a workspace request would be accepted, with nothing created.
pub fn check_preflight(request: &WorkspaceRequest, root: &str, facts: &WorkspaceFacts) -> (r:
    Result<(), String>)
    requires
        facts_match(request@, root@, *facts),
    ensures
        (match r {
            Ok(()) => Ok::<(), Seq<char>>(()),
            Err(e) => Err::<(), Seq<char>>(e@),
        }) == preflight(request@, root@, *facts),
{
    let rel = match validate_workspace_name(request.name()) {
        Ok(rel) => rel,
        Err(e) => {
            return Err(e);
        },
    };
    let path = joined_path(root, rel.as_str());
    if !under(path.as_str(), root) {
        return Err("workspace is outside the workspace root".to_string());
    }
    if facts.requested.exists {
        if request.creates_missing() {
            return Err(
                "workspace already exists: ".to_string().concat(request.name()).concat(
                    "; pick it from the list instead of passing create",
                ),
            );
        }
        return match validate_existing_workspace_path(
            path.as_str(),
            root,
            &facts.requested,
            &facts.root,
        ) {
            Ok(_) => Ok(()),
            Err(e) => Err(e),
        };
    }
    if !request.creates_missing() {
        return Err(
            "workspace does not exist: ".to_string().concat(request.name()).concat(
                "; pass create: true to create it",
            ),
        );
    }
    match check_creation(path.as_str(), root, facts) {
        Some(e) => Err(e),
        None => Ok(()),
    }
}

/// The directory that a thread was bound to earlier, if it may still be used.
pub fn check_persisted_workdir(
    existing: &str,
    root: &str,
    facts: &PathFacts,
    root_canonical: &Result<String, String>,
) -> (r: Result<String, String>)
    ensures
        res_text(r) == persisted_workdir(existing@, root@, *facts, *root_canonical),
{
    if !facts.is_dir {
        return Err(
            "workspace no longer exists: ".to_string().concat(existing).concat(
                "; recreate it or start a new thread with [[ws:<name>]]",
            ),
        );
    }
    match validate_existing_workspace_path(existing, root, facts, root_canonical) {
        Ok(c) => Ok(c),
        Err(e) => Err(
            "persisted workspace is invalid: ".to_string().concat(existing).concat(": ").concat(
                e.as_str(),
            ),
        ),
    }
}

/// Bytes that stand for themselves in a directory name.
pub open spec fn plain_byte(b: u8) -> bool {
    is_alnum(b as char) || b == 45 || b == 95
}

/// What one byte of a thread id becomes in a directory name.
pub open spec fn thread_byte(b: u8) -> Seq<char> {
    if plain_byte(b) {
        seq![b as char]
    } else {
        seq!['_'] + hex_byte(b)
    }
}

/// The directory name for a thread id: letters, digits, hyphens and underscores
/// are kept, each other byte becomes an underscore and its hexadecimal value.
pub open spec fn thread_component(bytes: Seq<u8>) -> Seq<char>
    decreases bytes.len(),
{
    if bytes.len() == 0 {
        Seq::empty()
    } else {
        thread_component(bytes.drop_last()) + thread_byte(bytes.last())
    }
}

/// The directory name for a thread id; an empty id has none.
pub fn safe_thread_component(thread_id: &str) -> (r: Result<String, String>)
    ensures
        res_text(r) == (if encode_utf8(thread_id@).len() == 0 {
            Err::<Seq<char>, Seq<char>>("invalid thread_id: "@ + thread_id@)
        } else {
            Ok::<Seq<char>, Seq<char>>(thread_component(encode_utf8(thread_id@)))
        }),
{
    let bytes = thread_id.as_bytes();
    let mut out = String::new();
    let mut i: usize = 0;
    while i < bytes.len()
        invariant
            i <= bytes@.len(),
            out@ == thread_component(bytes@.take(i as int)),
        decreases bytes@.len() - i,
    {
        let b: u8 = bytes[i];
        if crate::text::alnum(b as char) || b == 45 || b == 95 {
            out.push(b as char);
        } else {
            out.push('_');
            push_hex_byte(&mut out, b);
        }
        i += 1;
        let ghost t = bytes@.take(i as int);
        assert(t.drop_last() =~= bytes@.take(i - 1));
        assert(t.last() == b);
        assert(out@ =~= thread_component(t));
    }
    assert(bytes@.take(i as int) =~= bytes@);
    if bytes.len() == 0 {
        return Err("invalid thread_id: ".to_string().concat(thread_id));
    }
    Ok(out)
}

/// A directory name for a thread holds only letters, digits, hyphens and
/// underscores, so it names a single directory and never a parent.
pub proof fn law_thread_component_is_safe(bytes: Seq<u8>)
    requires
        bytes.len() > 0,
    ensures
        thread_component(bytes).len() > 0,
        forall|i: int|
            0 <= i < thread_component(bytes).len() ==> ({
                let c = #[trigger] thread_component(bytes)[i];
                is_alnum(c) || c == '-' || c == '_'
            }),
    decreases bytes.len(),
{
    if bytes.len() > 1 {
        law_thread_component_is_safe(bytes.drop_last());
    }
    let b = bytes.last();
    let front = thread_component(bytes.drop_last());
    assert(b / 16 < 16 && b % 16 < 16);
    assert forall|i: int| 0 <= i < thread_component(bytes).len() implies ({
        let c = #[trigger] thread_component(bytes)[i];
        is_alnum(c) || c == '-' || c == '_'
    }) by {
        if i < front.len() {
            assert(front[i] == thread_component(bytes)[i]);
        } else {
            assert(thread_byte(b)[i - front.len()] == thread_component(bytes)[i]);
        }
    }
}

/// The check without side effects accepts exactly what the request itself accepts.
pub proof fn law_preflight_mirrors_request(
    request: Workspace,
    root: Seq<char>,
    facts: WorkspaceFacts,
)
    ensures
        preflight(request, root, facts) is Ok <==> requested_workspace(request, root, facts) is Ok,
{
}

/// A directory is created only on request, and only where the nearest existing
/// directory above it lies below the workspace root.
pub proof fn law_creation_stays_below_root(
    request: Workspace,
    root: Seq<char>,
    facts: WorkspaceFacts,
)
    requires
        requested_workspace(request, root, facts) matches Ok(Step::Create(_)),
    ensures
        request.create,
        !facts.requested.exists,
        facts.root is Ok,
        first_existing(facts.ancestors@, 0) is Some,
        ({
            let a = facts.ancestors@[first_existing(facts.ancestors@, 0)->0];
            a.canonical is Ok && is_under(a.canonical->Ok_0@, facts.root->Ok_0@)
        }),
{
}

/// A workspace that is used lies below the resolved workspace root.
pub proof fn law_workspace_below_root(
    request: Workspace,
    root: Seq<char>,
    facts: WorkspaceFacts,
    cwd: Seq<char>,
)
    requires
        requested_workspace(request, root, facts) == Ok::<Step, Seq<char>>(Step::Ready(cwd)),
    ensures
        facts.root is Ok,
        is_under(cwd, facts.root->Ok_0@),
        facts.requested.is_dir,
        !request.create,
{
}

/// A workspace name is accepted, without the white space around it, where it is a relative
/// path without one or two dots as a component; otherwise the reason is told.
pub proof fn law_workspace_names(name: Seq<char>)
    ensures
        ({
            let t = trim(name);
            let dots = exists|i: int|
                0 <= i < components(t).len() && ((#[trigger] components(t)[i]) == "."@
                    || components(t)[i] == ".."@);
            &&& t.len() == 0 ==> workspace_name(name) == Err::<Seq<char>, Seq<char>>(
                "empty workspace directive"@,
            )
            &&& t.len() > 0 && t[0] == '/' ==> workspace_name(name) == Err::<Seq<char>, Seq<char>>(
                "workspace must be a relative path under the workspace root"@,
            )
            &&& t.len() > 0 && t[0] != '/' && dots ==> workspace_name(name) == Err::<
                Seq<char>,
                Seq<char>,
            >("workspace contains unsafe path components"@)
            &&& t.len() > 0 && t[0] != '/' && !dots ==> workspace_name(name) == Ok::<
                Seq<char>,
                Seq<char>,
            >(t)
        }),
{
}

/// Whether a path is a directory that resolves to one at or below the resolved root.
pub open spec fn usable_below(facts: PathFacts, root: Result<String, String>) -> bool {
    &&& facts.is_dir && facts.canonical is Ok && root is Ok
    &&& is_under(facts.canonical->Ok_0@, root->Ok_0@)
}

/// An existing directory is used, under its resolved path, exactly where it resolves to
/// one at or below the resolved root; otherwise the first reason that applies is told.
pub proof fn law_existing_directory(
    path: Seq<char>,
    root: Seq<char>,
    facts: PathFacts,
    resolved: Result<String, String>,
)
    ensures
        ({
            let r = existing_workspace(path, root, facts, resolved);
            &&& r is Ok <==> usable_below(facts, resolved)
            &&& usable_below(facts, resolved) ==> r == Ok::<Seq<char>, Seq<char>>(
                facts.canonical->Ok_0@,
            )
            &&& !facts.is_dir ==> r == Err::<Seq<char>, Seq<char>>(
                "workspace is not a directory: "@ + path,
            )
            &&& facts.is_dir && resolved is Err ==> r == Err::<Seq<char>, Seq<char>>(
                "failed to resolve workspace root "@ + root + ": "@ + resolved->Err_0@,
            )
            &&& facts.is_dir && resolved is Ok && facts.canonical is Err ==> r == Err::<
                Seq<char>,
                Seq<char>,
            >("failed to resolve workspace "@ + path + ": "@ + facts.canonical->Err_0@)
            &&& facts.is_dir && resolved is Ok && facts.canonical is Ok && !usable_below(
                facts,
                resolved,
            ) ==> r == Err::<Seq<char>, Seq<char>>("workspace is outside the workspace root"@)
        }),
{
}

/// A thread's earlier directory is used exactly where it still is a directory at or below
/// the root; one that is gone, or has moved out, is told apart.
pub proof fn law_earlier_directory(
    existing: Seq<char>,
    root: Seq<char>,
    facts: PathFacts,
    resolved: Result<String, String>,
)
    ensures
        ({
            let r = persisted_workdir(existing, root, facts, resolved);
            &&& usable_below(facts, resolved) ==> r == Ok::<Seq<char>, Seq<char>>(
                facts.canonical->Ok_0@,
            )
            &&& !facts.is_dir ==> r == Err::<Seq<char>, Seq<char>>(
                "workspace no longer exists: "@ + existing
                    + "; recreate it or start a new thread with [[ws:<name>]]"@,
            )
            &&& facts.is_dir && !usable_below(facts, resolved) ==> r == Err::<
                Seq<char>,
                Seq<char>,
            >(
                "persisted workspace is invalid: "@ + existing + ": "@ + existing_workspace(
                    existing,
                    root,
                    facts,
                    resolved,
                )->Err_0,
            )
        }),
{
}

/// The nearest existing directory is the first of the list that exists.
pub proof fn law_nearest_existing(facts: Seq<PathFacts>, k: int)
    requires
        0 <= k < facts.len(),
    ensures
        facts[k].exists && (forall|j: int| 0 <= j < k ==> !(#[trigger] facts[j]).exists)
            ==> first_existing(facts, 0) == Some(k),
        (forall|j: int| 0 <= j < facts.len() ==> !(#[trigger] facts[j]).exists) ==> first_existing(
            facts,
            0,
        ) is None,
{
    lemma_nearest(facts, 0, k);
}

proof fn lemma_nearest(facts: Seq<PathFacts>, i: int, k: int)
    requires
        0 <= i <= facts.len(),
        0 <= k < facts.len(),
    ensures
        i <= k && facts[k].exists && (forall|j: int| i <= j < k ==> !(#[trigger] facts[j]).exists)
            ==> first_existing(facts, i) == Some(k),
        (forall|j: int| i <= j < facts.len() ==> !(#[trigger] facts[j]).exists) ==> first_existing(
            facts,
            i,
        ) is None,
    decreases facts.len() - i,
{
    if i < facts.len() {
        lemma_nearest(facts, i + 1, k);
        assert(facts[i] == facts[i]);
    }
}

/// What comes of a request for a workspace with an acceptable name below the root. One
/// that exists is used where it may be, and refused where it was to be created; one that
/// is missing is created on request, where the nearest directory above it resolves to one
/// at or below the root, and refused otherwise. The check beforehand decides alike.
pub proof fn law_workspace_requests(request: Workspace, root: Seq<char>, facts: WorkspaceFacts)
    requires
        workspace_name(request.name) is Ok,
        is_under(path_join(root, workspace_name(request.name)->Ok_0), root),
    ensures
        ({
            let path = path_join(root, workspace_name(request.name)->Ok_0);
            let r = requested_workspace(request, root, facts);
            let q = preflight(request, root, facts);
            let near = first_existing(facts.ancestors@, 0);
            let above = facts.ancestors@[near->0];
            let safe = facts.root is Ok && near is Some && above.canonical is Ok && is_under(
                above.canonical->Ok_0@,
                facts.root->Ok_0@,
            );
            &&& facts.requested.exists && !request.create && usable_below(
                facts.requested,
                facts.root,
            ) ==> r == Ok::<Step, Seq<char>>(Step::Ready(facts.requested.canonical->Ok_0@))
            &&& facts.requested.exists && !request.create && !usable_below(
                facts.requested,
                facts.root,
            ) ==> r == Err::<Step, Seq<char>>(
                existing_workspace(path, root, facts.requested, facts.root)->Err_0,
            )
            &&& facts.requested.exists && request.create ==> r == Err::<Step, Seq<char>>(
                "workspace already exists: "@ + path + "; use [[ws:"@ + request.name
                    + "]] for an existing workspace"@,
            ) && q == Err::<(), Seq<char>>(
                "workspace already exists: "@ + request.name
                    + "; pick it from the list instead of passing create"@,
            )
            &&& !facts.requested.exists && !request.create ==> r == Err::<Step, Seq<char>>(
                "workspace does not exist: "@ + path + "; use [[ws:"@ + request.name
                    + " --create]] to create it"@,
            ) && q == Err::<(), Seq<char>>(
                "workspace does not exist: "@ + request.name
                    + "; pass create: true to create it"@,
            )
            &&& !facts.requested.exists && request.create && safe ==> r == Ok::<Step, Seq<char>>(
                Step::Create(path),
            ) && q is Ok
            &&& !facts.requested.exists && request.create && !safe ==> r is Err && q is Err
            &&& !facts.requested.exists && request.create && facts.root is Ok && near is Some
                && above.canonical is Ok && !safe ==> r == Err::<Step, Seq<char>>(
                "workspace parent is outside the workspace root"@,
            )
            &&& !facts.requested.exists && request.create && facts.root is Ok && near is None ==> r
                == Err::<Step, Seq<char>>("workspace root does not exist: "@ + root)
        }),
{
}

/// A request with a name that is not acceptable, or that leads out of the root, is refused
/// with that reason, whatever is there.
pub proof fn law_bad_workspace_requests(
    request: Workspace,
    root: Seq<char>,
    facts: WorkspaceFacts,
)
    ensures
        workspace_name(request.name) matches Err(e) ==> requested_workspace(request, root, facts)
            == Err::<Step, Seq<char>>(e) && preflight(request, root, facts) == Err::<
            (),
            Seq<char>,
        >(e),
        workspace_name(request.name) is Ok && !is_under(
            path_join(root, workspace_name(request.name)->Ok_0),
            root,
        ) ==> requested_workspace(request, root, facts) == Err::<Step, Seq<char>>(
            "workspace is outside the workspace root"@,
        ) && preflight(request, root, facts) == Err::<(), Seq<char>>(
            "workspace is outside the workspace root"@,
        ),
{
}

/// A thread's directory name is made byte by byte: letters, digits, hyphens and
/// underscores stand for themselves, each other byte for an underscore and its two
/// hexadecimal digits.
pub proof fn law_thread_directory_name(a: Seq<u8>, b: Seq<u8>, x: u8)
    ensures
        thread_component(Seq::empty()) == Seq::<char>::empty(),
        thread_component(a + b) == thread_component(a) + thread_component(b),
        thread_component(seq![x]) == (if (97 <= x <= 122) || (65 <= x <= 90) || (48 <= x <= 57) || x
            == 45 || x == 95 {
            seq![x as char]
        } else {
            seq!['_', crate::text::hex_char((x / 16) as nat), crate::text::hex_char(
                (x % 16) as nat,
            )]
        }),
    decreases b.len(),
{
    assert(seq![x].drop_last() =~= Seq::<u8>::empty());
    assert(thread_component(seq![x].drop_last()) =~= Seq::<char>::empty());
    assert(plain_byte(x) <==> (97 <= x <= 122) || (65 <= x <= 90) || (48 <= x <= 57) || x == 45 || x
        == 95);
    assert(thread_component(seq![x]) =~= thread_byte(x));
    assert(thread_byte(x) =~= (if plain_byte(x) {
        seq![x as char]
    } else {
        seq!['_', crate::text::hex_char((x / 16) as nat), crate::text::hex_char((x % 16) as nat)]
    }));
    if b.len() == 0 {
        assert(a + b =~= a);
        assert(thread_component(a) + thread_component(b) =~= thread_component(a));
    } else {
        assert((a + b).drop_last() =~= a + b.drop_last());
        law_thread_directory_name(a, b.drop_last(), x);
        assert(thread_component(a + b) =~= thread_component(a) + thread_component(b));
    }
}

/// A directory that cannot be looked up is named with the reason: the root first, then the
/// nearest directory above the new one that exists.
pub proof fn law_unresolved_directories(
    request: Workspace,
    root: Seq<char>,
    facts: WorkspaceFacts,
    i: int,
)
    requires
        workspace_name(request.name) is Ok,
        is_under(path_join(root, workspace_name(request.name)->Ok_0), root),
        !facts.requested.exists,
        request.create,
    ensures
        ({
            let path = path_join(root, workspace_name(request.name)->Ok_0);
            let r = requested_workspace(request, root, facts);
            let q = preflight(request, root, facts);
            &&& r is Err <==> q is Err
            &&& r is Err ==> r->Err_0 == q->Err_0
            &&& facts.root matches Err(e) ==> r == Err::<Step, Seq<char>>(
                "failed to resolve workspace root "@ + root + ": "@ + e@,
            )
            &&& facts.root is Ok && first_existing(facts.ancestors@, 0) == Some(i) && (
            facts.ancestors@[i].canonical is Err) ==> r == Err::<Step, Seq<char>>(
                "failed to resolve workspace parent "@ + parents(path)[i] + ": "@
                    + facts.ancestors@[i].canonical->Err_0@,
            )
        }),
{
}

} // verus!
