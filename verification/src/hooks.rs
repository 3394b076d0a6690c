//! Scripts that run when the program starts or stops.

use vstd::prelude::*;
use vstd::utf8::{decode_utf8, valid_utf8};

use crate::config::{HookConfig, OnFailure};
use crate::paths::{absolute, is_absolute};
use crate::text::{
    chars_of, decimal, has_prefix, hex_text, is_text, lowercase, render_hex, render_u64,
    render_usize, starts_with,
};

verus! {

/// Maximum size for a remote hook script (1 MiB).
pub const MAX_SCRIPT_SIZE: usize = 1_048_576;

/// The number of sources that a hook names.
pub open spec fn source_count(hook: HookConfig) -> nat {
    (if hook.script is Some { 1nat } else { 0 }) + (if hook.inline is Some { 1nat } else { 0 })
        + (if hook.url is Some { 1nat } else { 0 })
}

/// What is wrong with a hook's configuration; nothing if it is usable.
pub open spec fn hook_problem(name: Seq<char>, hook: HookConfig) -> Option<Seq<char>> {
    let n = source_count(hook);
    if n == 0 {
        Some("hooks."@ + name + ": exactly one of script, inline, or url must be set"@)
    } else if n > 1 {
        Some(
            "hooks."@ + name + ": only one of script, inline, or url may be set (found "@ + decimal(
                n,
            ) + ")"@,
        )
    } else if hook.url is Some && hook.sha256 is None {
        Some("hooks."@ + name + ": sha256 is required when using url"@)
    } else if hook.script is Some && !is_absolute(hook.script->0@) {
        Some("hooks."@ + name + ": script path must be absolute, got: "@ + hook.script->0@)
    } else {
        None
    }
}

/// Validate hook config at parse time.
pub fn validate_hook(name: &str, hook: &HookConfig) -> (r: Result<(), String>)
    ensures
        match r {
            Ok(()) => hook_problem(name@, *hook) is None,
            Err(e) => hook_problem(name@, *hook) == Some(e@),
        },
{
    let mut count: usize = 0;
    if hook.script.is_some() {
        count += 1;
    }
    if hook.inline.is_some() {
        count += 1;
    }
    if hook.url.is_some() {
        count += 1;
    }
    let label = "hooks.".to_string().concat(name);
    if count == 0 {
        return Err(label.concat(": exactly one of script, inline, or url must be set"));
    }
    if count > 1 {
        return Err(
            label.concat(": only one of script, inline, or url may be set (found ").concat(
                render_usize(count).as_str(),
            ).concat(")"),
        );
    }
    if hook.url.is_some() && hook.sha256.is_none() {
        return Err(label.concat(": sha256 is required when using url"));
    }
    if let Some(path) = &hook.script {
        if !absolute(path.as_str()) {
            return Err(
                label.concat(": script path must be absolute, got: ").concat(path.as_str()),
            );
        }
    }
    Ok(())
}

/// Where a hook's script comes from.
#[derive(Debug)]
pub enum ScriptSource {
    /// A file, which must exist.
    File(String),
    /// A text, which is written to a temporary file.
    Inline(String),
    /// A download, which must have the given digest.
    Fetch { url: String, sha256: String },
}

/// What a source says.
pub enum Source {
    File(Seq<char>),
    Inline(Seq<char>),
    Fetch(Seq<char>, Seq<char>),
}

impl View for ScriptSource {
    type V = Source;

    open spec fn view(&self) -> Source {
        match self {
            ScriptSource::File(p) => Source::File(p@),
            ScriptSource::Inline(c) => Source::Inline(c@),
            ScriptSource::Fetch { url, sha256 } => Source::Fetch(url@, sha256@),
        }
    }
}

/// The source of a hook's script; a hook that names none is not configured.
pub open spec fn source_of(hook: HookConfig) -> Option<Source> {
    if hook.script is Some {
        Some(Source::File(hook.script->0@))
    } else if hook.inline is Some {
        Some(Source::Inline(hook.inline->0@))
    } else if hook.url is Some {
        Some(Source::Fetch(hook.url->0@, hook.sha256->0@))
    } else {
        None
    }
}

/// Whether a hook that is fetched has a digest to hold it against.
pub open spec fn digest_given(hook: HookConfig) -> bool {
    hook.script is None && hook.inline is None && hook.url is Some ==> hook.sha256 is Some
}

/// The source of a hook's script; nothing where there is nothing to run.
pub fn resolve_script(hook: &HookConfig) -> (r: Option<ScriptSource>)
    requires
        digest_given(*hook),
    ensures
        (match r {
            Some(s) => Some(s@),
            None => None,
        }) == source_of(*hook),
{
    if let Some(path) = &hook.script {
        return Some(ScriptSource::File(path.clone()));
    }
    if let Some(content) = &hook.inline {
        return Some(ScriptSource::Inline(content.clone()));
    }
    if let Some(url) = &hook.url {
        if let Some(sha256) = &hook.sha256 {
            return Some(ScriptSource::Fetch { url: url.clone(), sha256: sha256.clone() });
        }
    }
    None
}

/// A validated hook has a source, and a digest where it is fetched.
pub proof fn law_valid_hook_resolves(name: Seq<char>, hook: HookConfig)
    requires
        hook_problem(name, hook) is None,
    ensures
        digest_given(hook),
        source_of(hook) is Some,
{
}

/// What is said of a script file that does not exist.
pub fn script_not_found(name: &str, path: &str) -> (out: String)
    ensures
        out@ == "hooks."@ + name@ + ": script not found: "@ + path@,
{
    "hooks.".to_string().concat(name).concat(": script not found: ").concat(path)
}

/// How the names of temporary script files begin.
pub fn temp_script_prefix(name: &str) -> (out: String)
    ensures
        out@ == "openab-hook-"@ + name@ + "-"@,
{
    "openab-hook-".to_string().concat(name).concat("-")
}

/// What is said of a script that is too large.
pub open spec fn too_large(size: nat) -> Seq<char> {
    "hook script too large: "@ + decimal(size) + " bytes (max "@ + decimal(
        MAX_SCRIPT_SIZE as nat,
    ) + ")"@
}

/// Refuses a script of which the server says that it is too large.
pub fn check_script_size(size: u64) -> (r: Result<(), String>)
    ensures
        match r {
            Ok(()) => size <= MAX_SCRIPT_SIZE,
            Err(e) => size > MAX_SCRIPT_SIZE && e@ == too_large(size as nat),
        },
{
    if size > MAX_SCRIPT_SIZE as u64 {
        Err(
            "hook script too large: ".to_string().concat(render_u64(size).as_str()).concat(
                " bytes (max ",
            ).concat(render_usize(MAX_SCRIPT_SIZE).as_str()).concat(")"),
        )
    } else {
        Ok(())
    }
}

/// The SHA-256 digest of some bytes.
pub uninterp spec fn sha256_digest(body: Seq<u8>) -> Seq<u8>;

/// `sha2::Sha256::digest`: the 32 bytes of the digest.
#[verifier::external_body]
fn sha256(body: &[u8]) -> (out: Vec<u8>)
    ensures
        out@ == sha256_digest(body@),
        out@.len() == 32,
{
    <sha2::Sha256 as sha2::Digest>::digest(body).to_vec()
}

/// `String::from_utf8`: the text of valid UTF-8, and an error for anything else.
/// Nothing is claimed of the error's text.
#[verifier::external_body]
fn utf8_text(body: &[u8]) -> (r: Result<String, String>)
    ensures
        match r {
            Ok(s) => valid_utf8(body@) && s@ == decode_utf8(body@),
            Err(_) => !valid_utf8(body@),
        },
{
    String::from_utf8(body.to_vec()).map_err(|e| e.to_string())
}

/// Whether a fetched script is taken, given its digest and the lower-case form of
/// the expected one: it must be small enough, have the digest, and be text.
pub fn accept_script(body: &[u8], digest: &[u8], expected: &str, expected_lower: &str) -> (r: Result<
    String,
    String,
>)
    ensures
        match r {
            Ok(s) => {
                &&& body@.len() <= MAX_SCRIPT_SIZE
                &&& hex_text(digest@) == expected_lower@
                &&& valid_utf8(body@) && s@ == decode_utf8(body@)
            },
            Err(e) => {
                ||| body@.len() > MAX_SCRIPT_SIZE && e@ == too_large(body@.len())
                ||| body@.len() <= MAX_SCRIPT_SIZE && hex_text(digest@) != expected_lower@ && e@
                    == "hook sha256 mismatch: expected "@ + expected@ + ", got "@ + hex_text(
                    digest@,
                )
                ||| body@.len() <= MAX_SCRIPT_SIZE && hex_text(digest@) == expected_lower@
                    && !valid_utf8(body@)
            },
        },
{
    match check_script_size(body.len() as u64) {
        Ok(()) => {},
        Err(e) => {
            return Err(e);
        },
    }
    let actual = render_hex(digest);
    let wanted = chars_of(expected_lower);
    if !is_text(wanted.as_slice(), actual.as_str()) {
        return Err(
            "hook sha256 mismatch: expected ".to_string().concat(expected).concat(
                ", got ",
            ).concat(actual.as_str()),
        );
    }
    utf8_text(body)
}

/// The text of a fetched script, whose digest must be the expected one.
pub fn verify_script(body: &[u8], expected: &str) -> (r: Result<String, String>)
    ensures
        match r {
            Ok(s) => {
                &&& body@.len() <= MAX_SCRIPT_SIZE
                &&& hex_text(sha256_digest(body@)) == lowercase(expected@)
                &&& valid_utf8(body@) && s@ == decode_utf8(body@)
            },
            Err(e) => {
                ||| body@.len() > MAX_SCRIPT_SIZE && e@ == too_large(body@.len())
                ||| body@.len() <= MAX_SCRIPT_SIZE && hex_text(sha256_digest(body@)) != lowercase(
                    expected@,
                ) && e@ == "hook sha256 mismatch: expected "@ + expected@ + ", got "@ + hex_text(
                    sha256_digest(body@),
                )
                ||| body@.len() <= MAX_SCRIPT_SIZE && hex_text(sha256_digest(body@)) == lowercase(
                    expected@,
                ) && !valid_utf8(body@)
            },
        },
{
    let digest = sha256(body);
    accept_script(body, digest.as_slice(), expected, expected.to_lowercase().as_str())
}

/// Whether a hook sees an environment variable besides the basic ones: those of
/// cloud credentials and of the bootstrap.
pub open spec fn passes_env(key: Seq<char>) -> bool {
    ||| has_prefix(key, "AWS_"@)
    ||| has_prefix(key, "AMAZON_"@)
    ||| has_prefix(key, "ECS_CONTAINER_METADATA_URI"@)
    ||| has_prefix(key, "GOOGLE_"@)
    ||| has_prefix(key, "GCLOUD_"@)
    ||| has_prefix(key, "CLOUDSDK_"@)
    ||| has_prefix(key, "AZURE_"@)
    ||| key == "BOOTSTRAP_URI"@
    ||| key == "BOOTSTRAP_BASE_URI"@
    ||| key == "BOOTSTRAP_PERSONAL_URI"@
    ||| key == "STATE_BUCKET"@
    ||| key == "TASK_FAMILY"@
    ||| key == "OPENAB_AGENT_NAME"@
    ||| key == "OPENAB_BACKEND_AGENT"@
}

/// The variables of a hook's basic environment, on Windows or elsewhere.
pub open spec fn basic_env_names(windows: bool) -> Seq<Seq<char>> {
    if windows {
        seq!["HOME"@, "PATH"@, "USERPROFILE"@, "USERNAME"@, "SystemRoot"@, "SystemDrive"@]
    } else {
        seq!["HOME"@, "PATH"@, "USER"@]
    }
}

/// The variables of a hook's basic environment, in the order in which they are set.
pub fn basic_env(windows: bool) -> (out: Vec<&'static str>)
    ensures
        out@.map_values(|s: &'static str| s@) == basic_env_names(windows),
{
    let out: Vec<&'static str> = if windows {
        vec!["HOME", "PATH", "USERPROFILE", "USERNAME", "SystemRoot", "SystemDrive"]
    } else {
        vec!["HOME", "PATH", "USER"]
    };
    assert(out@.map_values(|s: &'static str| s@) =~= basic_env_names(windows));
    out
}

/// Whether a hook sees an environment variable, on Windows or elsewhere.
pub fn hook_sees_env(key: &str, windows: bool) -> (r: bool)
    ensures
        r == (basic_env_names(windows).contains(key@) || passes_env(key@)),
{
    let chars = chars_of(key);
    let k = chars.as_slice();
    let names = basic_env(windows);
    let ghost want = basic_env_names(windows);
    let mut i: usize = 0;
    while i < names.len()
        invariant
            i <= names@.len(),
            k@ == key@,
            want == basic_env_names(windows),
            want == names@.map_values(|s: &'static str| s@),
            forall|j: int| 0 <= j < i ==> want[j] != key@,
        decreases names@.len() - i,
    {
        if is_text(k, names[i]) {
            assert(want[i as int] == key@);
            return true;
        }
        assert(want[i as int] == names@[i as int]@);
        i += 1;
    }
    starts_with(k, "AWS_") || starts_with(k, "AMAZON_") || starts_with(
        k,
        "ECS_CONTAINER_METADATA_URI",
    ) || starts_with(k, "GOOGLE_") || starts_with(k, "GCLOUD_") || starts_with(k, "CLOUDSDK_")
        || starts_with(k, "AZURE_") || is_text(k, "BOOTSTRAP_URI") || is_text(
        k,
        "BOOTSTRAP_BASE_URI",
    ) || is_text(k, "BOOTSTRAP_PERSONAL_URI") || is_text(k, "STATE_BUCKET") || is_text(
        k,
        "TASK_FAMILY",
    ) || is_text(k, "OPENAB_AGENT_NAME") || is_text(k, "OPENAB_BACKEND_AGENT")
}

/// How a hook's process ended.
#[derive(Debug)]
pub enum HookExit {
    Success,
    /// It failed, with this status.
    Failed(String),
    /// It could not be waited for.
    WaitError(String),
    /// It ran for too long and was killed.
    TimedOut,
}

/// What came of a hook with the given time limit.
pub open spec fn exit_problem(exit: HookExit, timeout_secs: u64) -> Option<Seq<char>> {
    match exit {
        HookExit::Success => None,
        HookExit::Failed(status) => Some("hook exited with "@ + status@),
        HookExit::WaitError(e) => if timeout_secs == 0 {
            Some(e@)
        } else {
            Some("hook process error: "@ + e@)
        },
        HookExit::TimedOut => Some(
            "hook timed out after "@ + decimal(timeout_secs as nat) + "s"@,
        ),
    }
}

/// What came of a hook with the given time limit.
pub fn hook_outcome(exit: HookExit, timeout_secs: u64) -> (r: Result<(), String>)
    ensures
        match r {
            Ok(()) => exit_problem(exit, timeout_secs) is None,
            Err(e) => exit_problem(exit, timeout_secs) == Some(e@),
        },
{
    match exit {
        HookExit::Success => Ok(()),
        HookExit::Failed(status) => Err("hook exited with ".to_string().concat(status.as_str())),
        HookExit::WaitError(e) => {
            if timeout_secs == 0 {
                Err(e)
            } else {
                Err("hook process error: ".to_string().concat(e.as_str()))
            }
        },
        HookExit::TimedOut => Err(
            "hook timed out after ".to_string().concat(render_u64(timeout_secs).as_str()).concat(
                "s",
            ),
        ),
    }
}

/// What a failed hook means: its error, or nothing where failures are only warned
/// about.
pub fn handle_failure(policy: OnFailure, err: String) -> (r: Result<(), String>)
    ensures
        match r {
            Ok(()) => policy == OnFailure::Warn,
            Err(e) => policy == OnFailure::Abort && e@ == err@,
        },
{
    match policy {
        OnFailure::Abort => Err(err),
        OnFailure::Warn => Ok(()),
    }
}

/// The result of running a hook, given what came of its script, if it has one: success
/// where the script succeeded or the hook is not configured; a failure counts only
/// where the policy is to abort.
pub fn hook_result(hook: &HookConfig, outcome: Result<(), String>) -> (r: Result<(), String>)
    ensures
        source_of(*hook) is None ==> r is Ok,
        source_of(*hook) is Some ==> match (outcome, r) {
            (Ok(()), Ok(())) => true,
            (Ok(()), Err(_)) => false,
            (Err(_), Ok(())) => hook.on_failure == OnFailure::Warn,
            (Err(e), Err(f)) => hook.on_failure == OnFailure::Abort && f@ == e@,
        },
{
    if hook.script.is_none() && hook.inline.is_none() && hook.url.is_none() {
        return Ok(());
    }
    match outcome {
        Ok(()) => Ok(()),
        Err(e) => handle_failure(hook.on_failure, e),
    }
}

/// A hook is usable exactly where it names one source, a fetched one with its digest and a
/// file by an absolute path; otherwise the first thing that is wrong is told.
pub proof fn law_usable_hooks(name: Seq<char>, hook: HookConfig)
    ensures
        ({
            let n: int = (if hook.script is Some { 1int } else { 0 }) + (if hook.inline is Some {
                1int
            } else {
                0
            }) + (if hook.url is Some { 1int } else { 0 });
            let r = hook_problem(name, hook);
            let relative = hook.script is Some && (hook.script->0@.len() == 0 || hook.script->0@[0]
                != '/');
            &&& r is None <==> n == 1 && (hook.url is Some ==> hook.sha256 is Some) && !relative
            &&& n == 0 ==> r == Some(
                "hooks."@ + name + ": exactly one of script, inline, or url must be set"@,
            )
            &&& n > 1 ==> r == Some(
                "hooks."@ + name + ": only one of script, inline, or url may be set (found "@
                    + decimal(n as nat) + ")"@,
            )
            &&& n == 1 && hook.url is Some && hook.sha256 is None ==> r == Some(
                "hooks."@ + name + ": sha256 is required when using url"@,
            )
            &&& n == 1 && relative ==> r == Some(
                "hooks."@ + name + ": script path must be absolute, got: "@ + hook.script->0@,
            )
        }),
{
}

/// A file comes before a text, and a text before a download; a hook without any of them
/// has nothing to run.
pub proof fn law_hook_source(hook: HookConfig)
    ensures
        hook.script matches Some(p) ==> source_of(hook) == Some(Source::File(p@)),
        hook.script is None && hook.inline is Some ==> source_of(hook) == Some(
            Source::Inline(hook.inline->0@),
        ),
        hook.script is None && hook.inline is None && hook.url is Some ==> source_of(hook) == Some(
            Source::Fetch(hook.url->0@, hook.sha256->0@),
        ),
        hook.script is None && hook.inline is None && hook.url is None ==> source_of(hook) is None,
{
}

/// A hook succeeds exactly where its process does; every other end is told.
pub proof fn law_hook_ends(text: String, timeout_secs: u64)
    ensures
        exit_problem(HookExit::Success, timeout_secs) is None,
        exit_problem(HookExit::Failed(text), timeout_secs) == Some("hook exited with "@ + text@),
        timeout_secs > 0 ==> exit_problem(HookExit::WaitError(text), timeout_secs) == Some(
            "hook process error: "@ + text@,
        ),
        exit_problem(HookExit::WaitError(text), 0) == Some(text@),
        exit_problem(HookExit::TimedOut, timeout_secs) == Some(
            "hook timed out after "@ + decimal(timeout_secs as nat) + "s"@,
        ),
{
}

/// Besides its basic environment a hook sees the variables of cloud credentials, by the
/// beginning of their names, and those of the bootstrap, by their whole names.
pub proof fn law_hook_environment(key: Seq<char>)
    ensures
        passes_env(key) <==> {
            ||| has_prefix(key, "AWS_"@)
            ||| has_prefix(key, "AMAZON_"@)
            ||| has_prefix(key, "ECS_CONTAINER_METADATA_URI"@)
            ||| has_prefix(key, "GOOGLE_"@)
            ||| has_prefix(key, "GCLOUD_"@)
            ||| has_prefix(key, "CLOUDSDK_"@)
            ||| has_prefix(key, "AZURE_"@)
            ||| key == "BOOTSTRAP_URI"@
            ||| key == "BOOTSTRAP_BASE_URI"@
            ||| key == "BOOTSTRAP_PERSONAL_URI"@
            ||| key == "STATE_BUCKET"@
            ||| key == "TASK_FAMILY"@
            ||| key == "OPENAB_AGENT_NAME"@
            ||| key == "OPENAB_BACKEND_AGENT"@
        },
        basic_env_names(false).len() == 3 && basic_env_names(true).len() == 6,
        forall|windows: bool|
            (#[trigger] basic_env_names(windows))[0] == "HOME"@ && basic_env_names(windows)[1]
                == "PATH"@,
        basic_env_names(false)[2] == "USER"@,
        basic_env_names(true)[2] == "USERPROFILE"@ && basic_env_names(true)[3] == "USERNAME"@,
        basic_env_names(true)[4] == "SystemRoot"@ && basic_env_names(true)[5] == "SystemDrive"@,
{
}

/// What is said of a script that is too large.
pub proof fn law_size_message(size: nat)
    ensures
        too_large(size) == "hook script too large: "@ + decimal(size) + " bytes (max "@ + decimal(
            1_048_576,
        ) + ")"@,
        MAX_SCRIPT_SIZE == 1_048_576,
{
}

} // verus!
