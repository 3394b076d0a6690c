//! Settings that the bridge's logic reads.

use vstd::prelude::*;

verus! {

/// How tool activity is shown in a reply.
#[derive(Clone, Copy, Debug, PartialEq, Eq, Structural)]
pub enum ToolDisplay {
    /// One line per tool call.
    Full,
    /// A count of calls by state.
    Compact,
    /// Nothing.
    Hidden,
}

/// Uploads of files that an agent names in its output.
#[derive(Debug)]
pub struct AgentAttachmentsConfig {
    pub enabled: bool,
    /// Directories whose files may be uploaded.
    pub allowed_paths: Vec<String>,
    pub max_files: usize,
    pub max_file_bytes: u64,
    pub max_total_bytes: u64,
}

/// A workspace that a user asks for by name.
#[derive(Debug, PartialEq, Eq)]
pub enum WorkspaceRequest {
    /// A directory that must exist.
    Existing(String),
    /// A directory that is created where it is missing.
    Create(String),
}

/// What a workspace request says.
pub struct Workspace {
    pub name: Seq<char>,
    pub create: bool,
}

impl View for WorkspaceRequest {
    type V = Workspace;

    open spec fn view(&self) -> Workspace {
        match self {
            WorkspaceRequest::Existing(name) => Workspace { name: name@, create: false },
            WorkspaceRequest::Create(name) => Workspace { name: name@, create: true },
        }
    }
}

impl Clone for WorkspaceRequest {
    fn clone(&self) -> (r: Self)
        ensures
            r@ == self@,
    {
        match self {
            WorkspaceRequest::Existing(name) => WorkspaceRequest::Existing(name.clone()),
            WorkspaceRequest::Create(name) => WorkspaceRequest::Create(name.clone()),
        }
    }
}

impl WorkspaceRequest {
    /// The requested name.
    pub fn name(&self) -> (r: &str)
        ensures
            r@ == self@.name,
    {
        match self {
            WorkspaceRequest::Existing(name) => name.as_str(),
            WorkspaceRequest::Create(name) => name.as_str(),
        }
    }

    /// Whether a missing directory is created.
    pub fn creates_missing(&self) -> (r: bool)
        ensures
            r == self@.create,
    {
        match self {
            WorkspaceRequest::Existing(_) => false,
            WorkspaceRequest::Create(_) => true,
        }
    }
}

/// Where workspaces live.
#[derive(Debug)]
pub struct WorkspaceConfig {
    /// The directory that holds all workspaces; without it workspaces are off.
    pub root: Option<String>,
    /// Whether every thread must name a workspace.
    pub required: bool,
}

/// How messages of one thread are grouped into turns.
#[derive(Clone, Copy, Debug, PartialEq, Eq, Structural)]
pub enum MessageProcessingMode {
    /// Each message is a turn of its own.
    Message,
    /// The messages of a thread share turns.
    Thread,
    /// The messages of each sender in a thread share turns.
    Lane,
}

/// Bindings of threads to workspaces that several agents share.
#[derive(Debug)]
pub struct ThreadBindingConfig {
    pub enabled: bool,
    /// The name under which this agent is known in profiles.
    pub agent_name: Option<String>,
    pub store_dir: Option<String>,
    pub channel_profiles: Vec<ChannelProfileConfig>,
}

/// A channel whose threads work in one directory.
#[derive(Debug)]
pub struct ChannelProfileConfig {
    pub profile_id: String,
    pub guild_id: String,
    pub parent_channel_id: String,
    pub work_domain: String,
    pub workspace_root: String,
    pub allowed_agents: Vec<String>,
    pub agents: Vec<ChannelProfileAgentConfig>,
}

/// An agent of such a channel.
#[derive(Debug)]
pub struct ChannelProfileAgentConfig {
    pub name: String,
    pub aliases: Vec<String>,
    pub discord_user_id: Option<String>,
    pub discord_role_id: Option<String>,
    pub handoff_hint: Option<String>,
}

/// What a failed hook means for the program.
#[derive(Clone, Copy, Debug, PartialEq, Eq, Structural)]
pub enum OnFailure {
    /// The program stops.
    Abort,
    /// The program goes on.
    Warn,
}

/// A script that runs at a point of the program's life. Exactly one of `script`,
/// `inline` and `url` is to be set.
#[derive(Debug)]
pub struct HookConfig {
    /// A file.
    pub script: Option<String>,
    /// The script itself.
    pub inline: Option<String>,
    /// Where the script is fetched from.
    pub url: Option<String>,
    /// The digest of a fetched script.
    pub sha256: Option<String>,
    /// How long the script may run; zero for any time.
    pub timeout_seconds: u64,
    pub on_failure: OnFailure,
}

/// The emoji for each status of a turn.
#[derive(Debug)]
pub struct ReactionEmojis {
    pub queued: String,
    pub thinking: String,
    pub tool: String,
    pub coding: String,
    pub web: String,
    pub done: String,
    pub error: String,
}

impl Clone for ReactionEmojis {
    fn clone(&self) -> (r: Self)
        ensures
            r.queued@ == self.queued@,
            r.thinking@ == self.thinking@,
            r.tool@ == self.tool@,
            r.coding@ == self.coding@,
            r.web@ == self.web@,
            r.done@ == self.done@,
            r.error@ == self.error@,
    {
        ReactionEmojis {
            queued: self.queued.clone(),
            thinking: self.thinking.clone(),
            tool: self.tool.clone(),
            coding: self.coding.clone(),
            web: self.web.clone(),
            done: self.done.clone(),
            error: self.error.clone(),
        }
    }
}

/// How long statuses last, in milliseconds.
#[derive(Clone, Copy, Debug, PartialEq, Eq, Structural)]
pub struct ReactionTiming {
    /// Statuses that change faster are not shown.
    pub debounce_ms: u64,
    /// From when on a turn without news counts as slow.
    pub stall_soft_ms: u64,
    /// From when on a turn without news counts as stuck.
    pub stall_hard_ms: u64,
    /// How long the final status of a turn stays.
    pub done_hold_ms: u64,
    /// How long the final status of a failed turn stays.
    pub error_hold_ms: u64,
}

/// Status reactions.
#[derive(Debug)]
pub struct ReactionsConfig {
    pub enabled: bool,
    /// Whether the final status is taken away after a while.
    pub remove_after_reply: bool,
    pub emojis: ReactionEmojis,
    pub timing: ReactionTiming,
    pub tool_display: ToolDisplay,
}

} // verus!
