//! Which workspace a chat thread is bound to, and which of several agents leads it.

use vstd::prelude::*;

use crate::config::{ChannelProfileAgentConfig, ChannelProfileConfig, ThreadBindingConfig};
use crate::paths::{is_under, joined_path, path_join, under};
use crate::table::Table;
use crate::text::{chars_of, contains, copy_opt, copy_texts, has, opt_text, texts};

verus! {

/// The profiles file below the store directory.
pub const CHANNEL_PROFILES_FILE: &'static str = "channel-profiles.json";

/// The bindings file below the store directory.
pub const THREAD_BINDINGS_FILE: &'static str = "thread-bindings.json";

/// The lock file below the store directory.
pub const THREAD_BINDINGS_LOCK: &'static str = "thread-bindings.lock";

/// The age in seconds from which a lock is taken to be left behind. A healthy
/// holder keeps the lock only for one read-modify-write of a small file.
pub const LOCK_STALE_SECS: u64 = 30;

/// How often the lock is tried.
pub const LOCK_ATTEMPTS: u32 = 250;

/// An agent of a channel.
#[derive(Debug, PartialEq, Eq)]
pub struct ChannelProfileAgent {
    pub name: String,
    pub aliases: Vec<String>,
    pub discord_user_id: Option<String>,
    pub discord_role_id: Option<String>,
    pub handoff_hint: Option<String>,
}

/// What an agent entry says.
pub struct Agent {
    pub name: Seq<char>,
    pub aliases: Seq<Seq<char>>,
    pub user_id: Option<Seq<char>>,
    pub role_id: Option<Seq<char>>,
    pub hint: Option<Seq<char>>,
}

impl View for ChannelProfileAgent {
    type V = Agent;

    open spec fn view(&self) -> Agent {
        Agent {
            name: self.name@,
            aliases: texts(self.aliases@),
            user_id: opt_text(self.discord_user_id),
            role_id: opt_text(self.discord_role_id),
            hint: opt_text(self.handoff_hint),
        }
    }
}

/// What a list of agents says.
pub open spec fn agents_of(v: Seq<ChannelProfileAgent>) -> Seq<Agent> {
    v.map_values(|a: ChannelProfileAgent| a@)
}

impl Clone for ChannelProfileAgent {
    fn clone(&self) -> (r: Self)
        ensures
            r@ == self@,
    {
        ChannelProfileAgent {
            name: self.name.clone(),
            aliases: copy_texts(self.aliases.as_slice()),
            discord_user_id: copy_opt(&self.discord_user_id),
            discord_role_id: copy_opt(&self.discord_role_id),
            handoff_hint: copy_opt(&self.handoff_hint),
        }
    }
}

/// A channel whose threads work below one directory.
#[derive(Debug, PartialEq, Eq)]
pub struct ChannelProfile {
    pub profile_id: String,
    pub guild_id: String,
    pub parent_channel_id: String,
    pub work_domain: String,
    pub workspace_root: String,
    pub allowed_agents: Vec<String>,
    pub agents: Vec<ChannelProfileAgent>,
}

/// What a profile says.
pub struct Profile {
    pub profile_id: Seq<char>,
    pub guild_id: Seq<char>,
    pub parent_channel_id: Seq<char>,
    pub work_domain: Seq<char>,
    pub workspace_root: Seq<char>,
    pub allowed: Seq<Seq<char>>,
    pub agents: Seq<Agent>,
}

impl View for ChannelProfile {
    type V = Profile;

    open spec fn view(&self) -> Profile {
        Profile {
            profile_id: self.profile_id@,
            guild_id: self.guild_id@,
            parent_channel_id: self.parent_channel_id@,
            work_domain: self.work_domain@,
            workspace_root: self.workspace_root@,
            allowed: texts(self.allowed_agents@),
            agents: agents_of(self.agents@),
        }
    }
}

/// What a list of profiles says.
pub open spec fn profiles_of(v: Seq<ChannelProfile>) -> Seq<Profile> {
    v.map_values(|p: ChannelProfile| p@)
}

/// A copy of a list of agents.
fn copy_agents(v: &[ChannelProfileAgent]) -> (out: Vec<ChannelProfileAgent>)
    ensures
        agents_of(out@) == agents_of(v@),
{
    let mut out: Vec<ChannelProfileAgent> = Vec::new();
    let mut i: usize = 0;
    while i < v.len()
        invariant
            i <= v@.len(),
            agents_of(out@) == agents_of(v@).take(i as int),
        decreases v@.len() - i,
    {
        let ghost before = out@;
        out.push(v[i].clone());
        i += 1;
        assert(agents_of(out@) =~= agents_of(before).push(v@[i - 1]@));
        assert(agents_of(v@).take(i as int) =~= agents_of(v@).take(i - 1).push(v@[i - 1]@));
    }
    assert(agents_of(v@).take(i as int) =~= agents_of(v@));
    out
}

impl Clone for ChannelProfile {
    fn clone(&self) -> (r: Self)
        ensures
            r@ == self@,
    {
        ChannelProfile {
            profile_id: self.profile_id.clone(),
            guild_id: self.guild_id.clone(),
            parent_channel_id: self.parent_channel_id.clone(),
            work_domain: self.work_domain.clone(),
            workspace_root: self.workspace_root.clone(),
            allowed_agents: copy_texts(self.allowed_agents.as_slice()),
            agents: copy_agents(self.agents.as_slice()),
        }
    }
}

/// What an agent's configuration says.
pub open spec fn configured_agent(c: ChannelProfileAgentConfig) -> Agent {
    Agent {
        name: c.name@,
        aliases: texts(c.aliases@),
        user_id: opt_text(c.discord_user_id),
        role_id: opt_text(c.discord_role_id),
        hint: opt_text(c.handoff_hint),
    }
}

/// An agent of which only the name is known.
pub open spec fn bare_agent(name: Seq<char>) -> Agent {
    Agent { name, aliases: Seq::empty(), user_id: None, role_id: None, hint: None }
}

/// What a profile's configuration says: where it lists no allowed agents, all its
/// agents are allowed; where it lists no agents, the allowed ones are its agents.
pub open spec fn configured_profile(c: ChannelProfileConfig) -> Profile {
    let agents = c.agents@.map_values(|a: ChannelProfileAgentConfig| configured_agent(a));
    let allowed = if c.allowed_agents@.len() == 0 {
        agents.map_values(|a: Agent| a.name)
    } else {
        texts(c.allowed_agents@)
    };
    Profile {
        profile_id: c.profile_id@,
        guild_id: c.guild_id@,
        parent_channel_id: c.parent_channel_id@,
        work_domain: c.work_domain@,
        workspace_root: c.workspace_root@,
        allowed,
        agents: if agents.len() == 0 {
            allowed.map_values(|n: Seq<char>| bare_agent(n))
        } else {
            agents
        },
    }
}

impl From<ChannelProfileAgentConfig> for ChannelProfileAgent {
    fn from(value: ChannelProfileAgentConfig) -> (r: Self) {
        ChannelProfileAgent {
            name: value.name,
            aliases: value.aliases,
            discord_user_id: value.discord_user_id,
            discord_role_id: value.discord_role_id,
            handoff_hint: value.handoff_hint,
        }
    }
}

impl vstd::std_specs::convert::FromSpecImpl<ChannelProfileAgentConfig> for ChannelProfileAgent {
    open spec fn obeys_from_spec() -> bool {
        true
    }

    open spec fn from_spec(value: ChannelProfileAgentConfig) -> Self {
        ChannelProfileAgent {
            name: value.name,
            aliases: value.aliases,
            discord_user_id: value.discord_user_id,
            discord_role_id: value.discord_role_id,
            handoff_hint: value.handoff_hint,
        }
    }
}

impl ChannelProfileAgent {
    /// An agent of which only the name is known.
    pub fn name_only(name: &str) -> (r: Self)
        ensures
            r@ == bare_agent(name@),
    {
        let r = ChannelProfileAgent {
            name: name.to_string(),
            aliases: Vec::new(),
            discord_user_id: None,
            discord_role_id: None,
            handoff_hint: None,
        };
        assert(texts(r.aliases@) =~= Seq::<Seq<char>>::empty());
        r
    }
}

impl vstd::std_specs::convert::FromSpecImpl<ChannelProfileConfig> for ChannelProfile {
    open spec fn obeys_from_spec() -> bool {
        false
    }

    open spec fn from_spec(value: ChannelProfileConfig) -> Self {
        arbitrary()
    }
}

impl From<ChannelProfileConfig> for ChannelProfile {
    fn from(value: ChannelProfileConfig) -> (r: Self)
        ensures
            r@ == configured_profile(value),
    {
        let ghost want = configured_profile(value);
        let ghost listed = value.agents@.map_values(
            |a: ChannelProfileAgentConfig| configured_agent(a),
        );
        let mut agents: Vec<ChannelProfileAgent> = Vec::new();
        let mut names: Vec<String> = Vec::new();
        let mut i: usize = 0;
        while i < value.agents.len()
            invariant
                i <= value.agents@.len(),
                listed == value.agents@.map_values(
                    |a: ChannelProfileAgentConfig| configured_agent(a),
                ),
                agents_of(agents@) == listed.take(i as int),
                texts(names@) == listed.map_values(|a: Agent| a.name).take(i as int),
            decreases value.agents@.len() - i,
        {
            let c = &value.agents[i];
            let a = ChannelProfileAgent {
                name: c.name.clone(),
                aliases: copy_texts(c.aliases.as_slice()),
                discord_user_id: copy_opt(&c.discord_user_id),
                discord_role_id: copy_opt(&c.discord_role_id),
                handoff_hint: copy_opt(&c.handoff_hint),
            };
            let ghost x = a@;
            let ghost before = agents@;
            let ghost names_before = names@;
            assert(x == listed[i as int]);
            names.push(c.name.clone());
            agents.push(a);
            assert(agents_of(agents@) =~= agents_of(before).push(x));
            assert(listed.take(i + 1) =~= listed.take(i as int).push(x));
            let ghost all_names = listed.map_values(|a: Agent| a.name);
            assert(texts(names@) =~= texts(names_before).push(x.name));
            assert(all_names.take(i + 1) =~= all_names.take(i as int).push(x.name));
            i += 1;
        }
        assert(listed.take(i as int) =~= listed);
        assert(listed.map_values(|a: Agent| a.name).take(i as int) =~= listed.map_values(
            |a: Agent| a.name,
        ));
        let allowed = if value.allowed_agents.len() == 0 {
            names
        } else {
            copy_texts(value.allowed_agents.as_slice())
        };
        assert(texts(allowed@) == want.allowed);
        if agents.len() == 0 {
            assert(agents_of(agents@).len() == 0);
            let mut k: usize = 0;
            let ghost bare = want.allowed.map_values(|n: Seq<char>| bare_agent(n));
            assert(agents_of(agents@) =~= bare.take(0));
            while k < allowed.len()
                invariant
                    k <= allowed@.len(),
                    texts(allowed@) == want.allowed,
                    bare == want.allowed.map_values(|n: Seq<char>| bare_agent(n)),
                    agents_of(agents@) == bare.take(k as int),
                decreases allowed@.len() - k,
            {
                let ghost before = agents@;
                let a = ChannelProfileAgent::name_only(allowed[k].as_str());
                let ghost x = a@;
                assert(want.allowed[k as int] == allowed@[k as int]@);
                agents.push(a);
                assert(agents_of(agents@) =~= agents_of(before).push(x));
                assert(bare.take(k + 1) =~= bare.take(k as int).push(bare[k as int]));
                k += 1;
            }
            assert(bare.take(k as int) =~= bare);
        }
        assert(agents_of(agents@) == want.agents);
        ChannelProfile {
            profile_id: value.profile_id,
            guild_id: value.guild_id,
            parent_channel_id: value.parent_channel_id,
            work_domain: value.work_domain,
            workspace_root: value.workspace_root,
            allowed_agents: allowed,
            agents,
        }
    }
}

/// A thread that is bound to a workspace.
#[derive(Debug, PartialEq, Eq)]
pub struct ThreadBinding {
    pub platform: String,
    pub guild_id: String,
    pub parent_channel_id: String,
    pub thread_id: String,
    pub workspace_name: String,
    pub resolved_cwd: String,
    pub created_by_agent: String,
    pub created_by_user_id: String,
    pub trigger_message_id: String,
    pub created_at: String,
    pub primary_bot: Option<String>,
    pub primary_bot_discord_user_id: Option<String>,
    pub primary_updated_by: Option<String>,
    pub primary_updated_at: Option<String>,
    pub primary_update_message_id: Option<String>,
}

/// What a binding says.
pub struct Binding {
    pub platform: Seq<char>,
    pub guild_id: Seq<char>,
    pub parent_channel_id: Seq<char>,
    pub thread_id: Seq<char>,
    pub workspace_name: Seq<char>,
    pub resolved_cwd: Seq<char>,
    pub created_by_agent: Seq<char>,
    pub created_by_user_id: Seq<char>,
    pub trigger_message_id: Seq<char>,
    pub created_at: Seq<char>,
    pub primary_bot: Option<Seq<char>>,
    pub primary_user_id: Option<Seq<char>>,
    pub primary_updated_by: Option<Seq<char>>,
    pub primary_updated_at: Option<Seq<char>>,
    pub primary_update_message_id: Option<Seq<char>>,
}

impl View for ThreadBinding {
    type V = Binding;

    open spec fn view(&self) -> Binding {
        Binding {
            platform: self.platform@,
            guild_id: self.guild_id@,
            parent_channel_id: self.parent_channel_id@,
            thread_id: self.thread_id@,
            workspace_name: self.workspace_name@,
            resolved_cwd: self.resolved_cwd@,
            created_by_agent: self.created_by_agent@,
            created_by_user_id: self.created_by_user_id@,
            trigger_message_id: self.trigger_message_id@,
            created_at: self.created_at@,
            primary_bot: opt_text(self.primary_bot),
            primary_user_id: opt_text(self.primary_bot_discord_user_id),
            primary_updated_by: opt_text(self.primary_updated_by),
            primary_updated_at: opt_text(self.primary_updated_at),
            primary_update_message_id: opt_text(self.primary_update_message_id),
        }
    }
}

impl Clone for ThreadBinding {
    fn clone(&self) -> (r: Self)
        ensures
            r@ == self@,
    {
        ThreadBinding {
            platform: self.platform.clone(),
            guild_id: self.guild_id.clone(),
            parent_channel_id: self.parent_channel_id.clone(),
            thread_id: self.thread_id.clone(),
            workspace_name: self.workspace_name.clone(),
            resolved_cwd: self.resolved_cwd.clone(),
            created_by_agent: self.created_by_agent.clone(),
            created_by_user_id: self.created_by_user_id.clone(),
            trigger_message_id: self.trigger_message_id.clone(),
            created_at: self.created_at.clone(),
            primary_bot: copy_opt(&self.primary_bot),
            primary_bot_discord_user_id: copy_opt(&self.primary_bot_discord_user_id),
            primary_updated_by: copy_opt(&self.primary_updated_by),
            primary_updated_at: copy_opt(&self.primary_updated_at),
            primary_update_message_id: copy_opt(&self.primary_update_message_id),
        }
    }
}

/// The agent that leads a thread: the one named so, else the one that bound it.
pub open spec fn effective_primary(b: Binding) -> Seq<char> {
    match b.primary_bot {
        Some(p) => p,
        None => b.created_by_agent,
    }
}

impl ThreadBinding {
    /// The agent that leads the thread.
    pub fn effective_primary_bot(&self) -> (r: &str)
        ensures
            r@ == effective_primary(self@),
    {
        match &self.primary_bot {
            Some(p) => p.as_str(),
            None => self.created_by_agent.as_str(),
        }
    }
}

/// Who asks for a new leading agent.
#[derive(Debug, PartialEq, Eq)]
pub enum PrimaryUpdateActor {
    Human { user_id: String },
    Bot { user_id: String },
}

impl Clone for PrimaryUpdateActor {
    fn clone(&self) -> (r: Self)
        ensures
            match (*self, r) {
                (
                    PrimaryUpdateActor::Human { user_id: a },
                    PrimaryUpdateActor::Human { user_id: b },
                ) => a@ == b@,
                (
                    PrimaryUpdateActor::Bot { user_id: a },
                    PrimaryUpdateActor::Bot { user_id: b },
                ) => a@ == b@,
                _ => false,
            },
    {
        match self {
            PrimaryUpdateActor::Human { user_id } => PrimaryUpdateActor::Human {
                user_id: user_id.clone(),
            },
            PrimaryUpdateActor::Bot { user_id } => PrimaryUpdateActor::Bot {
                user_id: user_id.clone(),
            },
        }
    }
}

/// The thread that a message belongs to.
#[derive(Debug, PartialEq, Eq)]
pub struct ThreadBindingContext {
    pub platform: String,
    pub guild_id: Option<String>,
    pub parent_channel_id: Option<String>,
    pub thread_id: String,
    pub created_by_user_id: Option<String>,
    pub trigger_message_id: Option<String>,
}

impl Clone for ThreadBindingContext {
    fn clone(&self) -> (r: Self)
        ensures
            r.platform@ == self.platform@,
            opt_text(r.guild_id) == opt_text(self.guild_id),
            opt_text(r.parent_channel_id) == opt_text(self.parent_channel_id),
            r.thread_id@ == self.thread_id@,
            opt_text(r.created_by_user_id) == opt_text(self.created_by_user_id),
            opt_text(r.trigger_message_id) == opt_text(self.trigger_message_id),
    {
        ThreadBindingContext {
            platform: self.platform.clone(),
            guild_id: copy_opt(&self.guild_id),
            parent_channel_id: copy_opt(&self.parent_channel_id),
            thread_id: self.thread_id.clone(),
            created_by_user_id: copy_opt(&self.created_by_user_id),
            trigger_message_id: copy_opt(&self.trigger_message_id),
        }
    }
}

/// All bindings, by platform and thread.
#[derive(Debug)]
pub struct ThreadBindings {
    table: Table<ThreadBinding>,
}

impl View for ThreadBindings {
    type V = Map<Seq<char>, Binding>;

    closed spec fn view(&self) -> Map<Seq<char>, Binding> {
        self.table@.map_values(|b: ThreadBinding| b@)
    }
}

impl ThreadBindings {
    /// No bindings.
    pub fn new() -> (r: Self)
        ensures
            r@ == Map::<Seq<char>, Binding>::empty(),
    {
        let r = ThreadBindings { table: Table::new() };
        assert(r@ =~= Map::<Seq<char>, Binding>::empty());
        r
    }

    /// The binding with the given key.
    pub fn get(&self, key: &str) -> (r: Option<&ThreadBinding>)
        ensures
            match r {
                Some(b) => self@.contains_key(key@) && b@ == self@[key@],
                None => !self@.contains_key(key@),
            },
    {
        self.table.get(key)
    }

    /// Puts a binding under the given key.
    pub fn insert(&mut self, key: &str, b: ThreadBinding)
        ensures
            final(self)@ == old(self)@.insert(key@, b@),
    {
        self.table.insert(key, b);
        assert(self@ =~= old(self)@.insert(key@, b@));
    }

    /// All bindings with their keys.
    pub fn entries(&self) -> (out: Vec<(String, ThreadBinding)>)
        ensures
            out@.len() == self@.len(),
            forall|i: int|
                0 <= i < out@.len() ==> self@.contains_key((#[trigger] out@[i]).0@)
                    && self@[out@[i].0@] == out@[i].1@,
            forall|i: int, j: int|
                0 <= i < j < out@.len() ==> (#[trigger] out@[i]).0@ != (#[trigger] out@[j]).0@,
    {
        let n: usize = self.table.len();
        assert(self@.dom() =~= self.table@.dom());
        let mut out: Vec<(String, ThreadBinding)> = Vec::new();
        let mut i: usize = 0;
        while i < n
            invariant
                i <= n,
                n == self.table.order().len(),
                self.table.order().no_duplicates(),
                out@.len() == i,
                forall|j: int|
                    0 <= j < i ==> (#[trigger] out@[j]).0@ == self.table.order()[j]
                        && self.table@.contains_key(out@[j].0@) && self.table@[out@[j].0@]@
                        == out@[j].1@,
            decreases n - i,
        {
            let (k, b) = self.table.entry(i);
            out.push((k.to_string(), b.clone()));
            i += 1;
        }
        out
    }
}

/// What the file system says of a profile's directory and of a thread's directory
/// in it: the resolved paths, or why there are none.
#[derive(Debug)]
pub struct CwdFacts {
    pub root: Result<String, String>,
    pub cwd: Result<String, String>,
    pub is_dir: bool,
}

/// Why a thread may not work in `cwd`; nothing if it may.
pub open spec fn cwd_refused(p: Profile, cwd: Seq<char>, facts: CwdFacts) -> Option<Seq<char>> {
    match facts.root {
        Err(e) => Some(
            "failed to resolve ChannelProfile workspace root "@ + p.workspace_root + ": "@ + e@,
        ),
        Ok(root) => match facts.cwd {
            Err(e) => Some("failed to resolve thread binding cwd "@ + cwd + ": "@ + e@),
            Ok(c) => if !facts.is_dir {
                Some("thread binding cwd is not a directory"@)
            } else if is_under(c@, root@) {
                None
            } else {
                Some("thread binding cwd is outside the ChannelProfile workspace root"@)
            },
        },
    }
}

/// The first profile, not before `i`, of the given channel.
pub open spec fn profile_index(
    ps: Seq<Profile>,
    guild: Seq<char>,
    parent: Seq<char>,
    i: int,
) -> Option<int>
    decreases ps.len() - i,
{
    if i < 0 || i >= ps.len() {
        None
    } else if ps[i].guild_id == guild && ps[i].parent_channel_id == parent {
        Some(i)
    } else {
        profile_index(ps, guild, parent, i + 1)
    }
}

/// The profile of the channel that a thread belongs to.
pub open spec fn matching(ps: Seq<Profile>, ctx: ThreadBindingContext) -> Result<
    Profile,
    Seq<char>,
> {
    match ctx.guild_id {
        None => Err("missing guild id for channel profile lookup"@),
        Some(guild) => match ctx.parent_channel_id {
            None => Err("missing parent channel id for channel profile lookup"@),
            Some(parent) => match profile_index(ps, guild@, parent@, 0) {
                None => Err("no ChannelProfile matches this Discord channel"@),
                Some(i) => Ok(ps[i]),
            },
        },
    }
}

/// The profile of a thread's channel, if the agent may work there.
pub open spec fn allowed_profile(
    agent: Seq<char>,
    ps: Seq<Profile>,
    ctx: ThreadBindingContext,
) -> Result<Profile, Seq<char>> {
    match matching(ps, ctx) {
        Err(e) => Err(e),
        Ok(p) => if p.allowed.contains(agent) {
            Ok(p)
        } else {
            Err("agent "@ + agent + " is not allowed in ChannelProfile "@ + p.profile_id)
        },
    }
}

/// The first agent, not before `i`, with the given name.
pub open spec fn named_agent(agents: Seq<Agent>, name: Seq<char>, i: int) -> Option<Agent>
    decreases agents.len() - i,
{
    if i < 0 || i >= agents.len() {
        None
    } else if agents[i].name == name {
        Some(agents[i])
    } else {
        named_agent(agents, name, i + 1)
    }
}

/// The first agent, not before `i`, with the given user id.
pub open spec fn user_agent(agents: Seq<Agent>, user: Seq<char>, i: int) -> Option<Agent>
    decreases agents.len() - i,
{
    if i < 0 || i >= agents.len() {
        None
    } else if agents[i].user_id == Some(user) {
        Some(agents[i])
    } else {
        user_agent(agents, user, i + 1)
    }
}

/// The user id of the agent with the given name, if it has one.
pub open spec fn agent_user_id(agents: Seq<Agent>, name: Seq<char>) -> Option<Seq<char>> {
    match named_agent(agents, name, 0) {
        Some(a) => a.user_id,
        None => None,
    }
}

/// A binding with its leading agent filled in.
pub open spec fn with_defaults(b: Binding, p: Profile) -> Binding {
    Binding {
        primary_bot: Some(effective_primary(b)),
        primary_user_id: match b.primary_user_id {
            Some(u) => Some(u),
            None => agent_user_id(p.agents, effective_primary(b)),
        },
        ..b
    }
}

/// The key of a thread's binding.
pub open spec fn key_of(platform: Seq<char>, thread: Seq<char>) -> Seq<char> {
    platform + ":"@ + thread
}

/// The text of an optional string, empty where there is none.
pub open spec fn or_empty(v: Option<String>) -> Seq<char> {
    match v {
        Some(s) => s@,
        None => Seq::empty(),
    }
}

/// The binding that an agent records for a thread at the time `at`.
pub open spec fn new_binding(
    agent: Seq<char>,
    p: Profile,
    ctx: ThreadBindingContext,
    workspace: Seq<char>,
    cwd: Seq<char>,
    at: Seq<char>,
) -> Binding {
    Binding {
        platform: ctx.platform@,
        guild_id: or_empty(ctx.guild_id),
        parent_channel_id: or_empty(ctx.parent_channel_id),
        thread_id: ctx.thread_id@,
        workspace_name: workspace,
        resolved_cwd: cwd,
        created_by_agent: agent,
        created_by_user_id: or_empty(ctx.created_by_user_id),
        trigger_message_id: or_empty(ctx.trigger_message_id),
        created_at: at,
        primary_bot: Some(agent),
        primary_user_id: agent_user_id(p.agents, agent),
        primary_updated_by: Some("agent:"@ + agent),
        primary_updated_at: Some(at),
        primary_update_message_id: opt_text(ctx.trigger_message_id),
    }
}

/// What comes of recording a binding: whether the bindings change, or why it is
/// refused.
pub open spec fn record_result(
    agent: Seq<char>,
    ps: Seq<Profile>,
    bindings: Map<Seq<char>, Binding>,
    ctx: ThreadBindingContext,
    cwd: Seq<char>,
    facts: CwdFacts,
) -> Result<bool, Seq<char>> {
    let key = key_of(ctx.platform@, ctx.thread_id@);
    match allowed_profile(agent, ps, ctx) {
        Err(e) => Err(e),
        Ok(p) => match cwd_refused(p, cwd, facts) {
            Some(e) => Err(e),
            None => if !bindings.contains_key(key) {
                Ok(true)
            } else if bindings[key].resolved_cwd != cwd {
                Err(
                    "thread already has workspace "@ + bindings[key].resolved_cwd
                        + "; start a new thread to change workspace"@,
                )
            } else {
                Ok(false)
            },
        },
    }
}

/// The bindings after recording one at the time `at`.
pub open spec fn recorded(
    agent: Seq<char>,
    ps: Seq<Profile>,
    bindings: Map<Seq<char>, Binding>,
    ctx: ThreadBindingContext,
    workspace: Seq<char>,
    cwd: Seq<char>,
    facts: CwdFacts,
    at: Seq<char>,
) -> Map<Seq<char>, Binding> {
    if record_result(agent, ps, bindings, ctx, cwd, facts) == Ok::<bool, Seq<char>>(true) {
        bindings.insert(
            key_of(ctx.platform@, ctx.thread_id@),
            new_binding(agent, matching(ps, ctx)->Ok_0, ctx, workspace, cwd, at),
        )
    } else {
        bindings
    }
}

/// The binding of a thread in the profile's channel, if it may be used.
pub open spec fn usable_binding(
    p: Profile,
    bindings: Map<Seq<char>, Binding>,
    ctx: ThreadBindingContext,
    facts: CwdFacts,
) -> Result<Option<Binding>, Seq<char>> {
    let key = key_of(ctx.platform@, ctx.thread_id@);
    if !bindings.contains_key(key) {
        Ok(None)
    } else if bindings[key].parent_channel_id != p.parent_channel_id {
        Err("thread binding parent channel mismatch"@)
    } else {
        match cwd_refused(p, bindings[key].resolved_cwd, facts) {
            Some(e) => Err(e),
            None => Ok(Some(with_defaults(bindings[key], p))),
        }
    }
}

/// The binding of a thread.
pub open spec fn lookup(
    agent: Seq<char>,
    ps: Seq<Profile>,
    bindings: Map<Seq<char>, Binding>,
    ctx: ThreadBindingContext,
    facts: CwdFacts,
) -> Result<Option<Binding>, Seq<char>> {
    match allowed_profile(agent, ps, ctx) {
        Err(e) => Err(e),
        Ok(p) => usable_binding(p, bindings, ctx, facts),
    }
}

/// Whether the agent leads a thread. One that runs under another account than its
/// profile says does not.
pub open spec fn is_primary(
    agent: Seq<char>,
    ps: Seq<Profile>,
    bindings: Map<Seq<char>, Binding>,
    ctx: ThreadBindingContext,
    user: Seq<char>,
    facts: CwdFacts,
) -> Result<bool, Seq<char>> {
    match allowed_profile(agent, ps, ctx) {
        Err(e) => Err(e),
        Ok(p) => if agent_user_id(p.agents, agent) is Some && agent_user_id(p.agents, agent)->0
            != user {
            Ok(false)
        } else {
            match usable_binding(p, bindings, ctx, facts) {
                Err(e) => Err(e),
                Ok(None) => Ok(false),
                Ok(Some(b)) => Ok(effective_primary(b) == agent),
            }
        },
    }
}

/// Whether a text mentions an agent by its user or role id.
pub open spec fn mentions_agent(content: Seq<char>, a: Agent) -> bool {
    ||| a.user_id matches Some(u) && (contains(content, "<@"@ + u + ">"@) || contains(
        content,
        "<@!"@ + u + ">"@,
    ))
    ||| a.role_id matches Some(r) && contains(content, "<@&"@ + r + ">"@)
}

/// Whether a text mentions one of several agents.
pub open spec fn mentions_any(content: Seq<char>, agents: Seq<Agent>) -> bool {
    exists|i: int| 0 <= i < agents.len() && mentions_agent(content, #[trigger] agents[i])
}

/// Who a change of the leading agent is ascribed to, or why it is refused: a bot
/// must lead the thread itself.
pub open spec fn handover_by(p: Profile, b: Binding, actor: PrimaryUpdateActor) -> Result<
    Seq<char>,
    Seq<char>,
> {
    match actor {
        PrimaryUpdateActor::Human { user_id } => Ok("user:"@ + user_id@),
        PrimaryUpdateActor::Bot { user_id } => match user_agent(p.agents, user_id@, 0) {
            None => Err("handover author bot is not in ChannelProfile"@),
            Some(a) => if a.name != effective_primary(b) {
                Err("only the current primary bot can hand over"@)
            } else {
                Ok("agent:"@ + a.name)
            },
        },
    }
}

/// The binding of a thread whose lead the agent takes over at the time `at`, or why
/// it may not.
pub open spec fn handover(
    agent: Seq<char>,
    ps: Seq<Profile>,
    bindings: Map<Seq<char>, Binding>,
    ctx: ThreadBindingContext,
    target: Seq<char>,
    actor: PrimaryUpdateActor,
    message_id: Seq<char>,
    facts: CwdFacts,
    at: Seq<char>,
) -> Result<Binding, Seq<char>> {
    match allowed_profile(agent, ps, ctx) {
        Err(e) => Err(e),
        Ok(p) => match user_agent(p.agents, target, 0) {
            None => Err("handover target is not in ChannelProfile"@),
            Some(t) => if t.name != agent {
                Err("handover target does not match this agent"@)
            } else {
                match usable_binding(p, bindings, ctx, facts) {
                    Err(e) => Err(e),
                    Ok(None) => Err("thread is not bound to a workspace"@),
                    Ok(Some(b)) => match handover_by(p, b, actor) {
                        Err(e) => Err(e),
                        Ok(by) => Ok(
                            Binding {
                                primary_bot: Some(t.name),
                                primary_user_id: t.user_id,
                                primary_updated_by: Some(by),
                                primary_updated_at: Some(at),
                                primary_update_message_id: Some(message_id),
                                ..b
                            },
                        ),
                    },
                }
            },
        },
    }
}

/// Whether `r` and `after` are what comes of a handover at the time `at`: the bindings
/// change only where it succeeds.
pub open spec fn handed_over_at(
    agent: Seq<char>,
    ps: Seq<Profile>,
    before: Map<Seq<char>, Binding>,
    after: Map<Seq<char>, Binding>,
    ctx: ThreadBindingContext,
    target: Seq<char>,
    actor: PrimaryUpdateActor,
    message_id: Seq<char>,
    facts: CwdFacts,
    r: Result<ThreadBinding, String>,
    at: Seq<char>,
) -> bool {
    match (handover(agent, ps, before, ctx, target, actor, message_id, facts, at), r) {
        (Ok(want), Ok(b)) => b@ == want && after == before.insert(
            key_of(ctx.platform@, ctx.thread_id@),
            want,
        ),
        (Err(want), Err(e)) => e@ == want && after == before,
        _ => false,
    }
}

/// Whether `r` and `after` are what comes of a handover at some time.
pub open spec fn handed_over(
    agent: Seq<char>,
    ps: Seq<Profile>,
    before: Map<Seq<char>, Binding>,
    after: Map<Seq<char>, Binding>,
    ctx: ThreadBindingContext,
    target: Seq<char>,
    actor: PrimaryUpdateActor,
    message_id: Seq<char>,
    facts: CwdFacts,
    r: Result<ThreadBinding, String>,
) -> bool {
    exists|at: Seq<char>| #[trigger]
        handed_over_at(
            agent,
            ps,
            before,
            after,
            ctx,
            target,
            actor,
            message_id,
            facts,
            r,
            at,
        )
}

/// One agent's view of the bindings that several agents share.
#[derive(Debug)]
pub struct ThreadBindingStore {
    store_dir: String,
    agent_name: String,
    profiles: Vec<ChannelProfile>,
}

impl Clone for ThreadBindingStore {
    fn clone(&self) -> (r: Self)
        ensures
            r@ == self@,
    {
        let mut profiles: Vec<ChannelProfile> = Vec::new();
        let mut i: usize = 0;
        while i < self.profiles.len()
            invariant
                i <= self.profiles@.len(),
                profiles_of(profiles@) == profiles_of(self.profiles@).take(i as int),
            decreases self.profiles@.len() - i,
        {
            let ghost before = profiles@;
            let ghost all = profiles_of(self.profiles@);
            profiles.push(self.profiles[i].clone());
            assert(profiles_of(profiles@) =~= profiles_of(before).push(all[i as int]));
            assert(all.take(i + 1) =~= all.take(i as int).push(all[i as int]));
            i += 1;
        }
        assert(profiles_of(self.profiles@).take(i as int) =~= profiles_of(self.profiles@));
        ThreadBindingStore {
            store_dir: self.store_dir.clone(),
            agent_name: self.agent_name.clone(),
            profiles,
        }
    }
}

/// `chrono::Utc::now` in the form of `DateTime::to_rfc3339`: the current time, of
/// which nothing is claimed.
#[verifier::external_body]
fn now_rfc3339() -> (s: String) {
    chrono::Utc::now().to_rfc3339()
}

/// The contents of a lookup result.
pub open spec fn lookup_result(r: Result<Option<ThreadBinding>, String>) -> Result<
    Option<Binding>,
    Seq<char>,
> {
    match r {
        Ok(None) => Ok(None),
        Ok(Some(b)) => Ok(Some(b@)),
        Err(e) => Err(e@),
    }
}

/// The contents of a yes-or-no result.
pub open spec fn flag_result(r: Result<bool, String>) -> Result<bool, Seq<char>> {
    match r {
        Ok(b) => Ok(b),
        Err(e) => Err(e@),
    }
}

/// The agent with the given name.
fn find_named<'a>(agents: &'a [ChannelProfileAgent], name: &str) -> (r: Option<
    &'a ChannelProfileAgent,
>)
    ensures
        (match r {
            Some(a) => Some(a@),
            None => None,
        }) == named_agent(agents_of(agents@), name@, 0),
{
    let wanted = chars_of(name);
    let mut i: usize = 0;
    while i < agents.len()
        invariant
            i <= agents@.len(),
            wanted@ == name@,
            named_agent(agents_of(agents@), name@, 0) == named_agent(
                agents_of(agents@),
                name@,
                i as int,
            ),
        decreases agents@.len() - i,
    {
        assert(agents_of(agents@)[i as int] == agents@[i as int]@);
        if crate::text::is_text(wanted.as_slice(), agents[i].name.as_str()) {
            return Some(&agents[i]);
        }
        i += 1;
    }
    None
}

/// The agent with the given user id.
fn find_user<'a>(agents: &'a [ChannelProfileAgent], user: &str) -> (r: Option<
    &'a ChannelProfileAgent,
>)
    ensures
        (match r {
            Some(a) => Some(a@),
            None => None,
        }) == user_agent(agents_of(agents@), user@, 0),
{
    let wanted = chars_of(user);
    let mut i: usize = 0;
    while i < agents.len()
        invariant
            i <= agents@.len(),
            wanted@ == user@,
            user_agent(agents_of(agents@), user@, 0) == user_agent(
                agents_of(agents@),
                user@,
                i as int,
            ),
        decreases agents@.len() - i,
    {
        assert(agents_of(agents@)[i as int] == agents@[i as int]@);
        if let Some(id) = &agents[i].discord_user_id {
            if crate::text::is_text(wanted.as_slice(), id.as_str()) {
                return Some(&agents[i]);
            }
        }
        i += 1;
    }
    None
}

/// Whether a list holds a text.
fn lists(v: &[String], s: &str) -> (r: bool)
    ensures
        r == texts(v@).contains(s@),
{
    let wanted = chars_of(s);
    let mut i: usize = 0;
    while i < v.len()
        invariant
            i <= v@.len(),
            wanted@ == s@,
            forall|j: int| 0 <= j < i ==> texts(v@)[j] != s@,
        decreases v@.len() - i,
    {
        if crate::text::is_text(wanted.as_slice(), v[i].as_str()) {
            assert(texts(v@)[i as int] == s@);
            return true;
        }
        i += 1;
    }
    false
}

/// Whether a text mentions an agent by its user or role id.
fn content_mentions(content: &[char], a: &ChannelProfileAgent) -> (r: bool)
    ensures
        r == mentions_agent(content@, a@),
{
    if let Some(user) = &a.discord_user_id {
        let plain = "<@".to_string().concat(user.as_str()).concat(">");
        let nick = "<@!".to_string().concat(user.as_str()).concat(">");
        if has(content, plain.as_str()) || has(content, nick.as_str()) {
            return true;
        }
    }
    if let Some(role) = &a.discord_role_id {
        let mention = "<@&".to_string().concat(role.as_str()).concat(">");
        if has(content, mention.as_str()) {
            return true;
        }
    }
    false
}

/// Why a thread may not work in `cwd`; nothing if it may.
fn check_cwd(profile: &ChannelProfile, cwd: &str, facts: &CwdFacts) -> (r: Option<String>)
    ensures
        opt_text(r) == cwd_refused(profile@, cwd@, *facts),
{
    match &facts.root {
        Err(e) => Some(
            "failed to resolve ChannelProfile workspace root ".to_string().concat(
                profile.workspace_root.as_str(),
            ).concat(": ").concat(e.as_str()),
        ),
        Ok(root) => match &facts.cwd {
            Err(e) => Some(
                "failed to resolve thread binding cwd ".to_string().concat(cwd).concat(
                    ": ",
                ).concat(e.as_str()),
            ),
            Ok(c) => {
                if !facts.is_dir {
                    Some("thread binding cwd is not a directory".to_string())
                } else if under(c.as_str(), root.as_str()) {
                    None
                } else {
                    Some(
                        "thread binding cwd is outside the ChannelProfile workspace root".to_string(),
                    )
                }
            },
        },
    }
}

/// The text of an optional string, empty where there is none.
fn unwrap_text(v: &Option<String>) -> (s: String)
    ensures
        s@ == or_empty(*v),
{
    match v {
        Some(s) => s.clone(),
        None => String::new(),
    }
}

/// What a store is set up with.
pub struct StoreSettings {
    pub store_dir: Seq<char>,
    pub agent: Seq<char>,
    pub profiles: Seq<Profile>,
}

impl View for ThreadBindingStore {
    type V = StoreSettings;

    closed spec fn view(&self) -> StoreSettings {
        StoreSettings {
            store_dir: self.store_dir@,
            agent: self.agent_name@,
            profiles: profiles_of(self.profiles@),
        }
    }
}

/// The store that a configuration asks for: below the workspace root unless it
/// names a directory.
pub open spec fn configured_store(c: ThreadBindingConfig, root: Option<Seq<char>>) -> Option<
    StoreSettings,
> {
    let dir = match c.store_dir {
        Some(d) => Some(d@),
        None => match root {
            Some(r) => Some(path_join(r, ".openab"@)),
            None => None,
        },
    };
    if !c.enabled || dir is None {
        None
    } else {
        Some(
            StoreSettings {
                store_dir: dir->0,
                agent: match c.agent_name {
                    Some(n) => n@,
                    None => "default"@,
                },
                profiles: c.channel_profiles@.map_values(
                    |p: ChannelProfileConfig| configured_profile(p),
                ),
            },
        )
    }
}

impl ThreadBindingStore {
    /// The store that a configuration asks for.
    pub fn from_config(config: ThreadBindingConfig, workspace_root: Option<&str>) -> (r: Option<
        Self,
    >)
        ensures
            (match r {
                Some(s) => Some(s@),
                None => None,
            }) == configured_store(
                config,
                match workspace_root {
                    Some(w) => Some(w@),
                    None => None,
                },
            ),
    {
        if !config.enabled {
            return None;
        }
        let store_dir = match (&config.store_dir, workspace_root) {
            (Some(d), _) => d.clone(),
            (None, Some(root)) => joined_path(root, ".openab"),
            (None, None) => {
                return None;
            },
        };
        let agent_name = match &config.agent_name {
            Some(n) => n.clone(),
            None => "default".to_string(),
        };
        let ghost want = config.channel_profiles@.map_values(
            |p: ChannelProfileConfig| configured_profile(p),
        );
        let ghost all = config.channel_profiles@;
        let mut profiles: Vec<ChannelProfile> = Vec::new();
        for c in it: config.channel_profiles
            invariant
                it.seq() == all,
                want == all.map_values(|p: ChannelProfileConfig| configured_profile(p)),
                profiles_of(profiles@) == want.take(it.index() as int),
        {
            let ghost n = it.index() as int;
            let ghost before = profiles@;
            let p = ChannelProfile::from(c);
            let ghost x = p@;
            assert(x == want[n]);
            profiles.push(p);
            assert(profiles_of(profiles@) =~= profiles_of(before).push(x));
            assert(want.take(n + 1) =~= want.take(n).push(want[n]));
        }
        assert(want.take(want.len() as int) =~= want);
        Some(ThreadBindingStore { store_dir, agent_name, profiles })
    }

    /// The profiles of the configuration.
    pub fn profiles(&self) -> (r: &Vec<ChannelProfile>)
        ensures
            profiles_of(r@) == self@.profiles,
    {
        &self.profiles
    }

    /// The directory that holds the shared files.
    pub fn store_dir(&self) -> (r: &str)
        ensures
            r@ == self@.store_dir,
    {
        self.store_dir.as_str()
    }

    /// Where the profiles are kept.
    pub fn channel_profiles_path(&self) -> (r: String)
        ensures
            r@ == path_join(self@.store_dir, CHANNEL_PROFILES_FILE@),
    {
        joined_path(self.store_dir.as_str(), CHANNEL_PROFILES_FILE)
    }

    /// Where the bindings are kept.
    pub fn thread_bindings_path(&self) -> (r: String)
        ensures
            r@ == path_join(self@.store_dir, THREAD_BINDINGS_FILE@),
    {
        joined_path(self.store_dir.as_str(), THREAD_BINDINGS_FILE)
    }

    /// The file that keeps writers apart.
    pub fn lock_path(&self) -> (r: String)
        ensures
            r@ == path_join(self@.store_dir, THREAD_BINDINGS_LOCK@),
    {
        joined_path(self.store_dir.as_str(), THREAD_BINDINGS_LOCK)
    }

    /// The key of a thread's binding.
    pub fn binding_key(platform: &str, thread_id: &str) -> (r: String)
        ensures
            r@ == key_of(platform@, thread_id@),
    {
        platform.to_string().concat(":").concat(thread_id)
    }

    /// The profile of the channel that a thread belongs to.
    pub fn matching_profile<'a>(
        &self,
        profiles: &'a [ChannelProfile],
        ctx: &ThreadBindingContext,
    ) -> (r: Result<&'a ChannelProfile, String>)
        ensures
            (match r {
                Ok(p) => Ok::<Profile, Seq<char>>(p@),
                Err(e) => Err::<Profile, Seq<char>>(e@),
            }) == matching(profiles_of(profiles@), *ctx),
    {
        let guild = match &ctx.guild_id {
            Some(g) => g,
            None => {
                return Err("missing guild id for channel profile lookup".to_string());
            },
        };
        let parent = match &ctx.parent_channel_id {
            Some(p) => p,
            None => {
                return Err("missing parent channel id for channel profile lookup".to_string());
            },
        };
        let mut i: usize = 0;
        let ghost ps = profiles_of(profiles@);
        while i < profiles.len()
            invariant
                i <= profiles@.len(),
                ps == profiles_of(profiles@),
                ctx.guild_id == Some(*guild),
                ctx.parent_channel_id == Some(*parent),
                profile_index(ps, guild@, parent@, 0) == profile_index(
                    ps,
                    guild@,
                    parent@,
                    i as int,
                ),
            decreases profiles@.len() - i,
        {
            assert(ps[i as int] == profiles@[i as int]@);
            if profiles[i].guild_id == *guild && profiles[i].parent_channel_id == *parent {
                return Ok(&profiles[i]);
            }
            i += 1;
        }
        Err("no ChannelProfile matches this Discord channel".to_string())
    }

    fn validate_agent_allowed(&self, profile: &ChannelProfile) -> (r: Option<String>)
        ensures
            opt_text(r) == (if profile@.allowed.contains(self@.agent) {
                None
            } else {
                Some(
                    "agent "@ + self@.agent + " is not allowed in ChannelProfile "@
                        + profile@.profile_id,
                )
            }),
    {
        if lists(profile.allowed_agents.as_slice(), self.agent_name.as_str()) {
            None
        } else {
            Some(
                "agent ".to_string().concat(self.agent_name.as_str()).concat(
                    " is not allowed in ChannelProfile ",
                ).concat(profile.profile_id.as_str()),
            )
        }
    }

    /// The profile of a thread's channel, if this agent may work there.
    fn own_profile<'a>(&self, profiles: &'a [ChannelProfile], ctx: &ThreadBindingContext) -> (r:
        Result<&'a ChannelProfile, String>)
        ensures
            (match r {
                Ok(p) => Ok::<Profile, Seq<char>>(p@),
                Err(e) => Err::<Profile, Seq<char>>(e@),
            }) == allowed_profile(self@.agent, profiles_of(profiles@), *ctx),
    {
        match self.matching_profile(profiles, ctx) {
            Err(e) => Err(e),
            Ok(p) => match self.validate_agent_allowed(p) {
                Some(e) => Err(e),
                None => Ok(p),
            },
        }
    }

    fn with_primary_defaults(&self, binding: ThreadBinding, profile: &ChannelProfile) -> (r:
        ThreadBinding)
        ensures
            r@ == with_defaults(binding@, profile@),
    {
        let mut b = binding;
        if b.primary_bot.is_none() {
            b.primary_bot = Some(b.created_by_agent.clone());
        }
        if b.primary_bot_discord_user_id.is_none() {
            let user = match find_named(profile.agents.as_slice(), b.effective_primary_bot()) {
                Some(a) => copy_opt(&a.discord_user_id),
                None => None,
            };
            b.primary_bot_discord_user_id = user;
        }
        b
    }

    fn usable(
        &self,
        profile: &ChannelProfile,
        bindings: &ThreadBindings,
        ctx: &ThreadBindingContext,
        facts: &CwdFacts,
    ) -> (r: Result<Option<ThreadBinding>, String>)
        ensures
            lookup_result(r) == usable_binding(profile@, bindings@, *ctx, *facts),
    {
        let key = Self::binding_key(ctx.platform.as_str(), ctx.thread_id.as_str());
        match bindings.get(key.as_str()) {
            None => Ok(None),
            Some(b) => {
                if b.parent_channel_id != profile.parent_channel_id {
                    return Err("thread binding parent channel mismatch".to_string());
                }
                match check_cwd(profile, b.resolved_cwd.as_str(), facts) {
                    Some(e) => Err(e),
                    None => Ok(Some(self.with_primary_defaults(b.clone(), profile))),
                }
            },
        }
    }

    /// Records that a thread works in `resolved_cwd`, at the time `at`. Returns
    /// whether the bindings have changed: recording the same directory again
    /// changes nothing, another one is refused.
    pub fn record_binding_at(
        &self,
        profiles: &[ChannelProfile],
        bindings: &mut ThreadBindings,
        ctx: &ThreadBindingContext,
        workspace_name: &str,
        resolved_cwd: &str,
        facts: &CwdFacts,
        at: &str,
    ) -> (r: Result<bool, String>)
        ensures
            flag_result(r) == record_result(
                self@.agent,
                profiles_of(profiles@),
                old(bindings)@,
                *ctx,
                resolved_cwd@,
                *facts,
            ),
            final(bindings)@ == recorded(
                self@.agent,
                profiles_of(profiles@),
                old(bindings)@,
                *ctx,
                workspace_name@,
                resolved_cwd@,
                *facts,
                at@,
            ),
    {
        let profile = match self.own_profile(profiles, ctx) {
            Ok(p) => p,
            Err(e) => {
                return Err(e);
            },
        };
        if let Some(e) = check_cwd(profile, resolved_cwd, facts) {
            return Err(e);
        }
        let key = Self::binding_key(ctx.platform.as_str(), ctx.thread_id.as_str());
        if let Some(existing) = bindings.get(key.as_str()) {
            let cwd = chars_of(resolved_cwd);
            if !crate::text::is_text(cwd.as_slice(), existing.resolved_cwd.as_str()) {
                return Err(
                    "thread already has workspace ".to_string().concat(
                        existing.resolved_cwd.as_str(),
                    ).concat("; start a new thread to change workspace"),
                );
            }
            return Ok(false);
        }
        let user = match find_named(profile.agents.as_slice(), self.agent_name.as_str()) {
            Some(a) => copy_opt(&a.discord_user_id),
            None => None,
        };
        let binding = ThreadBinding {
            platform: ctx.platform.clone(),
            guild_id: unwrap_text(&ctx.guild_id),
            parent_channel_id: unwrap_text(&ctx.parent_channel_id),
            thread_id: ctx.thread_id.clone(),
            workspace_name: workspace_name.to_string(),
            resolved_cwd: resolved_cwd.to_string(),
            created_by_agent: self.agent_name.clone(),
            created_by_user_id: unwrap_text(&ctx.created_by_user_id),
            trigger_message_id: unwrap_text(&ctx.trigger_message_id),
            created_at: at.to_string(),
            primary_bot: Some(self.agent_name.clone()),
            primary_bot_discord_user_id: user,
            primary_updated_by: Some("agent:".to_string().concat(self.agent_name.as_str())),
            primary_updated_at: Some(at.to_string()),
            primary_update_message_id: copy_opt(&ctx.trigger_message_id),
        };
        bindings.insert(key.as_str(), binding);
        Ok(true)
    }

    /// Records that a thread works in `resolved_cwd`, now.
    pub fn record_binding(
        &self,
        profiles: &[ChannelProfile],
        bindings: &mut ThreadBindings,
        ctx: &ThreadBindingContext,
        workspace_name: &str,
        resolved_cwd: &str,
        facts: &CwdFacts,
    ) -> (r: Result<bool, String>)
        ensures
            flag_result(r) == record_result(
                self@.agent,
                profiles_of(profiles@),
                old(bindings)@,
                *ctx,
                resolved_cwd@,
                *facts,
            ),
            exists|at: Seq<char>|
                final(bindings)@ == #[trigger] recorded(
                    self@.agent,
                    profiles_of(profiles@),
                    old(bindings)@,
                    *ctx,
                    workspace_name@,
                    resolved_cwd@,
                    *facts,
                    at,
                ),
    {
        let at = now_rfc3339();
        self.record_binding_at(
            profiles,
            bindings,
            ctx,
            workspace_name,
            resolved_cwd,
            facts,
            at.as_str(),
        )
    }

    /// The binding of a thread; `facts` are those of the bound directory.
    pub fn lookup_binding(
        &self,
        profiles: &[ChannelProfile],
        bindings: &ThreadBindings,
        ctx: &ThreadBindingContext,
        facts: &CwdFacts,
    ) -> (r: Result<Option<ThreadBinding>, String>)
        ensures
            lookup_result(r) == lookup(
                self@.agent,
                profiles_of(profiles@),
                bindings@,
                *ctx,
                *facts,
            ),
    {
        match self.own_profile(profiles, ctx) {
            Err(e) => Err(e),
            Ok(profile) => self.usable(profile, bindings, ctx, facts),
        }
    }

    /// Whether this agent, which runs under the given account, leads the thread.
    pub fn current_agent_is_primary(
        &self,
        profiles: &[ChannelProfile],
        bindings: &ThreadBindings,
        ctx: &ThreadBindingContext,
        current_discord_user_id: &str,
        facts: &CwdFacts,
    ) -> (r: Result<bool, String>)
        ensures
            flag_result(r) == is_primary(
                self@.agent,
                profiles_of(profiles@),
                bindings@,
                *ctx,
                current_discord_user_id@,
                *facts,
            ),
    {
        let profile = match self.own_profile(profiles, ctx) {
            Ok(p) => p,
            Err(e) => {
                return Err(e);
            },
        };
        if let Some(a) = find_named(profile.agents.as_slice(), self.agent_name.as_str()) {
            if let Some(id) = &a.discord_user_id {
                let current = chars_of(current_discord_user_id);
                if !crate::text::is_text(current.as_slice(), id.as_str()) {
                    return Ok(false);
                }
            }
        }
        match self.usable(profile, bindings, ctx, facts) {
            Err(e) => Err(e),
            Ok(None) => Ok(false),
            Ok(Some(b)) => {
                let primary = chars_of(b.effective_primary_bot());
                Ok(crate::text::is_text(primary.as_slice(), self.agent_name.as_str()))
            },
        }
    }

    /// Whether a message mentions one of the channel's agents.
    pub fn message_mentions_profile_agent(
        &self,
        profiles: &[ChannelProfile],
        ctx: &ThreadBindingContext,
        content: &str,
    ) -> (r: Result<bool, String>)
        ensures
            flag_result(r) == (match matching(profiles_of(profiles@), *ctx) {
                Err(e) => Err::<bool, Seq<char>>(e),
                Ok(p) => Ok::<bool, Seq<char>>(mentions_any(content@, p.agents)),
            }),
    {
        let profile = match self.matching_profile(profiles, ctx) {
            Ok(p) => p,
            Err(e) => {
                return Err(e);
            },
        };
        let chars = chars_of(content);
        let mut i: usize = 0;
        while i < profile.agents.len()
            invariant
                i <= profile.agents@.len(),
                chars@ == content@,
                matching(profiles_of(profiles@), *ctx) == Ok::<Profile, Seq<char>>(profile@),
                profile@.agents.len() == profile.agents@.len(),
                forall|j: int|
                    0 <= j < i ==> !mentions_agent(content@, #[trigger] profile@.agents[j]),
            decreases profile.agents@.len() - i,
        {
            assert(profile@.agents[i as int] == profile.agents@[i as int]@);
            if content_mentions(chars.as_slice(), &profile.agents[i]) {
                assert(mentions_agent(content@, profile@.agents[i as int]));
                return Ok(true);
            }
            i += 1;
        }
        Ok(false)
    }

    /// Makes this agent, whose account is the target, the leading agent of a thread,
    /// at the time `at`. Nothing changes where that is refused.
    pub fn handover_primary_at(
        &self,
        profiles: &[ChannelProfile],
        bindings: &mut ThreadBindings,
        ctx: &ThreadBindingContext,
        target_discord_user_id: &str,
        actor: &PrimaryUpdateActor,
        message_id: &str,
        facts: &CwdFacts,
        at: &str,
    ) -> (r: Result<ThreadBinding, String>)
        ensures
            handed_over_at(
                self@.agent,
                profiles_of(profiles@),
                old(bindings)@,
                final(bindings)@,
                *ctx,
                target_discord_user_id@,
                *actor,
                message_id@,
                *facts,
                r,
                at@,
            ),
    {
        let profile = match self.own_profile(profiles, ctx) {
            Ok(p) => p,
            Err(e) => {
                return Err(e);
            },
        };
        let target = match find_user(profile.agents.as_slice(), target_discord_user_id) {
            Some(a) => a,
            None => {
                return Err("handover target is not in ChannelProfile".to_string());
            },
        };
        if target.name != self.agent_name {
            return Err("handover target does not match this agent".to_string());
        }
        let mut binding = match self.usable(profile, bindings, ctx, facts) {
            Err(e) => {
                return Err(e);
            },
            Ok(None) => {
                return Err("thread is not bound to a workspace".to_string());
            },
            Ok(Some(b)) => b,
        };
        let updated_by = match actor {
            PrimaryUpdateActor::Human { user_id } => "user:".to_string().concat(user_id.as_str()),
            PrimaryUpdateActor::Bot { user_id } => {
                match find_user(profile.agents.as_slice(), user_id.as_str()) {
                    None => {
                        return Err("handover author bot is not in ChannelProfile".to_string());
                    },
                    Some(a) => {
                        let primary = chars_of(binding.effective_primary_bot());
                        if !crate::text::is_text(primary.as_slice(), a.name.as_str()) {
                            return Err(
                                "only the current primary bot can hand over".to_string(),
                            );
                        }
                        "agent:".to_string().concat(a.name.as_str())
                    },
                }
            },
        };
        binding.primary_bot = Some(target.name.clone());
        binding.primary_bot_discord_user_id = copy_opt(&target.discord_user_id);
        binding.primary_updated_by = Some(updated_by);
        binding.primary_updated_at = Some(at.to_string());
        binding.primary_update_message_id = Some(message_id.to_string());
        let key = Self::binding_key(ctx.platform.as_str(), ctx.thread_id.as_str());
        bindings.insert(key.as_str(), binding.clone());
        Ok(binding)
    }

    /// Makes this agent, whose account is the target, the leading agent of a thread,
    /// now.
    pub fn handover_primary(
        &self,
        profiles: &[ChannelProfile],
        bindings: &mut ThreadBindings,
        ctx: &ThreadBindingContext,
        target_discord_user_id: &str,
        actor: &PrimaryUpdateActor,
        message_id: &str,
        facts: &CwdFacts,
    ) -> (r: Result<ThreadBinding, String>)
        ensures
            handed_over(
                self@.agent,
                profiles_of(profiles@),
                old(bindings)@,
                final(bindings)@,
                *ctx,
                target_discord_user_id@,
                *actor,
                message_id@,
                *facts,
                r,
            ),
    {
        let at = now_rfc3339();
        let r = self.handover_primary_at(
            profiles,
            bindings,
            ctx,
            target_discord_user_id,
            actor,
            message_id,
            facts,
            at.as_str(),
        );
        assert(handed_over_at(
            self@.agent,
            profiles_of(profiles@),
            old(bindings)@,
            bindings@,
            *ctx,
            target_discord_user_id@,
            *actor,
            message_id@,
            *facts,
            r,
            at@,
        ));
        r
    }
}

/// The attempts to take the lock that keeps writers apart.
#[derive(Debug)]
pub struct LockAttempts {
    made: u32,
}

impl LockAttempts {
    /// The number of attempts made.
    pub closed spec fn made(&self) -> nat {
        self.made as nat
    }

    /// No attempt made.
    pub fn new() -> (r: Self)
        ensures
            r.made() == 0,
    {
        LockAttempts { made: 0 }
    }

    /// Whether the lock may be tried once more; after the last attempt the caller
    /// gives up.
    pub fn again(&mut self) -> (r: Result<(), String>)
        ensures
            match r {
                Ok(()) => old(self).made() < LOCK_ATTEMPTS && final(self).made() == old(
                    self,
                ).made() + 1,
                Err(e) => old(self).made() >= LOCK_ATTEMPTS && final(self).made() == old(
                    self,
                ).made() && e@ == "timed out acquiring thread binding lock"@,
            },
    {
        if self.made < LOCK_ATTEMPTS {
            self.made += 1;
            Ok(())
        } else {
            Err("timed out acquiring thread binding lock".to_string())
        }
    }

    /// Whether a lock of the given age was left behind by a writer that died. A lock
    /// of unknown age was not.
    pub fn is_stale(age_nanos: Option<u128>, stale_after_secs: u64) -> (r: bool)
        ensures
            r == (age_nanos is Some && age_nanos->0 >= stale_after_secs * 1_000_000_000),
    {
        match age_nanos {
            Some(age) => age >= (stale_after_secs as u128) * 1_000_000_000,
            None => false,
        }
    }
}

proof fn lemma_profile_index(ps: Seq<Profile>, guild: Seq<char>, parent: Seq<char>, i: int)
    requires
        0 <= i,
    ensures
        profile_index(ps, guild, parent, i) matches Some(k) ==> i <= k < ps.len()
            && ps[k].guild_id == guild && ps[k].parent_channel_id == parent,
    decreases ps.len() - i,
{
    if i < ps.len() && !(ps[i].guild_id == guild && ps[i].parent_channel_id == parent) {
        lemma_profile_index(ps, guild, parent, i + 1);
    }
}

proof fn lemma_user_agent(agents: Seq<Agent>, user: Seq<char>, i: int)
    requires
        0 <= i,
    ensures
        user_agent(agents, user, i) matches Some(a) ==> a.user_id == Some(user),
    decreases agents.len() - i,
{
    if i < agents.len() && agents[i].user_id != Some(user) {
        lemma_user_agent(agents, user, i + 1);
    }
}

/// Recording never changes a binding that there is: neither its directory nor its
/// leading agent, and no other thread's.
pub proof fn law_recording_preserves_bindings(
    agent: Seq<char>,
    ps: Seq<Profile>,
    bindings: Map<Seq<char>, Binding>,
    ctx: ThreadBindingContext,
    workspace: Seq<char>,
    cwd: Seq<char>,
    facts: CwdFacts,
    at: Seq<char>,
)
    ensures
        bindings.submap_of(recorded(agent, ps, bindings, ctx, workspace, cwd, facts, at)),
{
}

/// What one agent records, every allowed agent of the channel reads back: the same
/// directory, led by the agent that recorded it.
pub proof fn law_recorded_binding_is_found(
    agent: Seq<char>,
    reader: Seq<char>,
    ps: Seq<Profile>,
    bindings: Map<Seq<char>, Binding>,
    ctx: ThreadBindingContext,
    workspace: Seq<char>,
    cwd: Seq<char>,
    facts: CwdFacts,
    at: Seq<char>,
)
    requires
        record_result(agent, ps, bindings, ctx, cwd, facts) == Ok::<bool, Seq<char>>(true),
        allowed_profile(reader, ps, ctx) is Ok,
    ensures
        ({
            let after = recorded(agent, ps, bindings, ctx, workspace, cwd, facts, at);
            let found = lookup(reader, ps, after, ctx, facts);
            &&& found is Ok && found->Ok_0 is Some
            &&& (found->Ok_0)->0.resolved_cwd == cwd
            &&& (found->Ok_0)->0.workspace_name == workspace
            &&& effective_primary((found->Ok_0)->0) == agent
        }),
{
    lemma_profile_index(ps, ctx.guild_id->0@, ctx.parent_channel_id->0@, 0);
}

/// After a handover the target leads the thread and no other agent does; the
/// directory and the creation of the binding stay as they were.
pub proof fn law_handover_makes_target_primary(
    agent: Seq<char>,
    other: Seq<char>,
    user: Seq<char>,
    ps: Seq<Profile>,
    bindings: Map<Seq<char>, Binding>,
    ctx: ThreadBindingContext,
    target: Seq<char>,
    actor: PrimaryUpdateActor,
    message_id: Seq<char>,
    facts: CwdFacts,
    at: Seq<char>,
)
    requires
        handover(agent, ps, bindings, ctx, target, actor, message_id, facts, at) is Ok,
        other != agent,
        allowed_profile(other, ps, ctx) is Ok,
        agent_user_id(matching(ps, ctx)->Ok_0.agents, agent) == Some(target),
    ensures
        ({
            let key = key_of(ctx.platform@, ctx.thread_id@);
            let b = handover(
                agent,
                ps,
                bindings,
                ctx,
                target,
                actor,
                message_id,
                facts,
                at,
            )->Ok_0;
            let after = bindings.insert(key, b);
            &&& is_primary(agent, ps, after, ctx, target, facts) == Ok::<bool, Seq<char>>(true)
            &&& is_primary(other, ps, after, ctx, user, facts) == Ok::<bool, Seq<char>>(false)
            &&& b.resolved_cwd == bindings[key].resolved_cwd
            &&& b.created_by_agent == bindings[key].created_by_agent
            &&& b.created_at == bindings[key].created_at
        }),
{
    lemma_profile_index(ps, ctx.guild_id->0@, ctx.parent_channel_id->0@, 0);
    lemma_user_agent(matching(ps, ctx)->Ok_0.agents, target, 0);
}

/// A bot hands over only a thread that it leads.
pub proof fn law_only_primary_bot_hands_over(
    agent: Seq<char>,
    ps: Seq<Profile>,
    bindings: Map<Seq<char>, Binding>,
    ctx: ThreadBindingContext,
    target: Seq<char>,
    user_id: String,
    message_id: Seq<char>,
    facts: CwdFacts,
    at: Seq<char>,
)
    requires
        handover(
            agent,
            ps,
            bindings,
            ctx,
            target,
            PrimaryUpdateActor::Bot { user_id },
            message_id,
            facts,
            at,
        ) is Ok,
    ensures
        ({
            let p = matching(ps, ctx)->Ok_0;
            let b = bindings[key_of(ctx.platform@, ctx.thread_id@)];
            &&& user_agent(p.agents, user_id@, 0) is Some
            &&& user_agent(p.agents, user_id@, 0)->0.name == effective_primary(b)
        }),
{
}

/// Whether a directory may be used: it resolves to one at or below the resolved
/// directory of the profile.
pub open spec fn cwd_usable(facts: CwdFacts) -> bool {
    &&& facts.root is Ok && facts.cwd is Ok && facts.is_dir
    &&& is_under(facts.cwd->Ok_0@, facts.root->Ok_0@)
}

/// A directory is refused exactly where it cannot be used, with the first reason that
/// applies.
pub proof fn law_directory_check(p: Profile, cwd: Seq<char>, facts: CwdFacts)
    ensures
        cwd_refused(p, cwd, facts) is None <==> cwd_usable(facts),
        facts.root matches Err(e) ==> cwd_refused(p, cwd, facts) == Some(
            "failed to resolve ChannelProfile workspace root "@ + p.workspace_root + ": "@ + e@,
        ),
        facts.root is Ok && facts.cwd is Err ==> cwd_refused(p, cwd, facts) == Some(
            "failed to resolve thread binding cwd "@ + cwd + ": "@ + facts.cwd->Err_0@,
        ),
        facts.root is Ok && facts.cwd is Ok && !facts.is_dir ==> cwd_refused(p, cwd, facts) == Some(
            "thread binding cwd is not a directory"@,
        ),
        facts.root is Ok && facts.cwd is Ok && facts.is_dir && !cwd_usable(facts) ==> cwd_refused(
            p,
            cwd,
            facts,
        ) == Some("thread binding cwd is outside the ChannelProfile workspace root"@),
{
}

/// A thread belongs to the first profile of its guild and parent channel; without these,
/// or without such a profile, it belongs to none.
pub proof fn law_profile_of_a_thread(ps: Seq<Profile>, ctx: ThreadBindingContext, i: int)
    requires
        ctx.guild_id is Some && ctx.parent_channel_id is Some ==> {
            &&& 0 <= i < ps.len()
            &&& ps[i].guild_id == ctx.guild_id->0@
            &&& ps[i].parent_channel_id == ctx.parent_channel_id->0@
            &&& forall|j: int|
                0 <= j < i ==> (#[trigger] ps[j]).guild_id != ctx.guild_id->0@
                    || ps[j].parent_channel_id != ctx.parent_channel_id->0@
        },
    ensures
        ctx.guild_id is Some && ctx.parent_channel_id is Some ==> matching(ps, ctx) == Ok::<
            Profile,
            Seq<char>,
        >(ps[i]),
        ctx.guild_id is None ==> matching(ps, ctx) == Err::<Profile, Seq<char>>(
            "missing guild id for channel profile lookup"@,
        ),
        ctx.guild_id is Some && ctx.parent_channel_id is None ==> matching(ps, ctx) == Err::<
            Profile,
            Seq<char>,
        >("missing parent channel id for channel profile lookup"@),
{
    if ctx.guild_id is Some && ctx.parent_channel_id is Some {
        lemma_first_profile(ps, ctx.guild_id->0@, ctx.parent_channel_id->0@, 0, i);
    }
}

proof fn lemma_first_profile(ps: Seq<Profile>, g: Seq<char>, c: Seq<char>, i: int, k: int)
    requires
        0 <= i <= k < ps.len(),
        ps[k].guild_id == g && ps[k].parent_channel_id == c,
        forall|j: int|
            i <= j < k ==> (#[trigger] ps[j]).guild_id != g || ps[j].parent_channel_id != c,
    ensures
        profile_index(ps, g, c, i) == Some(k),
    decreases k - i,
{
    if i < k {
        assert(ps[i].guild_id != g || ps[i].parent_channel_id != c);
        lemma_first_profile(ps, g, c, i + 1, k);
    }
}

/// A thread of a channel that no profile names belongs to none.
pub proof fn law_unknown_channel_has_no_profile(ps: Seq<Profile>, ctx: ThreadBindingContext)
    requires
        ctx.guild_id is Some && ctx.parent_channel_id is Some,
        forall|j: int|
            0 <= j < ps.len() ==> (#[trigger] ps[j]).guild_id != ctx.guild_id->0@
                || ps[j].parent_channel_id != ctx.parent_channel_id->0@,
    ensures
        matching(ps, ctx) == Err::<Profile, Seq<char>>(
            "no ChannelProfile matches this Discord channel"@,
        ),
{
    lemma_profile_index(ps, ctx.guild_id->0@, ctx.parent_channel_id->0@, 0);
}

/// An agent may work in a channel exactly where the channel's profile lists it.
pub proof fn law_only_listed_agents_are_allowed(
    agent: Seq<char>,
    ps: Seq<Profile>,
    ctx: ThreadBindingContext,
)
    ensures
        matching(ps, ctx) matches Err(e) ==> allowed_profile(agent, ps, ctx) == Err::<
            Profile,
            Seq<char>,
        >(e),
        matching(ps, ctx) matches Ok(p) && p.allowed.contains(agent) ==> allowed_profile(
            agent,
            ps,
            ctx,
        ) == matching(ps, ctx),
        matching(ps, ctx) is Ok && !(matching(ps, ctx)->Ok_0).allowed.contains(agent)
            ==> allowed_profile(agent, ps, ctx) == Err::<Profile, Seq<char>>(
            "agent "@ + agent + " is not allowed in ChannelProfile "@ + (matching(
                ps,
                ctx,
            )->Ok_0).profile_id,
        ),
{
}

/// The agent of a name, or of an account, is the first one that has it.
pub proof fn law_first_agent_counts(agents: Seq<Agent>, i: int, name: Seq<char>, user: Seq<char>)
    requires
        0 <= i < agents.len(),
    ensures
        agents[i].name == name && (forall|j: int|
            0 <= j < i ==> (#[trigger] agents[j]).name != name) ==> named_agent(agents, name, 0)
            == Some(agents[i]),
        agents[i].user_id == Some(user) && (forall|j: int|
            0 <= j < i ==> (#[trigger] agents[j]).user_id != Some(user)) ==> user_agent(
            agents,
            user,
            0,
        ) == Some(agents[i]),
        (forall|j: int| 0 <= j < agents.len() ==> (#[trigger] agents[j]).name != name)
            ==> named_agent(agents, name, 0) is None,
        (forall|j: int| 0 <= j < agents.len() ==> (#[trigger] agents[j]).user_id != Some(user))
            ==> user_agent(agents, user, 0) is None,
{
    lemma_agents(agents, name, user, 0, i);
}

proof fn lemma_agents(agents: Seq<Agent>, name: Seq<char>, user: Seq<char>, k: int, i: int)
    requires
        0 <= k <= agents.len(),
        0 <= i < agents.len(),
    ensures
        k <= i && agents[i].name == name && (forall|j: int|
            k <= j < i ==> (#[trigger] agents[j]).name != name) ==> named_agent(agents, name, k)
            == Some(agents[i]),
        k <= i && agents[i].user_id == Some(user) && (forall|j: int|
            k <= j < i ==> (#[trigger] agents[j]).user_id != Some(user)) ==> user_agent(
            agents,
            user,
            k,
        ) == Some(agents[i]),
        (forall|j: int| k <= j < agents.len() ==> (#[trigger] agents[j]).name != name)
            ==> named_agent(agents, name, k) is None,
        (forall|j: int| k <= j < agents.len() ==> (#[trigger] agents[j]).user_id != Some(user))
            ==> user_agent(agents, user, k) is None,
    decreases agents.len() - k,
{
    if k < agents.len() {
        lemma_agents(agents, name, user, k + 1, i);
        assert(agents[k] == agents[k]);
    }
}

/// A binding of the thread in this channel whose directory may be used.
pub open spec fn bound_here(
    p: Profile,
    bindings: Map<Seq<char>, Binding>,
    ctx: ThreadBindingContext,
    facts: CwdFacts,
) -> bool {
    let key = ctx.platform@ + ":"@ + ctx.thread_id@;
    &&& bindings.contains_key(key)
    &&& bindings[key].parent_channel_id == p.parent_channel_id
    &&& cwd_usable(facts)
}

/// Whoever the human is that asks for it, a thread with a usable binding is handed over to
/// the agent whose account is the target: it leads the thread from then on, the change is
/// ascribed to that human, and the rest of the binding stays as it was.
pub proof fn law_any_human_can_hand_over(
    agent: Seq<char>,
    ps: Seq<Profile>,
    bindings: Map<Seq<char>, Binding>,
    ctx: ThreadBindingContext,
    target: Seq<char>,
    user_id: String,
    message_id: Seq<char>,
    facts: CwdFacts,
    at: Seq<char>,
)
    requires
        matching(ps, ctx) is Ok,
        (matching(ps, ctx)->Ok_0).allowed.contains(agent),
        user_agent((matching(ps, ctx)->Ok_0).agents, target, 0) matches Some(t) && t.name == agent,
        bound_here(matching(ps, ctx)->Ok_0, bindings, ctx, facts),
    ensures
        ({
            let old_binding = bindings[ctx.platform@ + ":"@ + ctx.thread_id@];
            let r = handover(
                agent,
                ps,
                bindings,
                ctx,
                target,
                PrimaryUpdateActor::Human { user_id },
                message_id,
                facts,
                at,
            );
            r == Ok::<Binding, Seq<char>>(
                Binding {
                    primary_bot: Some(agent),
                    primary_user_id: Some(target),
                    primary_updated_by: Some("user:"@ + user_id@),
                    primary_updated_at: Some(at),
                    primary_update_message_id: Some(message_id),
                    ..old_binding
                },
            )
        }),
{
    lemma_user_agent((matching(ps, ctx)->Ok_0).agents, target, 0);
}

/// The agent that leads a thread, as the profile knows its account, can hand the thread
/// over; a bot that is not in the profile, or does not lead, cannot.
pub proof fn law_leading_bot_can_hand_over(
    agent: Seq<char>,
    ps: Seq<Profile>,
    bindings: Map<Seq<char>, Binding>,
    ctx: ThreadBindingContext,
    target: Seq<char>,
    user_id: String,
    message_id: Seq<char>,
    facts: CwdFacts,
    at: Seq<char>,
)
    requires
        matching(ps, ctx) is Ok,
        (matching(ps, ctx)->Ok_0).allowed.contains(agent),
        user_agent((matching(ps, ctx)->Ok_0).agents, target, 0) matches Some(t) && t.name == agent,
        bound_here(matching(ps, ctx)->Ok_0, bindings, ctx, facts),
    ensures
        ({
            let agents = (matching(ps, ctx)->Ok_0).agents;
            let b = bindings[ctx.platform@ + ":"@ + ctx.thread_id@];
            let leader = if b.primary_bot is Some {
                b.primary_bot->0
            } else {
                b.created_by_agent
            };
            let author = user_agent(agents, user_id@, 0);
            let r = handover(
                agent,
                ps,
                bindings,
                ctx,
                target,
                PrimaryUpdateActor::Bot { user_id },
                message_id,
                facts,
                at,
            );
            &&& author is None ==> r == Err::<Binding, Seq<char>>(
                "handover author bot is not in ChannelProfile"@,
            )
            &&& author is Some && author->0.name != leader ==> r == Err::<Binding, Seq<char>>(
                "only the current primary bot can hand over"@,
            )
            &&& author is Some && author->0.name == leader ==> r == Ok::<Binding, Seq<char>>(
                Binding {
                    primary_bot: Some(agent),
                    primary_user_id: Some(target),
                    primary_updated_by: Some("agent:"@ + leader),
                    primary_updated_at: Some(at),
                    primary_update_message_id: Some(message_id),
                    ..b
                },
            )
        }),
{
    lemma_user_agent((matching(ps, ctx)->Ok_0).agents, target, 0);
}

/// A handover is refused, whoever asks for it, where the agent is not allowed, where the
/// target's account is unknown or that of another agent, and where the thread has no
/// usable binding.
pub proof fn law_handover_refusals(
    agent: Seq<char>,
    ps: Seq<Profile>,
    bindings: Map<Seq<char>, Binding>,
    ctx: ThreadBindingContext,
    target: Seq<char>,
    actor: PrimaryUpdateActor,
    message_id: Seq<char>,
    facts: CwdFacts,
    at: Seq<char>,
)
    ensures
        ({
            let r = handover(agent, ps, bindings, ctx, target, actor, message_id, facts, at);
            let p = matching(ps, ctx)->Ok_0;
            let listed = matching(ps, ctx) is Ok && p.allowed.contains(agent);
            let known = user_agent(p.agents, target, 0);
            let key = ctx.platform@ + ":"@ + ctx.thread_id@;
            &&& !listed ==> r is Err
            &&& listed && known is None ==> r == Err::<Binding, Seq<char>>(
                "handover target is not in ChannelProfile"@,
            )
            &&& listed && known is Some && known->0.name != agent ==> r == Err::<
                Binding,
                Seq<char>,
            >("handover target does not match this agent"@)
            &&& listed && known is Some && known->0.name == agent && !bindings.contains_key(key)
                ==> r == Err::<Binding, Seq<char>>("thread is not bound to a workspace"@)
            &&& listed && known is Some && known->0.name == agent && bindings.contains_key(key)
                && bindings[key].parent_channel_id != p.parent_channel_id ==> r == Err::<
                Binding,
                Seq<char>,
            >("thread binding parent channel mismatch"@)
            &&& bindings.contains_key(key) && !cwd_usable(facts) ==> r is Err
        }),
{
}

/// An allowed agent records a usable directory for a thread that has none: the binding
/// names the thread, the directory and who made it, and the agent leads the thread.
pub proof fn law_new_binding_is_recorded(
    agent: Seq<char>,
    ps: Seq<Profile>,
    bindings: Map<Seq<char>, Binding>,
    ctx: ThreadBindingContext,
    workspace: Seq<char>,
    cwd: Seq<char>,
    facts: CwdFacts,
    at: Seq<char>,
)
    requires
        matching(ps, ctx) is Ok,
        (matching(ps, ctx)->Ok_0).allowed.contains(agent),
        cwd_usable(facts),
        !bindings.contains_key(ctx.platform@ + ":"@ + ctx.thread_id@),
    ensures
        record_result(agent, ps, bindings, ctx, cwd, facts) == Ok::<bool, Seq<char>>(true),
        ({
            let after = recorded(agent, ps, bindings, ctx, workspace, cwd, facts, at);
            let key = ctx.platform@ + ":"@ + ctx.thread_id@;
            let account = match named_agent((matching(ps, ctx)->Ok_0).agents, agent, 0) {
                Some(a) => a.user_id,
                None => None,
            };
            after == bindings.insert(
                key,
                Binding {
                    platform: ctx.platform@,
                    guild_id: ctx.guild_id->0@,
                    parent_channel_id: ctx.parent_channel_id->0@,
                    thread_id: ctx.thread_id@,
                    workspace_name: workspace,
                    resolved_cwd: cwd,
                    created_by_agent: agent,
                    created_by_user_id: match ctx.created_by_user_id {
                        Some(u) => u@,
                        None => Seq::empty(),
                    },
                    trigger_message_id: match ctx.trigger_message_id {
                        Some(m) => m@,
                        None => Seq::empty(),
                    },
                    created_at: at,
                    primary_bot: Some(agent),
                    primary_user_id: account,
                    primary_updated_by: Some("agent:"@ + agent),
                    primary_updated_at: Some(at),
                    primary_update_message_id: match ctx.trigger_message_id {
                        Some(m) => Some(m@),
                        None => None,
                    },
                },
            )
        }),
{
}

/// A thread that is bound stays bound to its directory: the same one is accepted again,
/// another one refused. An agent that is not allowed, or a directory that cannot be used,
/// is refused before that. Whatever is refused changes nothing.
pub proof fn law_record_refusals(
    agent: Seq<char>,
    ps: Seq<Profile>,
    bindings: Map<Seq<char>, Binding>,
    ctx: ThreadBindingContext,
    workspace: Seq<char>,
    cwd: Seq<char>,
    facts: CwdFacts,
    at: Seq<char>,
)
    ensures
        ({
            let r = record_result(agent, ps, bindings, ctx, cwd, facts);
            let key = ctx.platform@ + ":"@ + ctx.thread_id@;
            let listed = matching(ps, ctx) is Ok && (matching(ps, ctx)->Ok_0).allowed.contains(
                agent,
            );
            &&& !listed ==> r is Err
            &&& listed && !cwd_usable(facts) ==> r is Err
            &&& listed && cwd_usable(facts) && bindings.contains_key(key)
                && bindings[key].resolved_cwd == cwd ==> r == Ok::<bool, Seq<char>>(false)
            &&& listed && cwd_usable(facts) && bindings.contains_key(key)
                && bindings[key].resolved_cwd != cwd ==> r == Err::<bool, Seq<char>>(
                "thread already has workspace "@ + bindings[key].resolved_cwd
                    + "; start a new thread to change workspace"@,
            )
            &&& r != Ok::<bool, Seq<char>>(true) ==> recorded(
                agent,
                ps,
                bindings,
                ctx,
                workspace,
                cwd,
                facts,
                at,
            ) == bindings
        }),
{
}

/// An allowed agent finds the binding of a thread in its channel, with the leading agent
/// filled in; a thread that is not bound has none, and one bound in another channel, or to
/// a directory that cannot be used, is an error.
pub proof fn law_lookup_finds_the_binding(
    agent: Seq<char>,
    ps: Seq<Profile>,
    bindings: Map<Seq<char>, Binding>,
    ctx: ThreadBindingContext,
    facts: CwdFacts,
)
    requires
        matching(ps, ctx) is Ok,
        (matching(ps, ctx)->Ok_0).allowed.contains(agent),
    ensures
        ({
            let p = matching(ps, ctx)->Ok_0;
            let key = ctx.platform@ + ":"@ + ctx.thread_id@;
            let r = lookup(agent, ps, bindings, ctx, facts);
            let b = bindings[key];
            let leader = if b.primary_bot is Some {
                b.primary_bot->0
            } else {
                b.created_by_agent
            };
            &&& !bindings.contains_key(key) ==> r == Ok::<Option<Binding>, Seq<char>>(None)
            &&& bound_here(p, bindings, ctx, facts) ==> r == Ok::<Option<Binding>, Seq<char>>(
                Some(
                    Binding {
                        primary_bot: Some(leader),
                        primary_user_id: if b.primary_user_id is Some {
                            b.primary_user_id
                        } else {
                            match named_agent(p.agents, leader, 0) {
                                Some(a) => a.user_id,
                                None => None,
                            }
                        },
                        ..b
                    },
                ),
            )
            &&& bindings.contains_key(key) && !bound_here(p, bindings, ctx, facts) ==> r is Err
        }),
{
}

/// An agent that is not allowed finds nothing, leads nothing and records nothing.
pub proof fn law_unlisted_agent_is_refused(
    agent: Seq<char>,
    ps: Seq<Profile>,
    bindings: Map<Seq<char>, Binding>,
    ctx: ThreadBindingContext,
    user: Seq<char>,
    facts: CwdFacts,
)
    requires
        matching(ps, ctx) is Err || !(matching(ps, ctx)->Ok_0).allowed.contains(agent),
    ensures
        lookup(agent, ps, bindings, ctx, facts) is Err,
        is_primary(agent, ps, bindings, ctx, user, facts) is Err,
{
}

/// An allowed agent leads a thread exactly where the thread has a usable binding that
/// names it, or that it made and that names none, and it runs under the account that its
/// profile says, if it says one.
pub proof fn law_who_leads_a_thread(
    agent: Seq<char>,
    ps: Seq<Profile>,
    bindings: Map<Seq<char>, Binding>,
    ctx: ThreadBindingContext,
    user: Seq<char>,
    facts: CwdFacts,
)
    requires
        matching(ps, ctx) is Ok,
        (matching(ps, ctx)->Ok_0).allowed.contains(agent),
    ensures
        ({
            let p = matching(ps, ctx)->Ok_0;
            let b = bindings[ctx.platform@ + ":"@ + ctx.thread_id@];
            let other_account = named_agent(p.agents, agent, 0) is Some && named_agent(
                p.agents,
                agent,
                0,
            )->0.user_id is Some && named_agent(p.agents, agent, 0)->0.user_id->0 != user;
            let named = b.primary_bot == Some(agent) || (b.primary_bot is None
                && b.created_by_agent == agent);
            is_primary(agent, ps, bindings, ctx, user, facts) == Ok::<bool, Seq<char>>(true) <==> {
                &&& !other_account
                &&& bound_here(p, bindings, ctx, facts)
                &&& named
            }
        }),
{
}

/// A message mentions an agent where it holds the agent's user id between the brackets of
/// either form of user mention, or its role id between those of a role mention; it
/// mentions one of several where it mentions any.
pub proof fn law_mentions_of_agents(content: Seq<char>, agents: Seq<Agent>, i: int)
    requires
        0 <= i < agents.len(),
    ensures
        mentions_agent(content, agents[i]) <==> {
            ||| agents[i].user_id is Some && contains(content, "<@"@ + agents[i].user_id->0 + ">"@)
            ||| agents[i].user_id is Some && contains(
                content,
                "<@!"@ + agents[i].user_id->0 + ">"@,
            )
            ||| agents[i].role_id is Some && contains(
                content,
                "<@&"@ + agents[i].role_id->0 + ">"@,
            )
        },
        mentions_agent(content, agents[i]) ==> mentions_any(content, agents),
        (forall|j: int| 0 <= j < agents.len() ==> !mentions_agent(content, #[trigger] agents[j]))
            ==> !mentions_any(content, agents),
{
}

/// A profile keeps what its configuration says; where it lists no allowed agents all its
/// agents are allowed, and where it lists no agents the allowed ones are its agents, known
/// by name.
pub proof fn law_profile_follows_configuration(c: ChannelProfileConfig, i: int)
    ensures
        ({
            let p = configured_profile(c);
            &&& p.profile_id == c.profile_id@ && p.guild_id == c.guild_id@
            &&& p.parent_channel_id == c.parent_channel_id@ && p.work_domain == c.work_domain@
            &&& p.workspace_root == c.workspace_root@
            &&& c.allowed_agents@.len() > 0 ==> p.allowed == texts(c.allowed_agents@)
            &&& c.allowed_agents@.len() == 0 ==> p.allowed.len() == c.agents@.len()
            &&& c.allowed_agents@.len() == 0 && 0 <= i < c.agents@.len() ==> p.allowed[i]
                == c.agents@[i].name@
            &&& c.agents@.len() > 0 ==> p.agents.len() == c.agents@.len()
            &&& 0 <= i < c.agents@.len() ==> p.agents[i] == (Agent {
                name: c.agents@[i].name@,
                aliases: texts(c.agents@[i].aliases@),
                user_id: opt_text(c.agents@[i].discord_user_id),
                role_id: opt_text(c.agents@[i].discord_role_id),
                hint: opt_text(c.agents@[i].handoff_hint),
            })
            &&& c.agents@.len() == 0 ==> p.agents.len() == c.allowed_agents@.len()
            &&& c.agents@.len() == 0 && 0 <= i < c.allowed_agents@.len() ==> p.agents[i] == (Agent {
                name: c.allowed_agents@[i]@,
                aliases: Seq::empty(),
                user_id: None,
                role_id: None,
                hint: None,
            })
        }),
{
}

/// There is a store exactly where it is enabled and a directory is known for it: the one
/// configured, else one below the workspace root.
pub proof fn law_store_follows_configuration(c: ThreadBindingConfig, root: Option<Seq<char>>)
    ensures
        configured_store(c, root) is Some <==> c.enabled && (c.store_dir is Some || root is Some),
        configured_store(c, root) matches Some(s) ==> {
            &&& c.store_dir matches Some(d) ==> s.store_dir == d@
            &&& c.store_dir is None ==> s.store_dir == path_join(root->0, ".openab"@)
            &&& s.agent == (if c.agent_name is Some {
                c.agent_name->0@
            } else {
                "default"@
            })
            &&& s.profiles.len() == c.channel_profiles@.len()
            &&& forall|i: int|
                0 <= i < s.profiles.len() ==> #[trigger] s.profiles[i] == configured_profile(
                    c.channel_profiles@[i],
                )
        },
{
}

/// A handover that is refused changes nothing and tells why. One that succeeds gives back
/// the binding that the thread then has, led by the agent, and touches no other thread.
pub proof fn law_handover_touches_one_thread(
    agent: Seq<char>,
    ps: Seq<Profile>,
    before: Map<Seq<char>, Binding>,
    after: Map<Seq<char>, Binding>,
    ctx: ThreadBindingContext,
    target: Seq<char>,
    actor: PrimaryUpdateActor,
    message_id: Seq<char>,
    facts: CwdFacts,
    r: Result<ThreadBinding, String>,
    at: Seq<char>,
    other: Seq<char>,
)
    requires
        handed_over_at(
            agent,
            ps,
            before,
            after,
            ctx,
            target,
            actor,
            message_id,
            facts,
            r,
            at,
        ),
    ensures
        ({
            let key = ctx.platform@ + ":"@ + ctx.thread_id@;
            let want = handover(agent, ps, before, ctx, target, actor, message_id, facts, at);
            &&& r is Ok <==> want is Ok
            &&& r is Err ==> after == before && (r->Err_0)@ == want->Err_0
            &&& r is Ok ==> after.contains_key(key) && after[key] == (r->Ok_0)@ && after[key]
                == want->Ok_0 && after[key].primary_bot == Some(agent)
            &&& other != key ==> after.contains_key(other) == before.contains_key(other)
                && after[other] == before[other]
        }),
{
}

} // verus!
