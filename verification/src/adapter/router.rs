//! Routing of messages to agents, independent of the platform.

use vstd::prelude::*;

use crate::acp::{blocks, ContentBlock};
use crate::adapter::session::{
    arrival, pack_arrival, parse_directives, session_directives, Refusal, Session,
    SessionDirectiveError,
};
use crate::adapter::turn::Turn;
use crate::adapter::types::MessageContext;
use crate::config::{
    AgentAttachmentsConfig, ReactionsConfig, WorkspaceRequest,
};
use crate::text::{decimal, render_usize, trim, trimmed};

verus! {

/// Shared logic for routing messages to agents, streaming edits and controlling
/// reactions.
#[derive(Debug)]
pub struct AdapterRouter {
    reactions_config: ReactionsConfig,
    attachments_config: AgentAttachmentsConfig,
    prompt_hard_timeout_secs: u64,
    liveness_check_secs: u64,
}

/// A message that is ready for an agent.
#[derive(Debug)]
pub struct PreparedMessage {
    pub thread_key: String,
    pub workspace_request: Option<WorkspaceRequest>,
    pub content_blocks: Vec<ContentBlock>,
}

/// The key of a channel's session, under the adapter's platform name.
pub open spec fn thread_key(platform: Seq<char>, ctx: MessageContext) -> Seq<char> {
    platform + ":"@ + (match ctx.thread_channel.thread_id {
        Some(t) => t@,
        None => ctx.thread_channel.channel_id@,
    })
}

/// What a message asks of its session: what the adapter found out, else what its
/// prompt says.
pub open spec fn message_session(ctx: MessageContext, parsed: Session) -> Session {
    let given = ctx.session_directives@;
    if given.workspace is Some || given.title is Some {
        given
    } else {
        parsed
    }
}

/// What is to be done once a turn has ended.
#[derive(Debug)]
pub struct TurnEnd {
    /// Whether the turn counts as done, else as failed.
    pub succeeded: bool,
    /// Whether the status is taken away after a while.
    pub clear: bool,
    /// After how many milliseconds.
    pub hold_ms: u64,
    /// What the user is told of a failure.
    pub notice: Option<String>,
}

/// A text shown as a warning.
pub open spec fn warning(s: Seq<char>) -> Seq<char> {
    "⚠️ "@ + s
}

/// A text shown as a warning.
pub fn warning_text(s: &str) -> (out: String)
    ensures
        out@ == warning(s@),
{
    "⚠️ ".to_string().concat(s)
}

/// The message of a platform that cannot upload files.
pub open spec fn unsupported_upload(platform: Seq<char>, n: nat, content: Seq<char>) -> Seq<char> {
    let notice = "⚠️ attachment upload is not supported on "@ + platform + " for "@ + decimal(n)
        + " requested file(s)."@;
    if trim(content).len() == 0 {
        notice
    } else {
        content + "\n\n"@ + notice
    }
}

/// The message of a platform that cannot upload files: its text, and a visible
/// warning instead of the files.
pub fn unsupported_upload_text(platform: &str, files: usize, content: &str) -> (out: String)
    ensures
        out@ == unsupported_upload(platform@, files as nat, content@),
{
    let notice = "⚠️ attachment upload is not supported on ".to_string().concat(platform).concat(
        " for ",
    ).concat(render_usize(files).as_str()).concat(" requested file(s).");
    let chars = crate::text::chars_of(content);
    if trimmed(chars.as_slice()).len() == 0 {
        notice
    } else {
        content.to_string().concat("\n\n").concat(notice.as_str())
    }
}

impl AdapterRouter {
    /// The time after which a turn is given up.
    pub closed spec fn hard_timeout(&self) -> u64 {
        self.prompt_hard_timeout_secs
    }

    /// How often a silent agent is looked at.
    pub closed spec fn liveness(&self) -> u64 {
        self.liveness_check_secs
    }

    /// Status reactions.
    pub closed spec fn reactions(&self) -> ReactionsConfig {
        self.reactions_config
    }

    /// File uploads.
    pub closed spec fn attachments(&self) -> AgentAttachmentsConfig {
        self.attachments_config
    }

    /// A router with the given settings.
    pub fn new(
        reactions_config: ReactionsConfig,
        attachments_config: AgentAttachmentsConfig,
        prompt_hard_timeout_secs: u64,
        liveness_check_secs: u64,
    ) -> (r: Self)
        ensures
            r.reactions() == reactions_config,
            r.attachments() == attachments_config,
            r.hard_timeout() == prompt_hard_timeout_secs,
            r.liveness() == liveness_check_secs,
    {
        AdapterRouter {
            reactions_config,
            attachments_config,
            prompt_hard_timeout_secs,
            liveness_check_secs,
        }
    }

    /// Whether a silent agent is looked at so seldom that the hard timeout may be
    /// bypassed: it fires only at the next look.
    pub fn ceiling_may_be_missed(&self) -> (r: bool)
        ensures
            r == (self.liveness() >= self.hard_timeout()),
    {
        self.liveness_check_secs >= self.prompt_hard_timeout_secs
    }

    /// Access the reactions config.
    pub fn reactions_config(&self) -> (r: &ReactionsConfig)
        ensures
            *r == self.reactions(),
    {
        &self.reactions_config
    }

    /// Access the attachments config.
    pub fn attachments_config(&self) -> (r: &AgentAttachmentsConfig)
        ensures
            *r == self.attachments(),
    {
        &self.attachments_config
    }

    /// How often a silent agent is looked at, in seconds.
    pub fn liveness_interval(&self) -> (r: u64)
        ensures
            r == self.liveness(),
    {
        self.liveness_check_secs
    }

    /// Pack one arrival event into ContentBlocks. Per-arrival layout:
    ///   Text { "<sender_context>\n{json}\n</sender_context>" }   <- delimiter
    ///   [Text blocks from extra_blocks (e.g. STT transcripts)]
    ///   Text { "{prompt}" }                                       <- omitted if empty
    ///   [non-Text blocks from extra_blocks (e.g. Image)]
    ///
    /// The sender_context block stands alone so it can serve as a structural
    /// delimiter between arrivals in batched dispatch: agents can scan for
    /// `<sender_context>` openers to find arrival boundaries. Within an arrival,
    /// transcript text precedes the typed prompt (voice content first), and images
    /// trail the prompt. For a batch of N messages, call this N times and
    /// concatenate.
    pub fn pack_arrival_event(
        sender_json: &str,
        prompt: &str,
        extra_blocks: Vec<ContentBlock>,
    ) -> (out: Vec<ContentBlock>)
        ensures
            blocks(out@) == arrival(sender_json@, prompt@, blocks(extra_blocks@)),
    {
        pack_arrival(sender_json, prompt, extra_blocks.as_slice())
    }

    /// Parse user-facing session initialization directives.
    /// Supported input directives are `[[ws:name]]`, `[[ws:name --create]]`,
    /// and `[[title:...]]`. Directives may be inline or on separate lines and
    /// are stripped before the prompt reaches the agent. Unknown keys are
    /// treated as errors so typos do not silently change behavior. A prompt
    /// without any directive is returned verbatim.
    pub fn parse_session_directives(prompt: &str) -> (r: Result<
        (crate::adapter::session::SessionDirectives, String),
        SessionDirectiveError,
    >)
        ensures
            match r {
                Ok((d, rest)) => session_directives(prompt@) == Ok::<
                    (Session, Seq<char>),
                    Refusal,
                >((d@, rest@)),
                Err(e) => session_directives(prompt@) == Err::<(Session, Seq<char>), Refusal>(e@),
            },
    {
        parse_directives(prompt)
    }

    /// Prepares a single message for an agent: its session directives are read and
    /// removed, and the rest is packed.
    pub fn prepare_message(platform: &str, ctx: &MessageContext) -> (r: Result<
        PreparedMessage,
        SessionDirectiveError,
    >)
        ensures
            match r {
                Ok(p) => session_directives(ctx.prompt@) is Ok && ({
                    let (parsed, prompt) = session_directives(ctx.prompt@)->Ok_0;
                    &&& p.thread_key@ == thread_key(platform@, *ctx)
                    &&& (match p.workspace_request {
                        Some(w) => Some(w@),
                        None => None,
                    }) == message_session(*ctx, parsed).workspace
                    &&& blocks(p.content_blocks@) == arrival(
                        ctx.sender_json@,
                        prompt,
                        blocks(ctx.extra_blocks@),
                    )
                }),
                Err(e) => session_directives(ctx.prompt@) == Err::<(Session, Seq<char>), Refusal>(
                    e@,
                ),
            },
    {
        let (parsed, prompt) = match parse_directives(ctx.prompt.as_str()) {
            Ok(x) => x,
            Err(e) => {
                return Err(e);
            },
        };
        let directives = if ctx.session_directives.has_any() {
            ctx.session_directives.clone()
        } else {
            parsed
        };
        let content_blocks = pack_arrival(
            ctx.sender_json.as_str(),
            prompt.as_str(),
            ctx.extra_blocks.as_slice(),
        );
        let thread = match &ctx.thread_channel.thread_id {
            Some(t) => t.as_str(),
            None => ctx.thread_channel.channel_id.as_str(),
        };
        Ok(
            PreparedMessage {
                thread_key: platform.to_string().concat(":").concat(thread),
                workspace_request: directives.workspace,
                content_blocks,
            },
        )
    }

    /// The turn that a prompt starts; `reset` if the agent's session had expired.
    pub fn start_turn(&self, request_id: u64, reset: bool, streaming: bool) -> (t: Turn)
        ensures
            t@.request_id == request_id,
            t@.hard_timeout_secs == self.hard_timeout(),
            t@.streaming == streaming,
            t@.tool_display == self.reactions().tool_display,
            t@.text == (if reset {
                "⚠️ _Session expired, starting fresh..._\n\n"@
            } else {
                Seq::empty()
            }),
            t@.tools.len() == 0,
            t@.error is None,
            !t@.silent,
            !t@.finished,
    {
        Turn::new(
            request_id,
            self.prompt_hard_timeout_secs,
            reset,
            streaming,
            self.reactions_config.tool_display,
        )
    }

    /// What is to be done once a turn has ended, with an error or without.
    pub fn turn_end(&self, failure: &Option<String>) -> (r: TurnEnd)
        ensures
            r.succeeded == (failure is None),
            r.clear == self.reactions().remove_after_reply,
            r.hold_ms == (if failure is None {
                self.reactions().timing.done_hold_ms
            } else {
                self.reactions().timing.error_hold_ms
            }),
            crate::text::opt_text(r.notice) == (match failure {
                Some(e) => Some(warning(e@)),
                None => None,
            }),
    {
        let notice = match failure {
            Some(e) => Some(warning_text(e.as_str())),
            None => None,
        };
        TurnEnd {
            succeeded: failure.is_none(),
            clear: self.reactions_config.remove_after_reply,
            hold_ms: if failure.is_none() {
                self.reactions_config.timing.done_hold_ms
            } else {
                self.reactions_config.timing.error_hold_ms
            },
            notice,
        }
    }
}

/// What an adapter found out of a message's directives comes before what its prompt says,
/// as a whole.
pub proof fn law_given_directives_come_first(ctx: MessageContext, parsed: Session)
    ensures
        ctx.session_directives.workspace is Some || ctx.session_directives.title is Some
            ==> message_session(ctx, parsed) == ctx.session_directives@,
        ctx.session_directives.workspace is None && ctx.session_directives.title is None
            ==> message_session(ctx, parsed) == parsed,
{
}

/// The session of a message is that of its thread, else of its channel, on its platform.
pub proof fn law_message_thread(platform: Seq<char>, ctx: MessageContext)
    ensures
        ctx.thread_channel.thread_id matches Some(t) ==> thread_key(platform, ctx) == platform
            + ":"@ + t@,
        ctx.thread_channel.thread_id is None ==> thread_key(platform, ctx) == platform + ":"@
            + ctx.thread_channel.channel_id@,
{
}

/// A platform that cannot upload files still shows the text, and tells how many files are
/// missing; a warning is marked as one.
pub proof fn law_unsupported_upload_is_told(platform: Seq<char>, n: nat, content: Seq<char>)
    ensures
        ({
            let notice = "⚠️ attachment upload is not supported on "@ + platform + " for "@
                + decimal(n) + " requested file(s)."@;
            &&& trim(content).len() == 0 ==> unsupported_upload(platform, n, content) == notice
            &&& trim(content).len() > 0 ==> unsupported_upload(platform, n, content) == content
                + "\n\n"@ + notice
        }),
        warning(content) == "⚠️ "@ + content,
{
}

} // verus!
