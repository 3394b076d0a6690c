//! From a finished turn to the messages that deliver it.

use vstd::prelude::*;

use crate::adapter::display::{compose_display, display, tool_lines, ToolEntry, ToolLine};
use crate::adapter::mentions::{
    chunks_with_mentions, contains_bot_mention, extract_mentions,
    law_every_chunk_carries_every_mention, mention_at, mention_footer, mention_footer_len,
    propagate_mentions_to_chunks, text_mentions,
};
use crate::adapter::turn::Turn;
use crate::config::ToolDisplay;
use crate::text::{
    chars_of, contains, copy_opt, is_text, join, joined, opt_text, texts, trim, trimmed,
};

verus! {

/// The text shown in place of a reply where the agent produced nothing.
pub open spec fn silent_text() -> Seq<char> {
    "⚠️ Agent ended the turn with no output (0 output tokens) — likely a silent provider or auth failure"@
}

/// The reply's content before attachment warnings are added.
pub open spec fn reply_body(
    shown: Seq<char>,
    error: Option<Seq<char>>,
    has_attachments: bool,
    has_warnings: bool,
    silent: bool,
) -> Seq<char> {
    if shown.len() > 0 {
        match error {
            Some(e) => "⚠️ "@ + e + "\n\n"@ + shown,
            None => shown,
        }
    } else {
        match error {
            Some(e) => "⚠️ "@ + e,
            None => if has_attachments {
                "Attached requested file(s)."@
            } else if has_warnings {
                Seq::empty()
            } else if silent {
                silent_text()
            } else {
                "_(no response)_"@
            },
        }
    }
}

/// `content` with the warnings below it.
pub open spec fn with_warnings(content: Seq<char>, warnings: Seq<Seq<char>>) -> Seq<char> {
    if warnings.len() == 0 {
        content
    } else if trim(content).len() == 0 {
        join(warnings, "\n"@)
    } else {
        content + "\n\n"@ + join(warnings, "\n"@)
    }
}

/// The reply as it is delivered: tool activity and text, an error in front of
/// them, warnings below, and a stand-in where there is nothing else to show.
pub open spec fn reply_content(
    tools: Seq<ToolLine>,
    text: Seq<char>,
    mode: ToolDisplay,
    error: Option<Seq<char>>,
    silent: bool,
    has_attachments: bool,
    warnings: Seq<Seq<char>>,
) -> Seq<char> {
    with_warnings(
        reply_body(
            display(tools, text, false, mode),
            error,
            has_attachments,
            warnings.len() > 0,
            silent,
        ),
        warnings,
    )
}

/// `content` followed by the warnings, or the warnings alone where it is blank.
pub fn append_attachment_warnings(content: String, warnings: &[String]) -> (out: String)
    ensures
        out@ == with_warnings(content@, texts(warnings@)),
{
    if warnings.len() == 0 {
        return content;
    }
    let block = joined(warnings, "\n");
    let chars = chars_of(content.as_str());
    if trimmed(chars.as_slice()).len() == 0 {
        block
    } else {
        let mut out = content;
        out.append("\n\n");
        out.append(block.as_str());
        out
    }
}

/// The content of the final reply. `text` is the agent's text without its
/// directives.
pub fn compose_reply(
    entries: &[ToolEntry],
    text: &str,
    tool_display: ToolDisplay,
    error: &Option<String>,
    silent: bool,
    has_attachments: bool,
    warnings: &[String],
) -> (out: String)
    ensures
        out@ == reply_content(
            tool_lines(entries@),
            text@,
            tool_display,
            opt_text(*error),
            silent,
            has_attachments,
            texts(warnings@),
        ),
{
    let shown = compose_display(entries, text, false, tool_display);
    let ghost shown_text = shown@;
    let body = if shown.as_str().unicode_len() == 0 {
        match error {
            Some(err) => {
                let mut s = String::new();
                s.append("⚠️ ");
                s.append(err.as_str());
                assert(s@ =~= "⚠️ "@ + err@);
                s
            },
            None => {
                if has_attachments {
                    "Attached requested file(s).".to_string()
                } else if warnings.len() > 0 {
                    String::new()
                } else if silent {
                    "⚠️ Agent ended the turn with no output (0 output tokens) — likely a silent provider or auth failure".to_string()
                } else {
                    "_(no response)_".to_string()
                }
            },
        }
    } else {
        match error {
            Some(err) => {
                let mut s = String::new();
                s.append("⚠️ ");
                s.append(err.as_str());
                s.append("\n\n");
                s.append(shown.as_str());
                assert(s@ =~= "⚠️ "@ + err@ + "\n\n"@ + shown@);
                s
            },
            None => shown,
        }
    };
    assert(body@ =~= reply_body(
        shown_text,
        opt_text(*error),
        has_attachments,
        warnings@.len() > 0,
        silent,
    ));
    append_attachment_warnings(body, warnings)
}

impl Turn {
    /// The content of the turn's reply; `text` is its text without directives.
    pub fn reply(&self, text: &str, has_attachments: bool, warnings: &[String]) -> (out: String)
        ensures
            out@ == reply_content(
                self@.tools,
                text@,
                self@.tool_display,
                self@.error,
                self@.silent,
                has_attachments,
                texts(warnings@),
            ),
    {
        compose_reply(
            self.tool_lines.as_slice(),
            text,
            self.tool_display,
            &self.response_error,
            self.silent,
            has_attachments,
            warnings,
        )
    }
}

/// The length at which a reply is split: on a platform with mention gates the
/// mentions' footer is deducted from the message limit.
pub fn split_limit(platform: &str, content: &str, message_limit: usize) -> (n: usize)
    ensures
        n == split_length(platform@, content@, message_limit as nat),
{
    let chars = chars_of(platform);
    if is_text(chars.as_slice(), "discord") {
        let mentions = extract_mentions(content);
        message_limit.saturating_sub(mention_footer_len(mentions.as_slice()))
    } else {
        message_limit
    }
}

/// The length at which a reply is split.
pub open spec fn split_length(platform: Seq<char>, content: Seq<char>, limit: nat) -> nat {
    let footer = mention_footer(text_mentions(content, false, Seq::empty())).len();
    if platform != "discord"@ {
        limit
    } else if footer <= limit {
        (limit - footer) as nat
    } else {
        0
    }
}

/// The parts of a reply as they are delivered.
pub open spec fn delivered_chunks(
    platform: Seq<char>,
    content: Seq<char>,
    chunks: Seq<Seq<char>>,
    limit: nat,
) -> Seq<Seq<char>> {
    if platform == "discord"@ {
        chunks_with_mentions(chunks, text_mentions(content, false, Seq::empty()), limit)
    } else {
        chunks
    }
}

/// The parts of a split reply, with the reply's mentions in each part on a
/// platform with mention gates.
pub fn finish_chunks(
    platform: &str,
    content: &str,
    chunks: Vec<String>,
    message_limit: usize,
) -> (out: Vec<String>)
    ensures
        texts(out@) == delivered_chunks(
            platform@,
            content@,
            texts(chunks@),
            message_limit as nat,
        ),
{
    let chars = chars_of(platform);
    if is_text(chars.as_slice(), "discord") {
        let mentions = extract_mentions(content);
        propagate_mentions_to_chunks(chunks, mentions.as_slice(), message_limit)
    } else {
        chunks
    }
}

/// One call to a chat platform.
#[derive(Debug)]
pub enum DeliveryAction {
    /// Send the turn's attachments with this text.
    SendAttachments { content: String, reply: Option<String> },
    /// Send a message as a reply.
    SendReply { content: String, reply_to: String },
    /// Send a message.
    Send { content: String },
    /// Write the text into the placeholder.
    EditPlaceholder { content: String },
    /// Delete the placeholder.
    DeletePlaceholder,
}

/// What a delivery action says.
pub enum Delivery {
    SendAttachments { content: Seq<char>, reply: Option<Seq<char>> },
    SendReply { content: Seq<char>, reply_to: Seq<char> },
    Send { content: Seq<char> },
    EditPlaceholder { content: Seq<char> },
    DeletePlaceholder,
}

impl View for DeliveryAction {
    type V = Delivery;

    open spec fn view(&self) -> Delivery {
        match self {
            DeliveryAction::SendAttachments { content, reply } => Delivery::SendAttachments {
                content: content@,
                reply: opt_text(*reply),
            },
            DeliveryAction::SendReply { content, reply_to } => Delivery::SendReply {
                content: content@,
                reply_to: reply_to@,
            },
            DeliveryAction::Send { content } => Delivery::Send { content: content@ },
            DeliveryAction::EditPlaceholder { content } => Delivery::EditPlaceholder {
                content: content@,
            },
            DeliveryAction::DeletePlaceholder => Delivery::DeletePlaceholder,
        }
    }
}

/// What a list of delivery actions says.
pub open spec fn deliveries(v: Seq<DeliveryAction>) -> Seq<Delivery> {
    v.map_values(|a: DeliveryAction| a@)
}

/// How a reply reaches its channel.
#[derive(Clone, Copy, Debug, PartialEq, Eq, Structural)]
pub enum DeliveryMode {
    /// The first message carries attachments.
    Attachments,
    /// The placeholder is replaced by a reply.
    ReplacePlaceholderByReply,
    /// The placeholder is replaced by fresh messages, so that mentions notify.
    ReplacePlaceholder,
    /// The placeholder becomes the first part.
    EditPlaceholder,
    /// There is no placeholder, and the first part is a reply.
    FreshReply,
    /// There is no placeholder.
    Fresh,
}

/// A reply that is ready to be delivered.
#[derive(Debug)]
pub struct DeliveryPlan {
    pub mode: DeliveryMode,
    pub has_placeholder: bool,
    pub reply_to: Option<String>,
    pub chunks: Vec<String>,
}

/// How a reply is delivered.
pub open spec fn delivery_mode(
    platform: Seq<char>,
    content: Seq<char>,
    has_attachments: bool,
    has_placeholder: bool,
    has_reply_to: bool,
) -> DeliveryMode {
    if has_attachments {
        DeliveryMode::Attachments
    } else if has_placeholder {
        if has_reply_to {
            DeliveryMode::ReplacePlaceholderByReply
        } else if platform == "discord"@ && exists|i: int| mention_at(content, i) {
            DeliveryMode::ReplacePlaceholder
        } else {
            DeliveryMode::EditPlaceholder
        }
    } else if has_reply_to {
        DeliveryMode::FreshReply
    } else {
        DeliveryMode::Fresh
    }
}

/// The first message of a delivery; none where there is nothing to send.
pub open spec fn first_delivery(
    mode: DeliveryMode,
    reply_to: Option<Seq<char>>,
    chunks: Seq<Seq<char>>,
) -> Option<Delivery> {
    if mode == DeliveryMode::Attachments {
        Some(
            Delivery::SendAttachments {
                content: if chunks.len() > 0 {
                    chunks[0]
                } else {
                    "Attached requested file(s)."@
                },
                reply: reply_to,
            },
        )
    } else if chunks.len() == 0 {
        None
    } else {
        match mode {
            DeliveryMode::ReplacePlaceholderByReply | DeliveryMode::FreshReply => Some(
                Delivery::SendReply { content: chunks[0], reply_to: reply_to->0 },
            ),
            DeliveryMode::EditPlaceholder => Some(
                Delivery::EditPlaceholder { content: chunks[0] },
            ),
            _ => Some(Delivery::Send { content: chunks[0] }),
        }
    }
}

/// Messages for all parts but the first.
pub open spec fn later_chunks(chunks: Seq<Seq<char>>) -> Seq<Delivery> {
    if chunks.len() == 0 {
        Seq::empty()
    } else {
        chunks.skip(1).map_values(|c: Seq<char>| Delivery::Send { content: c })
    }
}

/// What follows the first message, which failed with `failure` or succeeded.
pub open spec fn delivery_rest(
    mode: DeliveryMode,
    has_placeholder: bool,
    chunks: Seq<Seq<char>>,
    failure: Option<Seq<char>>,
) -> Seq<Delivery> {
    match mode {
        DeliveryMode::Attachments => match failure {
            None => (if has_placeholder {
                seq![Delivery::DeletePlaceholder]
            } else {
                Seq::empty()
            }) + later_chunks(chunks),
            Some(e) => {
                let warning = "⚠️ attachment send failed: "@ + e;
                if has_placeholder {
                    seq![Delivery::EditPlaceholder { content: warning }]
                } else {
                    seq![Delivery::Send { content: warning }]
                }
            },
        },
        DeliveryMode::ReplacePlaceholderByReply | DeliveryMode::ReplacePlaceholder => later_chunks(
            chunks,
        ) + (if failure is None && chunks.len() > 0 {
            seq![Delivery::DeletePlaceholder]
        } else {
            Seq::empty()
        }),
        _ => later_chunks(chunks),
    }
}

/// Appends a message for each part but the first.
fn push_later_chunks(out: &mut Vec<DeliveryAction>, chunks: &[String])
    ensures
        deliveries(final(out)@) == deliveries(old(out)@) + later_chunks(texts(chunks@)),
{
    let ghost later = later_chunks(texts(chunks@));
    assert(deliveries(out@) =~= deliveries(old(out)@) + later.take(0));
    if chunks.len() > 0 {
        let mut i: usize = 1;
        while i < chunks.len()
            invariant
                1 <= i <= chunks@.len(),
                later == later_chunks(texts(chunks@)),
                deliveries(out@) == deliveries(old(out)@) + later.take(i - 1),
            decreases chunks@.len() - i,
        {
            let ghost before = out@;
            let ghost c = chunks@[i as int]@;
            out.push(DeliveryAction::Send { content: chunks[i].clone() });
            assert(deliveries(out@) =~= deliveries(before).push(Delivery::Send { content: c }));
            assert(later.take(i as int) =~= later.take(i - 1).push(Delivery::Send { content: c }));
            assert(deliveries(out@) =~= deliveries(old(out)@) + later.take(i as int));
            i += 1;
        }
        assert(later.take(chunks@.len() - 1) =~= later);
    } else {
        assert(later.take(0) =~= later);
    }
}

impl DeliveryPlan {
    /// A plan that holds what its mode needs.
    pub open spec fn wf(&self) -> bool {
        &&& (self.mode == DeliveryMode::ReplacePlaceholderByReply || self.mode
            == DeliveryMode::FreshReply) ==> self.reply_to is Some
        &&& (self.mode == DeliveryMode::ReplacePlaceholderByReply || self.mode
            == DeliveryMode::ReplacePlaceholder || self.mode == DeliveryMode::EditPlaceholder)
            ==> self.has_placeholder
    }

    /// Decides how the parts `chunks` of the reply `content` are delivered.
    pub fn new(
        platform: &str,
        content: &str,
        chunks: Vec<String>,
        has_attachments: bool,
        has_placeholder: bool,
        reply_to: Option<String>,
    ) -> (plan: Self)
        ensures
            plan.wf(),
            plan.mode == delivery_mode(
                platform@,
                content@,
                has_attachments,
                has_placeholder,
                reply_to is Some,
            ),
            plan.has_placeholder == has_placeholder,
            opt_text(plan.reply_to) == opt_text(reply_to),
            texts(plan.chunks@) == texts(chunks@),
    {
        let chars = chars_of(platform);
        let mode = if has_attachments {
            DeliveryMode::Attachments
        } else if has_placeholder {
            if reply_to.is_some() {
                DeliveryMode::ReplacePlaceholderByReply
            } else if is_text(chars.as_slice(), "discord") && contains_bot_mention(content) {
                DeliveryMode::ReplacePlaceholder
            } else {
                DeliveryMode::EditPlaceholder
            }
        } else if reply_to.is_some() {
            DeliveryMode::FreshReply
        } else {
            DeliveryMode::Fresh
        };
        DeliveryPlan { mode, has_placeholder, reply_to, chunks }
    }

    /// The first message; none where there is nothing to send.
    pub fn first(&self) -> (r: Option<DeliveryAction>)
        requires
            self.wf(),
        ensures
            (match r {
                Some(a) => Some(a@),
                None => None,
            }) == first_delivery(self.mode, opt_text(self.reply_to), texts(self.chunks@)),
    {
        if self.mode == DeliveryMode::Attachments {
            let content = if self.chunks.len() > 0 {
                self.chunks[0].clone()
            } else {
                "Attached requested file(s).".to_string()
            };
            return Some(
                DeliveryAction::SendAttachments { content, reply: copy_opt(&self.reply_to) },
            );
        }
        if self.chunks.len() == 0 {
            return None;
        }
        let content = self.chunks[0].clone();
        match self.mode {
            DeliveryMode::ReplacePlaceholderByReply | DeliveryMode::FreshReply => {
                match &self.reply_to {
                    Some(id) => Some(DeliveryAction::SendReply { content, reply_to: id.clone() }),
                    None => None,
                }
            },
            DeliveryMode::EditPlaceholder => Some(DeliveryAction::EditPlaceholder { content }),
            _ => Some(DeliveryAction::Send { content }),
        }
    }

    /// What follows the first message, given the error it failed with, if any.
    pub fn rest(&self, failure: &Option<String>) -> (out: Vec<DeliveryAction>)
        ensures
            deliveries(out@) == delivery_rest(
                self.mode,
                self.has_placeholder,
                texts(self.chunks@),
                opt_text(*failure),
            ),
    {
        let mut out: Vec<DeliveryAction> = Vec::new();
        let ghost want = delivery_rest(
            self.mode,
            self.has_placeholder,
            texts(self.chunks@),
            opt_text(*failure),
        );
        match self.mode {
            DeliveryMode::Attachments => match failure {
                None => {
                    if self.has_placeholder {
                        out.push(DeliveryAction::DeletePlaceholder);
                    }
                    assert(deliveries(out@) =~= (if self.has_placeholder {
                        seq![Delivery::DeletePlaceholder]
                    } else {
                        Seq::empty()
                    }));
                    push_later_chunks(&mut out, self.chunks.as_slice());
                },
                Some(e) => {
                    let mut content = String::new();
                    content.append("⚠️ attachment send failed: ");
                    content.append(e.as_str());
                    assert(content@ =~= "⚠️ attachment send failed: "@ + e@);
                    if self.has_placeholder {
                        out.push(DeliveryAction::EditPlaceholder { content });
                    } else {
                        out.push(DeliveryAction::Send { content });
                    }
                    assert(deliveries(out@) =~= want);
                },
            },
            DeliveryMode::ReplacePlaceholderByReply | DeliveryMode::ReplacePlaceholder => {
                push_later_chunks(&mut out, self.chunks.as_slice());
                if failure.is_none() && self.chunks.len() > 0 {
                    out.push(DeliveryAction::DeletePlaceholder);
                }
                assert(deliveries(out@) =~= want);
            },
            _ => {
                push_later_chunks(&mut out, self.chunks.as_slice());
                assert(deliveries(out@) =~= want);
            },
        }
        out
    }
}

/// A reply that is split at its split length reaches every bot that it mentions: each
/// part carries each mention of the whole reply and is within the message limit.
pub proof fn law_split_reply_reaches_every_bot(
    content: Seq<char>,
    chunks: Seq<Seq<char>>,
    limit: nat,
    c: int,
    m: int,
)
    requires
        chunks.len() > 1,
        0 <= c < chunks.len(),
        0 <= m < text_mentions(content, false, Seq::empty()).len(),
        mention_footer(text_mentions(content, false, Seq::empty())).len() <= limit,
        chunks[c].len() <= split_length("discord"@, content, limit),
    ensures
        ({
            let parts = delivered_chunks("discord"@, content, chunks, limit);
            &&& parts.len() == chunks.len()
            &&& parts[c].len() <= limit
            &&& contains(parts[c], text_mentions(content, false, Seq::empty())[m])
        }),
{
    law_every_chunk_carries_every_mention(
        chunks,
        text_mentions(content, false, Seq::empty()),
        limit,
        c,
        m,
    );
}

/// The text that a delivery puts into the channel; deleting puts none.
pub open spec fn delivered_text(d: Delivery) -> Option<Seq<char>> {
    match d {
        Delivery::SendAttachments { content, .. } => Some(content),
        Delivery::SendReply { content, .. } => Some(content),
        Delivery::Send { content } => Some(content),
        Delivery::EditPlaceholder { content } => Some(content),
        Delivery::DeletePlaceholder => None,
    }
}

/// The placeholder is deleted only after the first message was sent: a failed
/// delivery never leaves the channel without either.
pub proof fn law_placeholder_kept_on_failure(
    mode: DeliveryMode,
    has_placeholder: bool,
    chunks: Seq<Seq<char>>,
    failure: Option<Seq<char>>,
    i: int,
)
    requires
        0 <= i < delivery_rest(mode, has_placeholder, chunks, failure).len(),
        delivery_rest(mode, has_placeholder, chunks, failure)[i] is DeletePlaceholder,
    ensures
        failure is None,
{
}

/// Unless an attachment upload fails, the parts of the reply reach the channel
/// once each and in order.
pub proof fn law_parts_delivered_in_order(
    mode: DeliveryMode,
    has_placeholder: bool,
    reply_to: Option<Seq<char>>,
    chunks: Seq<Seq<char>>,
    failure: Option<Seq<char>>,
    k: int,
)
    requires
        0 <= k < chunks.len(),
        mode == DeliveryMode::Attachments ==> failure is None,
    ensures
        first_delivery(mode, reply_to, chunks) is Some,
        k == 0 ==> delivered_text(first_delivery(mode, reply_to, chunks)->0) == Some(chunks[0]),
        k > 0 ==> ({
            let rest = delivery_rest(mode, has_placeholder, chunks, failure);
            let shift: int = if mode == DeliveryMode::Attachments && has_placeholder {
                0
            } else {
                -1
            };
            &&& k + shift < rest.len()
            &&& delivered_text(rest[k + shift]) == Some(chunks[k])
        }),
{
    if k > 0 {
        assert(later_chunks(chunks)[k - 1] == Delivery::Send { content: chunks[k] });
    }
}

/// A streamed reply that mentions another bot, with neither attachments nor a
/// reply target, is never edited into the placeholder: an edit does not notify.
pub proof fn law_mentions_are_sent_fresh(
    content: Seq<char>,
    chunks: Seq<Seq<char>>,
    failure: Option<Seq<char>>,
    m: int,
)
    requires
        mention_at(content, m),
        chunks.len() > 0,
    ensures
        ({
            let mode = delivery_mode("discord"@, content, false, true, false);
            &&& first_delivery(mode, None, chunks) == Some(Delivery::Send { content: chunks[0] })
            &&& forall|i: int|
                0 <= i < delivery_rest(mode, true, chunks, failure).len() ==> !(
                #[trigger] delivery_rest(mode, true, chunks, failure)[i] is EditPlaceholder)
        }),
{
}

/// A reply is never empty: with nothing else to show there is a stand-in.
pub proof fn law_reply_is_never_empty(
    tools: Seq<ToolLine>,
    text: Seq<char>,
    mode: ToolDisplay,
    error: Option<Seq<char>>,
    silent: bool,
    has_attachments: bool,
    warnings: Seq<Seq<char>>,
)
    requires
        forall|i: int| 0 <= i < warnings.len() ==> (#[trigger] warnings[i]).len() > 0,
    ensures
        reply_content(tools, text, mode, error, silent, has_attachments, warnings).len() > 0,
{
    reveal_strlit("⚠️ ");
    reveal_strlit("Attached requested file(s).");
    reveal_strlit("_(no response)_");
    reveal_strlit(
        "⚠️ Agent ended the turn with no output (0 output tokens) — likely a silent provider or auth failure",
    );
    if warnings.len() > 0 {
        lemma_join_nonempty(warnings, "\n"@);
    }
}

proof fn lemma_join_nonempty(parts: Seq<Seq<char>>, sep: Seq<char>)
    requires
        parts.len() > 0,
        forall|i: int| 0 <= i < parts.len() ==> (#[trigger] parts[i]).len() > 0,
    ensures
        join(parts, sep).len() > 0,
{
    assert(parts[parts.len() - 1].len() > 0);
}

/// What a reply says: all that is shown of the turn, with an error in front of it; where
/// nothing is shown, the error alone, else that files are attached, else the stand-in for
/// a silent turn or for an empty one.
pub proof fn law_reply_says_what_happened(
    tools: Seq<ToolLine>,
    text: Seq<char>,
    mode: ToolDisplay,
    error: Option<Seq<char>>,
    silent: bool,
    has_attachments: bool,
)
    ensures
        ({
            let shown = display(tools, text, false, mode);
            let r = reply_content(
                tools,
                text,
                mode,
                error,
                silent,
                has_attachments,
                Seq::empty(),
            );
            &&& shown.len() > 0 && error is None ==> r == shown
            &&& shown.len() > 0 && error is Some ==> r == "⚠️ "@ + error->0 + "\n\n"@ + shown
            &&& shown.len() == 0 && error is Some ==> r == "⚠️ "@ + error->0
            &&& shown.len() == 0 && error is None && has_attachments ==> r
                == "Attached requested file(s)."@
            &&& shown.len() == 0 && error is None && !has_attachments && silent ==> r
                == "⚠️ Agent ended the turn with no output (0 output tokens) — likely a silent provider or auth failure"@
            &&& shown.len() == 0 && error is None && !has_attachments && !silent ==> r
                == "_(no response)_"@
        }),
{
}

/// Warnings are never lost: they stand below the reply, behind a blank line, or alone
/// where there is nothing else to say.
pub proof fn law_warnings_are_shown(
    tools: Seq<ToolLine>,
    text: Seq<char>,
    mode: ToolDisplay,
    error: Option<Seq<char>>,
    silent: bool,
    has_attachments: bool,
    warnings: Seq<Seq<char>>,
)
    requires
        warnings.len() > 0,
    ensures
        ({
            let shown = display(tools, text, false, mode);
            let plain = reply_content(
                tools,
                text,
                mode,
                error,
                silent,
                has_attachments,
                Seq::empty(),
            );
            let r = reply_content(tools, text, mode, error, silent, has_attachments, warnings);
            let block = join(warnings, "\n"@);
            &&& shown.len() == 0 && error is None && !has_attachments ==> r == block
            &&& (shown.len() > 0 || error is Some || has_attachments) && trim(plain).len() > 0 ==> r
                == plain + "\n\n"@ + block
            &&& (shown.len() > 0 || error is Some || has_attachments) && trim(plain).len() == 0
                ==> r == block
        }),
{
    assert(trim(Seq::<char>::empty()) =~= Seq::<char>::empty());
}

/// Messages for all parts but the first, in order.
pub open spec fn sends(chunks: Seq<Seq<char>>) -> Seq<Delivery> {
    Seq::new(
        (chunks.len() - 1) as nat,
        |i: int| Delivery::Send { content: chunks[i + 1] },
    )
}

/// How a reply is delivered. The first part goes out with the files, if there are any;
/// else as a reply to the message it answers, if it names one; else it takes the place of
/// the placeholder, unless it mentions somebody on a platform that does not notify of
/// edits; else it is sent. The other parts are sent behind it. A placeholder that did not
/// become the first part is deleted once that part is out.
pub proof fn law_how_a_reply_is_delivered(
    platform: Seq<char>,
    content: Seq<char>,
    has_attachments: bool,
    has_placeholder: bool,
    reply_to: Option<Seq<char>>,
    chunks: Seq<Seq<char>>,
    failure: Seq<char>,
)
    requires
        chunks.len() > 0,
    ensures
        ({
            let mode = delivery_mode(
                platform,
                content,
                has_attachments,
                has_placeholder,
                reply_to is Some,
            );
            let notifies = platform == "discord"@ && exists|i: int| mention_at(content, i);
            let edits = !has_attachments && has_placeholder && reply_to is None && !notifies;
            let sent = delivery_rest(mode, has_placeholder, chunks, None);
            let failed = delivery_rest(mode, has_placeholder, chunks, Some(failure));
            let rest = sends(chunks);
            let gone = seq![Delivery::DeletePlaceholder];
            &&& first_delivery(mode, reply_to, chunks) == Some(
                if has_attachments {
                    Delivery::SendAttachments { content: chunks[0], reply: reply_to }
                } else if reply_to is Some {
                    Delivery::SendReply { content: chunks[0], reply_to: reply_to->0 }
                } else if edits {
                    Delivery::EditPlaceholder { content: chunks[0] }
                } else {
                    Delivery::Send { content: chunks[0] }
                },
            )
            &&& has_attachments && has_placeholder ==> sent == gone + rest
            &&& has_attachments && !has_placeholder ==> sent == rest
            &&& !has_attachments && has_placeholder && !edits ==> sent == rest + gone
            &&& !has_attachments && (!has_placeholder || edits) ==> sent == rest
            &&& !has_attachments ==> failed == rest
            &&& has_attachments && has_placeholder ==> failed == seq![
                Delivery::EditPlaceholder { content: "⚠️ attachment send failed: "@ + failure },
            ]
            &&& has_attachments && !has_placeholder ==> failed == seq![
                Delivery::Send { content: "⚠️ attachment send failed: "@ + failure },
            ]
        }),
{
    let mode = delivery_mode(
        platform,
        content,
        has_attachments,
        has_placeholder,
        reply_to is Some,
    );
    let sent = delivery_rest(mode, has_placeholder, chunks, None);
    let failed = delivery_rest(mode, has_placeholder, chunks, Some(failure));
    let rest = sends(chunks);
    let gone = seq![Delivery::DeletePlaceholder];
    assert(later_chunks(chunks) =~= rest);
    assert(later_chunks(chunks) + Seq::<Delivery>::empty() =~= rest);
    assert(Seq::<Delivery>::empty() + later_chunks(chunks) =~= rest);
}

/// Without any part nothing is sent, but for files, which go out with a text of their own.
pub proof fn law_delivery_without_parts(
    platform: Seq<char>,
    content: Seq<char>,
    has_attachments: bool,
    has_placeholder: bool,
    reply_to: Option<Seq<char>>,
)
    ensures
        first_delivery(
            delivery_mode(platform, content, has_attachments, has_placeholder, reply_to is Some),
            reply_to,
            Seq::empty(),
        ) == (if has_attachments {
            Some(
                Delivery::SendAttachments {
                    content: "Attached requested file(s)."@,
                    reply: reply_to,
                },
            )
        } else {
            None
        }),
{
}

/// A reply is split at the message limit; where mentions are added to each part, their
/// length is set aside.
pub proof fn law_split_length(platform: Seq<char>, content: Seq<char>, limit: nat)
    ensures
        ({
            let footer = mention_footer(text_mentions(content, false, Seq::empty())).len();
            &&& platform != "discord"@ ==> split_length(platform, content, limit) == limit
            &&& platform == "discord"@ && footer <= limit ==> split_length(platform, content, limit)
                + footer == limit
            &&& platform == "discord"@ && footer > limit ==> split_length(platform, content, limit)
                == 0
        }),
{
}

/// On other platforms the parts of a reply are delivered as they are; everywhere each
/// part is delivered, and begins with its own text.
pub proof fn law_parts_keep_their_text(
    platform: Seq<char>,
    content: Seq<char>,
    chunks: Seq<Seq<char>>,
    limit: nat,
    c: int,
)
    requires
        0 <= c < chunks.len(),
    ensures
        delivered_chunks(platform, content, chunks, limit).len() == chunks.len(),
        chunks[c].is_prefix_of(delivered_chunks(platform, content, chunks, limit)[c]),
        platform != "discord"@ ==> delivered_chunks(platform, content, chunks, limit) == chunks,
        chunks.len() == 1 ==> delivered_chunks(platform, content, chunks, limit) == chunks,
{
}

} // verus!
