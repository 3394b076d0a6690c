//! Channels, messages and senders, independent of the platform.

use vstd::prelude::*;

use crate::acp::ContentBlock;
use crate::adapter::session::SessionDirectives;
use crate::text::{copy_opt, opt_text};

verus! {

/// Identifies a channel or thread across platforms.
///
/// Used for **routing**: `channel_id` is the ID the adapter sends messages to.
/// For Discord threads, this is the thread's own channel ID (Discord API
/// requires it for `say`/`edit`). Use `parent_id` to find the parent channel.
///
/// Compare with `SenderContext`, which is **metadata for the agent**: there
/// `channel_id` is the parent channel and `thread_id` is the thread,
/// matching Slack's model for cross-platform consistency.
#[derive(Debug)]
pub struct ChannelRef {
    pub platform: String,
    pub channel_id: String,
    /// Thread within a channel (e.g. Slack thread_ts, Telegram topic_id).
    /// For Discord, threads are separate channels so this is None.
    pub thread_id: Option<String>,
    /// Parent channel if this is a thread-as-channel (Discord).
    pub parent_id: Option<String>,
    /// Originating gateway event ID, handed back with replies so that the gateway
    /// can correlate them with inbound events (e.g. LINE reply tokens).
    /// Excluded from Hash/Eq: two ChannelRefs pointing to the same channel are
    /// equal regardless of which event they originated from.
    pub origin_event_id: Option<String>,
}

/// What a channel reference says.
pub struct Channel {
    pub platform: Seq<char>,
    pub channel_id: Seq<char>,
    pub thread_id: Option<Seq<char>>,
    pub parent_id: Option<Seq<char>>,
    pub origin_event_id: Option<Seq<char>>,
}

impl View for ChannelRef {
    type V = Channel;

    open spec fn view(&self) -> Channel {
        Channel {
            platform: self.platform@,
            channel_id: self.channel_id@,
            thread_id: opt_text(self.thread_id),
            parent_id: opt_text(self.parent_id),
            origin_event_id: opt_text(self.origin_event_id),
        }
    }
}

/// Whether two references point to the same channel, whatever event they came
/// from.
pub open spec fn same_channel(a: Channel, b: Channel) -> bool {
    &&& a.platform == b.platform
    &&& a.channel_id == b.channel_id
    &&& a.thread_id == b.thread_id
    &&& a.parent_id == b.parent_id
}

/// Whether two optional strings hold the same text.
fn same_opt(a: &Option<String>, b: &Option<String>) -> (r: bool)
    ensures
        r == (opt_text(*a) == opt_text(*b)),
{
    match (a, b) {
        (Some(x), Some(y)) => *x == *y,
        (None, None) => true,
        _ => false,
    }
}

impl PartialEq for ChannelRef {
    fn eq(&self, other: &Self) -> (r: bool) {
        self.platform == other.platform && self.channel_id == other.channel_id && same_opt(
            &self.thread_id,
            &other.thread_id,
        ) && same_opt(&self.parent_id, &other.parent_id)
    }
}

impl vstd::std_specs::cmp::PartialEqSpecImpl for ChannelRef {
    open spec fn obeys_eq_spec() -> bool {
        true
    }

    open spec fn eq_spec(&self, other: &Self) -> bool {
        same_channel(self@, other@)
    }
}

impl Eq for ChannelRef {

}

/// `str::hash` feeds the text into the hasher. Nothing is claimed of the hasher's
/// state: what that becomes is up to the hasher, which can be any.
pub assume_specification<H>[ <str as std::hash::Hash>::hash ](s: &str, state: &mut H) where
    H: std::hash::Hasher,
;

/// `Option::hash` feeds the variant and its value into the hasher. Nothing is claimed
/// of the hasher's state: what that becomes is up to the hasher, which can be any.
pub assume_specification<T, H>[ <Option<T> as std::hash::Hash>::hash ](
    o: &Option<T>,
    state: &mut H,
) where T: std::hash::Hash, H: std::hash::Hasher,
;

/// What identifies a channel: all of a reference but the event it came from.
pub open spec fn channel_identity(c: Channel) -> (
    Seq<char>,
    Seq<char>,
    Option<Seq<char>>,
    Option<Seq<char>>,
) {
    (c.platform, c.channel_id, c.thread_id, c.parent_id)
}

/// The text of an optional string slice.
spec fn opt_str(v: Option<&str>) -> Option<Seq<char>> {
    match v {
        Some(s) => Some(s@),
        None => None,
    }
}

/// An optional string as a slice.
fn as_opt_str(v: &Option<String>) -> (r: Option<&str>)
    ensures
        opt_str(r) == opt_text(*v),
{
    match v {
        Some(s) => Some(s.as_str()),
        None => None,
    }
}

impl ChannelRef {
    /// What identifies the channel, which is all that a hash is made of.
    fn identity(&self) -> (r: (&str, &str, Option<&str>, Option<&str>))
        ensures
            (r.0@, r.1@, opt_str(r.2), opt_str(r.3)) == channel_identity(self@),
    {
        (
            self.platform.as_str(),
            self.channel_id.as_str(),
            as_opt_str(&self.thread_id),
            as_opt_str(&self.parent_id),
        )
    }
}

/// A hash is made of what identifies the channel, so equal references feed the same to
/// a hasher.
impl std::hash::Hash for ChannelRef {
    fn hash<H: std::hash::Hasher>(&self, state: &mut H) {
        let (platform, channel_id, thread_id, parent_id) = self.identity();
        platform.hash(state);
        channel_id.hash(state);
        thread_id.hash(state);
        parent_id.hash(state);
    }
}

/// Two references are equal exactly where they have the same identity; the event they
/// came from never matters.
pub proof fn law_equal_channels_share_their_identity(a: Channel, b: Channel, event: Option<Seq<char>>)
    ensures
        same_channel(a, b) <==> channel_identity(a) == channel_identity(b),
        same_channel(a, Channel { origin_event_id: event, ..a }),
{
}

impl Clone for ChannelRef {
    fn clone(&self) -> (r: Self)
        ensures
            r@ == self@,
    {
        ChannelRef {
            platform: self.platform.clone(),
            channel_id: self.channel_id.clone(),
            thread_id: copy_opt(&self.thread_id),
            parent_id: copy_opt(&self.parent_id),
            origin_event_id: copy_opt(&self.origin_event_id),
        }
    }
}

/// Identifies a message across platforms.
#[derive(Debug)]
pub struct MessageRef {
    pub channel: ChannelRef,
    pub message_id: String,
}

/// What a message reference says.
pub struct Message {
    pub channel: Channel,
    pub message_id: Seq<char>,
}

impl View for MessageRef {
    type V = Message;

    open spec fn view(&self) -> Message {
        Message { channel: self.channel@, message_id: self.message_id@ }
    }
}

impl Clone for MessageRef {
    fn clone(&self) -> (r: Self)
        ensures
            r@ == self@,
    {
        MessageRef { channel: self.channel.clone(), message_id: self.message_id.clone() }
    }
}

/// Bundles per-message parameters for the handling of one message.
#[derive(Debug)]
pub struct MessageContext {
    pub thread_channel: ChannelRef,
    pub sender_json: String,
    pub prompt: String,
    pub session_directives: SessionDirectives,
    pub extra_blocks: Vec<ContentBlock>,
    pub trigger_msg: MessageRef,
    pub other_bot_present: bool,
}

/// Sender identity injected into prompts for downstream agent context.
///
/// This is **metadata for the agent**: `channel_id` always refers to the
/// logical parent channel, and `thread_id` identifies the thread (if any).
/// This convention is consistent across platforms (Slack, Discord, Telegram).
///
/// Compare with `ChannelRef`, which is used for **routing**: there
/// `channel_id` is the ID the adapter sends messages to (for Discord
/// threads, that's the thread's own channel ID, not the parent).
#[derive(Debug)]
pub struct SenderContext {
    pub schema: String,
    pub sender_id: String,
    pub sender_name: String,
    pub display_name: String,
    pub channel: String,
    pub channel_id: String,
    /// Thread identifier, if the message is inside a thread.
    /// Slack: thread_ts. Discord: thread channel ID (channel_id holds the parent).
    pub thread_id: Option<String>,
    pub is_bot: bool,
    /// Platform message creation time (ISO 8601 UTC), if available.
    /// Discord/Slack: platform timestamp. Gateway: broker receive time (best-effort).
    pub timestamp: Option<String>,
    /// Platform message ID. Agents can use this to reply to a specific message
    /// via the `[[reply_to:<message_id>]]` output directive.
    pub message_id: Option<String>,
    /// The platform user ID of the receiving bot/agent.
    /// Enables agents to identify themselves when multiple agents share the same backend.
    pub receiver_id: Option<String>,
}

impl Clone for SenderContext {
    fn clone(&self) -> (r: Self)
        ensures
            r.schema@ == self.schema@,
            r.sender_id@ == self.sender_id@,
            r.sender_name@ == self.sender_name@,
            r.display_name@ == self.display_name@,
            r.channel@ == self.channel@,
            r.channel_id@ == self.channel_id@,
            opt_text(r.thread_id) == opt_text(self.thread_id),
            r.is_bot == self.is_bot,
            opt_text(r.timestamp) == opt_text(self.timestamp),
            opt_text(r.message_id) == opt_text(self.message_id),
            opt_text(r.receiver_id) == opt_text(self.receiver_id),
    {
        SenderContext {
            schema: self.schema.clone(),
            sender_id: self.sender_id.clone(),
            sender_name: self.sender_name.clone(),
            display_name: self.display_name.clone(),
            channel: self.channel.clone(),
            channel_id: self.channel_id.clone(),
            thread_id: copy_opt(&self.thread_id),
            is_bot: self.is_bot,
            timestamp: copy_opt(&self.timestamp),
            message_id: copy_opt(&self.message_id),
            receiver_id: copy_opt(&self.receiver_id),
        }
    }
}

} // verus!
