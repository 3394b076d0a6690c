//! Turn-boundary message batching dispatcher.
//!
//! The first message after idle is dispatched at once, at most one turn per thread
//! is in flight, and arrival events are neither merged, split nor reordered.

use vstd::prelude::*;
use vstd::utf8::encode_utf8;

use crate::acp::{blocks, Block, ContentBlock};
use crate::adapter::session::{
    arrival, pack_arrival, parse_directives, session_directives, Refusal, Session,
    SessionDirectiveError,
};
use crate::adapter::types::{Channel, ChannelRef, MessageRef};
use crate::config::{MessageProcessingMode, Workspace, WorkspaceRequest};
use crate::table::Table;
use crate::text::byte_len;

verus! {

/// One arrival event buffered for a future agent turn.
#[derive(Debug)]
pub struct BufferedMessage {
    /// Serialised sender JSON (already built by the platform adapter).
    pub sender_json: String,
    /// Author display name.
    pub sender_name: String,
    /// User-visible prompt text (verbatim, never transformed).
    pub prompt: String,
    /// Pre-parsed workspace directive from adapters that must validate before
    /// creating platform-specific resources such as Discord threads.
    pub workspace_request: Option<WorkspaceRequest>,
    /// Attachment blocks (images, STT transcripts) in arrival order.
    pub extra_blocks: Vec<ContentBlock>,
    /// Anchor for reactions (👀 / ❌).
    pub trigger_msg: MessageRef,
    /// Broker receive time in milliseconds.
    pub arrived_at_ms: u64,
    /// Rough token estimate for the batch's token cap.
    pub estimated_tokens: usize,
    /// Snapshot at submit time. Captured per-message so a batch reflects the
    /// freshest known state.
    pub other_bot_present: bool,
}

/// How keys are built for the dispatcher's per-thread map.
///
/// - `Thread`: all senders in a thread share one batch and one agent turn per batch
///   (cheaper, but risks silent drop when the agent's single reply forgets to
///   address some senders).
/// - `Lane`: each sender batches independently and gets a dedicated agent turn.
///   Sessions are still shared per-thread; turns serialise through the shared
///   session.
#[derive(Debug, Clone, Copy, PartialEq, Eq, Structural)]
pub enum BatchGrouping {
    Thread,
    Lane,
}

/// Error returned when a message cannot be handed to a consumer.
#[derive(Debug, Clone, Copy, PartialEq, Eq, Structural)]
pub enum DispatchError {
    /// The per-thread consumer task has exited unexpectedly.
    ConsumerDead,
}

impl DispatchError {
    /// The text shown to the user.
    pub fn message(&self) -> (s: &'static str)
        ensures
            s@ == "dispatch consumer exited unexpectedly"@,
    {
        "dispatch consumer exited unexpectedly"
    }
}

/// Idle timeout in seconds of per-thread consumers in batched modes.
///
/// Batched modes need a longer window so a lane that's between trigger arrivals
/// isn't torn down and respawned on every message.
pub const DEFAULT_CONSUMER_IDLE_TIMEOUT: u64 = 300;

/// Idle timeout in seconds of consumers in per-message mode, where there is no
/// batch window to preserve.
pub const PER_MESSAGE_CONSUMER_IDLE_TIMEOUT: u64 = 10;

/// Resolve `(cap, grouping, idle timeout in seconds)` for a given processing mode.
///
/// Per-message mode forces cap=1 + Thread grouping + the short per-message idle;
/// Thread / Lane modes use the configured `max_buffered` and the default idle
/// window.
pub fn dispatch_params(mode: &MessageProcessingMode, max_buffered: usize) -> (r: (
    usize,
    BatchGrouping,
    u64,
))
    ensures
        r == match mode {
            MessageProcessingMode::Message => (
                1usize,
                BatchGrouping::Thread,
                PER_MESSAGE_CONSUMER_IDLE_TIMEOUT,
            ),
            MessageProcessingMode::Thread => (
                max_buffered,
                BatchGrouping::Thread,
                DEFAULT_CONSUMER_IDLE_TIMEOUT,
            ),
            MessageProcessingMode::Lane => (
                max_buffered,
                BatchGrouping::Lane,
                DEFAULT_CONSUMER_IDLE_TIMEOUT,
            ),
        },
{
    match mode {
        MessageProcessingMode::Message => (
            1,
            BatchGrouping::Thread,
            PER_MESSAGE_CONSUMER_IDLE_TIMEOUT,
        ),
        MessageProcessingMode::Thread => (
            max_buffered,
            BatchGrouping::Thread,
            DEFAULT_CONSUMER_IDLE_TIMEOUT,
        ),
        MessageProcessingMode::Lane => (
            max_buffered,
            BatchGrouping::Lane,
            DEFAULT_CONSUMER_IDLE_TIMEOUT,
        ),
    }
}

/// Rough char-to-token ratio for English-ish text.
pub const CHARS_PER_TOKEN_ESTIMATE: usize = 4;

/// Conservative per-image token budget. Larger than typical image cost
/// so the cap trips before we hand the model an oversized batch.
pub const TOKENS_PER_IMAGE_ESTIMATE: usize = 512;

/// The estimate for a text: one token for each four bytes, and one more.
pub open spec fn text_tokens(s: Seq<char>) -> nat {
    (encode_utf8(s).len() / CHARS_PER_TOKEN_ESTIMATE as nat + 1) as nat
}

/// The estimate for a block.
pub open spec fn block_tokens(b: Block) -> nat {
    match b {
        Block::Text(s) => text_tokens(s),
        Block::Image { .. } => TOKENS_PER_IMAGE_ESTIMATE as nat,
    }
}

/// The estimate for several blocks.
pub open spec fn blocks_tokens(bs: Seq<Block>) -> nat
    decreases bs.len(),
{
    if bs.len() == 0 {
        0
    } else {
        blocks_tokens(bs.drop_last()) + block_tokens(bs.last())
    }
}

proof fn lemma_blocks_tokens_prefix(bs: Seq<Block>, n: int)
    requires
        0 <= n <= bs.len(),
    ensures
        blocks_tokens(bs.take(n)) <= blocks_tokens(bs),
    decreases bs.len() - n,
{
    if n < bs.len() {
        lemma_blocks_tokens_prefix(bs, n + 1);
        assert(bs.take(n + 1).drop_last() =~= bs.take(n));
    } else {
        assert(bs.take(n) =~= bs);
    }
}

/// Rough token estimate for a buffered message (used for the batch's token cap).
/// Intentionally coarse: the goal is a guard rail, not an exact pre-flight.
pub fn estimate_tokens(prompt: &str, extra_blocks: &[ContentBlock]) -> (n: usize)
    requires
        text_tokens(prompt@) + blocks_tokens(blocks(extra_blocks@)) <= usize::MAX,
    ensures
        n == text_tokens(prompt@) + blocks_tokens(blocks(extra_blocks@)),
{
    let mut total: usize = byte_len(prompt) / CHARS_PER_TOKEN_ESTIMATE + 1;
    let mut i: usize = 0;
    let ghost bs = blocks(extra_blocks@);
    while i < extra_blocks.len()
        invariant
            i <= extra_blocks@.len(),
            bs == blocks(extra_blocks@),
            text_tokens(prompt@) + blocks_tokens(bs) <= usize::MAX,
            total == text_tokens(prompt@) + blocks_tokens(bs.take(i as int)),
        decreases extra_blocks@.len() - i,
    {
        proof {
            lemma_blocks_tokens_prefix(bs, i + 1);
            assert(bs.take(i + 1).drop_last() =~= bs.take(i as int));
            assert(bs.take(i + 1).last() == extra_blocks@[i as int]@);
        }
        let n: usize = match &extra_blocks[i] {
            ContentBlock::Text { text } => byte_len(text.as_str()) / CHARS_PER_TOKEN_ESTIMATE + 1,
            ContentBlock::Image { .. } => TOKENS_PER_IMAGE_ESTIMATE,
        };
        total += n;
        i += 1;
    }
    assert(bs.take(i as int) =~= bs);
    total
}

/// The consumer of one thread or lane. Its generation tells it from consumers that
/// served the same key before.
#[derive(Debug)]
pub struct ThreadHandle {
    pub generation: u64,
    pub channel_id: String,
    pub adapter_kind: String,
}

/// What a handle says.
pub struct Lane {
    pub generation: u64,
    pub channel_id: Seq<char>,
    pub adapter_kind: Seq<char>,
}

impl View for ThreadHandle {
    type V = Lane;

    open spec fn view(&self) -> Lane {
        Lane {
            generation: self.generation,
            channel_id: self.channel_id@,
            adapter_kind: self.adapter_kind@,
        }
    }
}

/// Per-thread message dispatcher for batched mode.
#[derive(Debug)]
pub struct Dispatcher {
    per_thread: Table<ThreadHandle>,
    /// Counter for generations: they need only differ, not be contiguous.
    next_generation: u64,
    max_buffered_messages: usize,
    max_batch_tokens: usize,
    grouping: BatchGrouping,
    idle_timeout_secs: u64,
}

/// What a dispatcher holds.
pub struct Lanes {
    pub lanes: Map<Seq<char>, Lane>,
    pub next_generation: u64,
}

/// What a dispatcher is set up with.
pub struct DispatchSettings {
    pub max_buffered_messages: usize,
    pub max_batch_tokens: usize,
    pub grouping: BatchGrouping,
    pub idle_timeout_secs: u64,
}

impl View for Dispatcher {
    type V = Lanes;

    closed spec fn view(&self) -> Lanes {
        Lanes {
            lanes: self.per_thread@.map_values(|h: ThreadHandle| h@),
            next_generation: self.next_generation,
        }
    }
}

/// The key of a message's lane.
pub open spec fn lane_key(
    grouping: BatchGrouping,
    platform: Seq<char>,
    thread_id: Seq<char>,
    sender_id: Seq<char>,
) -> Seq<char> {
    match grouping {
        BatchGrouping::Thread => platform + ":"@ + thread_id,
        BatchGrouping::Lane => platform + ":"@ + thread_id + ":"@ + sender_id,
    }
}

/// The key of a channel's session, which all senders share.
pub open spec fn session_key_of(c: Channel) -> Seq<char> {
    c.platform + ":"@ + (match c.thread_id {
        Some(t) => t,
        None => c.channel_id,
    })
}

/// Whether a lane belongs to a thread, for all senders.
pub open spec fn belongs(key: Seq<char>, platform: Seq<char>, thread_id: Seq<char>) -> bool {
    key == platform + ":"@ + thread_id || crate::text::has_prefix(
        key,
        platform + ":"@ + thread_id + ":"@,
    )
}

/// A consumer to hand a message to.
#[derive(Debug, Clone, Copy, PartialEq, Eq, Structural)]
pub struct SubmitAttempt {
    pub generation: u64,
    /// The consumer does not run yet and is to be started.
    pub spawn: bool,
    /// A second failure is final.
    pub is_retry: bool,
}

/// What came of handing a message over.
#[derive(Debug, Clone, Copy, PartialEq, Eq, Structural)]
pub enum SubmitOutcome {
    Delivered,
    /// Hand it to this consumer instead.
    Retry(SubmitAttempt),
    /// Tell the user.
    Failed(DispatchError),
}

/// The dispatcher and the consumer for `key`: the one there is, else a new one.
pub open spec fn acquire(
    s: Lanes,
    key: Seq<char>,
    channel_id: Seq<char>,
    adapter_kind: Seq<char>,
    is_retry: bool,
) -> (Lanes, SubmitAttempt) {
    let next = s.next_generation.wrapping_add(1);
    if s.lanes.contains_key(key) {
        (
            Lanes { next_generation: next, ..s },
            SubmitAttempt { generation: s.lanes[key].generation, spawn: false, is_retry },
        )
    } else {
        (
            Lanes {
                lanes: s.lanes.insert(
                    key,
                    Lane { generation: s.next_generation, channel_id, adapter_kind },
                ),
                next_generation: next,
            },
            SubmitAttempt { generation: s.next_generation, spawn: true, is_retry },
        )
    }
}

/// The dispatcher without the consumer of `key`, if it is of the given generation.
pub open spec fn evict(s: Lanes, key: Seq<char>, generation: u64) -> Lanes {
    if s.lanes.contains_key(key) && s.lanes[key].generation == generation {
        Lanes { lanes: s.lanes.remove(key), ..s }
    } else {
        s
    }
}

impl Dispatcher {
    /// What the dispatcher is set up with.
    pub closed spec fn settings(&self) -> DispatchSettings {
        DispatchSettings {
            max_buffered_messages: self.max_buffered_messages,
            max_batch_tokens: self.max_batch_tokens,
            grouping: self.grouping,
            idle_timeout_secs: self.idle_timeout_secs,
        }
    }

    /// Construct a dispatcher with an explicit consumer idle timeout.
    pub fn with_idle_timeout(
        max_buffered_messages: usize,
        max_batch_tokens: usize,
        grouping: BatchGrouping,
        idle_timeout_secs: u64,
    ) -> (d: Self)
        ensures
            d@ == (Lanes { lanes: Map::empty(), next_generation: 0 }),
            d.settings() == (DispatchSettings {
                max_buffered_messages,
                max_batch_tokens,
                grouping,
                idle_timeout_secs,
            }),
    {
        let d = Dispatcher {
            per_thread: Table::new(),
            next_generation: 0,
            max_buffered_messages,
            max_batch_tokens,
            grouping,
            idle_timeout_secs,
        };
        assert(d@.lanes =~= Map::<Seq<char>, Lane>::empty());
        d
    }

    /// The most messages that one turn takes.
    pub fn max_batch(&self) -> (n: usize)
        ensures
            n == self.settings().max_buffered_messages,
    {
        self.max_buffered_messages
    }

    /// The most estimated tokens that one turn takes.
    pub fn max_tokens(&self) -> (n: usize)
        ensures
            n == self.settings().max_batch_tokens,
    {
        self.max_batch_tokens
    }

    /// The seconds after which an idle consumer exits.
    pub fn idle_timeout(&self) -> (n: u64)
        ensures
            n == self.settings().idle_timeout_secs,
    {
        self.idle_timeout_secs
    }

    /// Build the dispatcher key for a (platform, thread, sender) tuple.
    ///
    /// In `Thread` mode the sender is ignored; in `Lane` mode the sender is appended
    /// so each (thread, sender) pair gets its own consumer.
    ///
    /// Note: this is the *dispatcher* key, not the *session pool* key. Session pool keys
    /// are always `<platform>:<thread_id>` regardless of grouping (the agent session is
    /// shared per-thread by design).
    pub fn key(&self, platform: &str, thread_id: &str, sender_id: &str) -> (k: String)
        ensures
            k@ == lane_key(self.settings().grouping, platform@, thread_id@, sender_id@),
    {
        let thread = platform.to_string().concat(":").concat(thread_id);
        match self.grouping {
            BatchGrouping::Thread => thread,
            BatchGrouping::Lane => thread.concat(":").concat(sender_id),
        }
    }

    /// Build the shared session pool key for a routed channel.
    ///
    /// Unlike dispatcher keys, session keys never include sender identity.
    /// They track the logical conversation thread across all grouping modes.
    pub fn session_key(thread_channel: &ChannelRef) -> (k: String)
        ensures
            k@ == session_key_of(thread_channel@),
    {
        let thread = match &thread_channel.thread_id {
            Some(t) => t.as_str(),
            None => thread_channel.channel_id.as_str(),
        };
        thread_channel.platform.clone().concat(":").concat(thread)
    }

    fn obtain(
        &mut self,
        key: &str,
        channel_id: &str,
        adapter_kind: &str,
        is_retry: bool,
    ) -> (r: SubmitAttempt)
        ensures
            (final(self)@, r) == acquire(old(self)@, key@, channel_id@, adapter_kind@, is_retry),
            final(self).settings() == old(self).settings(),
    {
        let fresh: u64 = self.next_generation;
        self.next_generation = fresh.wrapping_add(1);
        match self.per_thread.get(key) {
            Some(h) => SubmitAttempt { generation: h.generation, spawn: false, is_retry },
            None => {
                let handle = ThreadHandle {
                    generation: fresh,
                    channel_id: channel_id.to_string(),
                    adapter_kind: adapter_kind.to_string(),
                };
                self.per_thread.insert(key, handle);
                assert(self@.lanes =~= old(self)@.lanes.insert(key@, handle@));
                SubmitAttempt { generation: fresh, spawn: true, is_retry }
            },
        }
    }

    /// Removes the consumer of `key` only if its generation is still
    /// `my_generation`, which protects a fresh consumer that took its place.
    /// Returns true if it was removed.
    pub fn try_evict(&mut self, key: &str, my_generation: u64) -> (r: bool)
        ensures
            final(self)@ == evict(old(self)@, key@, my_generation),
            final(self).settings() == old(self).settings(),
            r == (old(self)@.lanes.contains_key(key@) && old(self)@.lanes[key@].generation
                == my_generation),
    {
        let same = match self.per_thread.get(key) {
            Some(h) => h.generation == my_generation,
            None => false,
        };
        if same {
            self.per_thread.remove(key);
            assert(self@.lanes =~= old(self)@.lanes.remove(key@));
        }
        same
    }

    /// Finds the consumer for a message; `finished` tells that the consumer of this
    /// key has exited, so that it is replaced.
    pub fn submit(
        &mut self,
        key: &str,
        channel_id: &str,
        adapter_kind: &str,
        finished: bool,
    ) -> (r: SubmitAttempt)
        ensures
            (final(self)@, r) == acquire(
                if finished {
                    Lanes { lanes: old(self)@.lanes.remove(key@), ..old(self)@ }
                } else {
                    old(self)@
                },
                key@,
                channel_id@,
                adapter_kind@,
                false,
            ),
            final(self).settings() == old(self).settings(),
    {
        if finished {
            self.per_thread.remove(key);
            assert(self@.lanes =~= old(self)@.lanes.remove(key@));
        }
        self.obtain(key, channel_id, adapter_kind, false)
    }

    /// What follows an attempt to hand a message over: a consumer that has exited is
    /// removed and replaced once.
    pub fn submitted(
        &mut self,
        key: &str,
        channel_id: &str,
        adapter_kind: &str,
        attempt: SubmitAttempt,
        sent: bool,
    ) -> (r: SubmitOutcome)
        ensures
            final(self).settings() == old(self).settings(),
            sent ==> r == SubmitOutcome::Delivered && final(self)@ == old(self)@,
            !sent && attempt.is_retry ==> r == SubmitOutcome::Failed(DispatchError::ConsumerDead)
                && final(self)@ == evict(old(self)@, key@, attempt.generation),
            !sent && !attempt.is_retry ==> ({
                let (s, a) = acquire(
                    evict(old(self)@, key@, attempt.generation),
                    key@,
                    channel_id@,
                    adapter_kind@,
                    true,
                );
                r == SubmitOutcome::Retry(a) && final(self)@ == s
            }),
    {
        if sent {
            return SubmitOutcome::Delivered;
        }
        self.try_evict(key, attempt.generation);
        if attempt.is_retry {
            SubmitOutcome::Failed(DispatchError::ConsumerDead)
        } else {
            SubmitOutcome::Retry(self.obtain(key, channel_id, adapter_kind, true))
        }
    }

    /// The keys that belong to a thread, for all senders.
    fn thread_keys(&self, platform: &str, thread_id: &str) -> (keys: Vec<String>)
        ensures
            forall|k: Seq<char>|
                crate::text::texts(keys@).contains(k) <==> self@.lanes.contains_key(k) && belongs(
                    k,
                    platform@,
                    thread_id@,
                ),
            crate::text::texts(keys@).no_duplicates(),
    {
        let prefix = platform.to_string().concat(":").concat(thread_id);
        let lane_prefix = prefix.clone().concat(":");
        let n: usize = self.per_thread.len();
        let mut keys: Vec<String> = Vec::new();
        let mut i: usize = 0;
        let ghost order = self.per_thread.order();
        while i < n
            invariant
                i <= n,
                order == self.per_thread.order(),
                n == order.len(),
                order.no_duplicates(),
                prefix@ == platform@ + ":"@ + thread_id@,
                lane_prefix@ == platform@ + ":"@ + thread_id@ + ":"@,
                forall|k: Seq<char>| #[trigger]
                    crate::text::texts(keys@).contains(k) <==> order.take(i as int).contains(k)
                        && belongs(k, platform@, thread_id@),
                crate::text::texts(keys@).no_duplicates(),
            decreases n - i,
        {
            let (k, _) = self.per_thread.entry(i);
            let chars = crate::text::chars_of(k);
            let ghost before = crate::text::texts(keys@);
            let ghost t = order.take(i as int);
            let ghost u = order.take(i + 1);
            proof {
                assert(u =~= t.push(k@));
                assert(!t.contains(k@)) by {
                    if t.contains(k@) {
                        let j = choose|j: int| 0 <= j < t.len() && t[j] == k@;
                        assert(order[j] == order[i as int]);
                    }
                }
                assert forall|x: Seq<char>| u.contains(x) == (t.contains(x) || x == k@) by {
                    if t.contains(x) {
                        let j = choose|j: int| 0 <= j < t.len() && t[j] == x;
                        assert(u[j] == x);
                    }
                    assert(u[i as int] == k@);
                }
            }
            if crate::text::is_text(chars.as_slice(), prefix.as_str())
                || crate::text::starts_with(chars.as_slice(), lane_prefix.as_str()) {
                keys.push(k.to_string());
                let ghost after = crate::text::texts(keys@);
                proof {
                    assert(after =~= before.push(k@));
                    assert forall|x: Seq<char>| after.contains(x) == (before.contains(x) || x
                        == k@) by {
                        if before.contains(x) {
                            let j = choose|j: int| 0 <= j < before.len() && before[j] == x;
                            assert(after[j] == x);
                        }
                        assert(after[before.len() as int] == k@);
                    }
                    assert(!before.contains(k@));
                }
            }
            i += 1;
        }
        proof {
            assert(order.take(n as int) =~= order);
            assert forall|k: Seq<char>| order.contains(k) == self@.lanes.contains_key(k) by {
                assert(order.to_set().contains(k) == self.per_thread@.dom().contains(k));
            }
        }
        keys
    }

    /// Removes the consumers of `keys`.
    fn remove_all(&mut self, keys: &[String])
        ensures
            final(self)@ == (Lanes {
                lanes: old(self)@.lanes.remove_keys(crate::text::texts(keys@).to_set()),
                ..old(self)@
            }),
            final(self).settings() == old(self).settings(),
    {
        let mut i: usize = 0;
        let ghost names = crate::text::texts(keys@);
        assert(self@.lanes =~= old(self)@.lanes.remove_keys(names.take(0).to_set()));
        while i < keys.len()
            invariant
                i <= keys@.len(),
                names == crate::text::texts(keys@),
                self@ == (Lanes {
                    lanes: old(self)@.lanes.remove_keys(names.take(i as int).to_set()),
                    ..old(self)@
                }),
                self.settings() == old(self).settings(),
            decreases keys@.len() - i,
        {
            let ghost before = self@.lanes;
            self.per_thread.remove(keys[i].as_str());
            proof {
                let k = names[i as int];
                let t = names.take(i as int);
                let u = names.take(i + 1);
                assert(u =~= t.push(k));
                assert(u.to_set() =~= t.to_set().insert(k)) by {
                    assert forall|x: Seq<char>| u.contains(x) == (t.contains(x) || x == k) by {
                        if t.contains(x) {
                            let j = choose|j: int| 0 <= j < t.len() && t[j] == x;
                            assert(u[j] == x);
                        }
                        assert(u[i as int] == k);
                    }
                }
                assert(self@.lanes =~= before.remove(k));
                assert(self@.lanes =~= old(self)@.lanes.remove_keys(u.to_set()));
            }
            i += 1;
        }
        assert(names.take(i as int) =~= names);
    }

    /// Drop all consumers whose key belongs to `(platform, thread_id)`, regardless of
    /// grouping. Returns their keys, so that each is stopped and its buffered
    /// messages are counted.
    ///
    /// Matches both Thread keys (`<platform>:<thread_id>`) and Lane keys
    /// (`<platform>:<thread_id>:<sender_id>`), to clear the entire thread, not just
    /// one lane. A message that arrives afterwards gets a fresh consumer.
    pub fn cancel_buffered_thread(&mut self, platform: &str, thread_id: &str) -> (keys: Vec<String>)
        ensures
            final(self)@ == (Lanes {
                lanes: old(self)@.lanes.remove_keys(
                    Set::new(|k: Seq<char>| belongs(k, platform@, thread_id@)),
                ),
                ..old(self)@
            }),
            final(self).settings() == old(self).settings(),
            crate::text::texts(keys@).no_duplicates(),
            forall|k: Seq<char>|
                crate::text::texts(keys@).contains(k) <==> old(self)@.lanes.contains_key(k)
                    && belongs(k, platform@, thread_id@),
    {
        let keys = self.thread_keys(platform, thread_id);
        self.remove_all(keys.as_slice());
        assert(self@.lanes =~= old(self)@.lanes.remove_keys(
            Set::new(|k: Seq<char>| belongs(k, platform@, thread_id@)),
        ));
        keys
    }

    /// Remove the consumers that have exited, which `finished` lists. Called
    /// periodically to prevent unbounded growth from one-shot keys. Returns the
    /// number removed.
    pub fn sweep_stale(&mut self, finished: &[String]) -> (n: usize)
        ensures
            final(self)@ == (Lanes {
                lanes: old(self)@.lanes.remove_keys(crate::text::texts(finished@).to_set()),
                ..old(self)@
            }),
            final(self).settings() == old(self).settings(),
            n == old(self)@.lanes.len() - final(self)@.lanes.len(),
    {
        let before: usize = self.per_thread.len();
        assert(self@.lanes.dom() =~= self.per_thread@.dom());
        self.remove_all(finished);
        let after: usize = self.per_thread.len();
        proof {
            assert(self@.lanes.dom() =~= self.per_thread@.dom());
            assert(self@.lanes.dom().subset_of(old(self)@.lanes.dom()));
            vstd::set_lib::lemma_len_subset(self@.lanes.dom(), old(self)@.lanes.dom());
        }
        before - after
    }

    /// The keys of all lanes that have a consumer.
    pub fn lane_keys(&self) -> (keys: Vec<String>)
        ensures
            crate::text::texts(keys@).no_duplicates(),
            crate::text::texts(keys@).to_set() == self@.lanes.dom(),
    {
        let n: usize = self.per_thread.len();
        let mut keys: Vec<String> = Vec::new();
        let mut i: usize = 0;
        let ghost order = self.per_thread.order();
        while i < n
            invariant
                i <= n,
                order == self.per_thread.order(),
                n == order.len(),
                crate::text::texts(keys@) == order.take(i as int),
            decreases n - i,
        {
            let (k, _) = self.per_thread.entry(i);
            let ghost before = crate::text::texts(keys@);
            keys.push(k.to_string());
            assert(crate::text::texts(keys@) =~= before.push(order[i as int]));
            assert(order.take(i + 1) =~= order.take(i as int).push(order[i as int]));
            i += 1;
        }
        assert(order.take(n as int) =~= order);
        assert(self@.lanes.dom() =~= self.per_thread@.dom());
        keys
    }

    /// Drops all consumers and returns their keys.
    pub fn shutdown(&mut self) -> (keys: Vec<String>)
        ensures
            final(self)@ == (Lanes { lanes: Map::empty(), ..old(self)@ }),
            final(self).settings() == old(self).settings(),
            crate::text::texts(keys@).no_duplicates(),
            crate::text::texts(keys@).to_set() == old(self)@.lanes.dom(),
    {
        let keys = self.lane_keys();
        self.per_thread.clear();
        assert(self@.lanes =~= Map::<Seq<char>, Lane>::empty());
        keys
    }
}

/// Collects the messages of one consumer into batches. A message that exceeds the
/// token cap of the current batch is held back and opens the next one.
#[derive(Debug)]
pub struct Batcher {
    max_batch: usize,
    max_tokens: usize,
    batch: Vec<BufferedMessage>,
    tokens: usize,
    pending: Option<BufferedMessage>,
}

/// What a batcher holds.
pub struct Batch {
    pub max_batch: usize,
    pub max_tokens: usize,
    pub batch: Seq<BufferedMessage>,
    pub pending: Option<BufferedMessage>,
}

impl View for Batcher {
    type V = Batch;

    closed spec fn view(&self) -> Batch {
        Batch {
            max_batch: self.max_batch,
            max_tokens: self.max_tokens,
            batch: self.batch@,
            pending: self.pending,
        }
    }
}

/// The estimated tokens of several messages.
pub open spec fn batch_tokens(ms: Seq<BufferedMessage>) -> nat
    decreases ms.len(),
{
    if ms.len() == 0 {
        0
    } else {
        batch_tokens(ms.drop_last()) + ms.last().estimated_tokens as nat
    }
}

/// Whether a batch is within its limits; a single message always is.
pub open spec fn batch_ok(ms: Seq<BufferedMessage>, max_batch: usize, max_tokens: usize) -> bool {
    ms.len() <= 1 || (ms.len() <= max_batch && batch_tokens(ms) <= max_tokens)
}

/// Whether the batch takes another message.
pub open spec fn wants_more(b: Batch) -> bool {
    b.pending is None && (b.batch.len() == 0 || b.batch.len() < b.max_batch)
}

/// The batcher after a message has arrived.
pub open spec fn received(b: Batch, m: BufferedMessage) -> Batch {
    if b.batch.len() > 0 && batch_tokens(b.batch) + m.estimated_tokens > b.max_tokens {
        Batch { pending: Some(m), ..b }
    } else {
        Batch { batch: b.batch.push(m), ..b }
    }
}

/// The batcher after its batch was taken.
pub open spec fn flushed(b: Batch) -> Batch {
    Batch {
        batch: match b.pending {
            Some(m) => seq![m],
            None => Seq::empty(),
        },
        pending: None,
        ..b
    }
}

impl Batcher {
    #[verifier::type_invariant]
    spec fn consistent(self) -> bool {
        &&& self.tokens == batch_tokens(self.batch@)
        &&& batch_ok(self.batch@, self.max_batch, self.max_tokens)
        &&& self.pending is Some ==> self.batch@.len() > 0
    }

    /// An empty batcher.
    pub fn new(max_batch: usize, max_tokens: usize) -> (b: Self)
        ensures
            b@ == (Batch { max_batch, max_tokens, batch: Seq::empty(), pending: None }),
    {
        Batcher { max_batch, max_tokens, batch: Vec::new(), tokens: 0, pending: None }
    }

    /// Whether there is nothing to dispatch, so that a message is to be waited for.
    pub fn is_empty(&self) -> (r: bool)
        ensures
            r == (self@.batch.len() == 0),
    {
        self.batch.len() == 0
    }

    /// Whether the batch takes another message that is there already.
    pub fn wants_more(&self) -> (r: bool)
        ensures
            r == wants_more(self@),
    {
        self.pending.is_none() && (self.batch.len() == 0 || self.batch.len() < self.max_batch)
    }

    /// Takes a message.
    pub fn receive(&mut self, m: BufferedMessage)
        requires
            wants_more(old(self)@),
        ensures
            final(self)@ == received(old(self)@, m),
    {
        proof {
            use_type_invariant(&*self);
        }
        if self.batch.len() > 0 && (self.tokens > self.max_tokens || m.estimated_tokens
            > self.max_tokens - self.tokens) {
            self.pending = Some(m);
        } else {
            let ghost before = self.batch@;
            let max_batch: usize = self.max_batch;
            let max_tokens: usize = self.max_tokens;
            let tokens: usize = self.tokens + m.estimated_tokens;
            let mut fresh = Batcher::new(max_batch, max_tokens);
            std::mem::swap(self, &mut fresh);
            let Batcher { mut batch, .. } = fresh;
            batch.push(m);
            assert(batch@.drop_last() =~= before);
            *self = Batcher { max_batch, max_tokens, batch, tokens, pending: None };
        }
    }

    /// Takes the batch; a message that was held back opens the next one.
    pub fn flush(&mut self) -> (out: Vec<BufferedMessage>)
        ensures
            out@ == old(self)@.batch,
            final(self)@ == flushed(old(self)@),
            batch_ok(out@, old(self)@.max_batch, old(self)@.max_tokens),
    {
        proof {
            use_type_invariant(&*self);
        }
        let max_batch: usize = self.max_batch;
        let max_tokens: usize = self.max_tokens;
        let mut fresh = Batcher::new(max_batch, max_tokens);
        std::mem::swap(self, &mut fresh);
        let Batcher { batch, pending, .. } = fresh;
        match pending {
            Some(m) => {
                let tokens: usize = m.estimated_tokens;
                let mut first: Vec<BufferedMessage> = Vec::new();
                first.push(m);
                assert(first@ =~= seq![m]);
                assert(first@.drop_last() =~= Seq::<BufferedMessage>::empty());
                assert(batch_tokens(first@) == batch_tokens(first@.drop_last()) + tokens);
                *self = Batcher { max_batch, max_tokens, batch: first, tokens, pending: None };
            },
            None => {},
        }
        batch
    }
}

/// Why a batch is not dispatched.
#[derive(Debug, PartialEq, Eq)]
pub enum BatchRefusal {
    /// A message asks for a workspace or a title in a thread that exists.
    DirectivesNotAllowed,
    /// Two messages come with different workspaces.
    ConflictingWorkspaces,
    /// A message's directives cannot be read.
    Malformed(SessionDirectiveError),
}

/// What such a refusal says.
pub enum BatchStop {
    DirectivesNotAllowed,
    ConflictingWorkspaces,
    Malformed(Refusal),
}

impl View for BatchRefusal {
    type V = BatchStop;

    open spec fn view(&self) -> BatchStop {
        match self {
            BatchRefusal::DirectivesNotAllowed => BatchStop::DirectivesNotAllowed,
            BatchRefusal::ConflictingWorkspaces => BatchStop::ConflictingWorkspaces,
            BatchRefusal::Malformed(e) => BatchStop::Malformed(e@),
        }
    }
}

impl BatchRefusal {
    /// The text shown to the user; nothing where the error's own text is shown.
    pub fn notice(&self) -> (r: Option<&'static str>)
        ensures
            match r {
                Some(s) => match self@ {
                    BatchStop::DirectivesNotAllowed => s@
                        == "⚠️ session directives are only allowed when starting a new thread; start a new thread to change workspace or title"@,
                    BatchStop::ConflictingWorkspaces => s@
                        == "⚠️ conflicting workspace directives in one dispatch; start a new thread with one workspace"@,
                    BatchStop::Malformed(_) => false,
                },
                None => self@ is Malformed,
            },
    {
        match self {
            BatchRefusal::DirectivesNotAllowed => Some(
                "⚠️ session directives are only allowed when starting a new thread; start a new thread to change workspace or title",
            ),
            BatchRefusal::ConflictingWorkspaces => Some(
                "⚠️ conflicting workspace directives in one dispatch; start a new thread with one workspace",
            ),
            BatchRefusal::Malformed(_) => None,
        }
    }
}

/// A batch that is ready for an agent.
#[derive(Debug)]
pub struct PreparedBatch {
    pub workspace_request: Option<WorkspaceRequest>,
    pub content_blocks: Vec<ContentBlock>,
    /// Whether another bot was present, as the last message found it.
    pub other_bot_present: bool,
}

/// What a prepared batch says.
pub struct Prepared {
    pub workspace: Option<Workspace>,
    pub blocks: Seq<Block>,
}

/// The workspace that came with a message.
pub open spec fn message_workspace(m: BufferedMessage) -> Option<Workspace> {
    match m.workspace_request {
        Some(w) => Some(w@),
        None => None,
    }
}

/// The first `n` messages prepared for an agent: each is an arrival of its own, in
/// order, and all agree on the workspace.
pub open spec fn prepared(ms: Seq<BufferedMessage>, n: int) -> Result<Prepared, BatchStop>
    decreases n,
{
    if n <= 0 {
        Ok(Prepared { workspace: None, blocks: Seq::empty() })
    } else {
        let m = ms[n - 1];
        let own = message_workspace(m);
        match prepared(ms, n - 1) {
            Err(e) => Err(e),
            Ok(p) => match session_directives(m.prompt@) {
                Err(e) => Err(BatchStop::Malformed(e)),
                Ok((d, prompt)) => if d.workspace is Some || d.title is Some {
                    Err(BatchStop::DirectivesNotAllowed)
                } else if own is Some && p.workspace is Some && own != p.workspace {
                    Err(BatchStop::ConflictingWorkspaces)
                } else {
                    Ok(
                        Prepared {
                            workspace: if p.workspace is Some {
                                p.workspace
                            } else {
                                own
                            },
                            blocks: p.blocks + arrival(
                                m.sender_json@,
                                prompt,
                                blocks(m.extra_blocks@),
                            ),
                        },
                    )
                },
            },
        }
    }
}

/// Whether two workspace requests ask for the same.
fn same_request(a: &WorkspaceRequest, b: &WorkspaceRequest) -> (r: bool)
    ensures
        r == (a@ == b@),
{
    let name = crate::text::chars_of(a.name());
    a.creates_missing() == b.creates_missing() && crate::text::is_text(name.as_slice(), b.name())
}

/// Prepares a batch for an agent: session directives are refused, the adapters'
/// workspace requests must agree, and each message becomes an arrival of its own.
pub fn prepare_batch(batch: &[BufferedMessage]) -> (r: Result<PreparedBatch, BatchRefusal>)
    requires
        batch@.len() > 0,
    ensures
        match r {
            Ok(p) => prepared(batch@, batch@.len() as int) == Ok::<Prepared, BatchStop>(
                Prepared {
                    workspace: match p.workspace_request {
                        Some(w) => Some(w@),
                        None => None,
                    },
                    blocks: blocks(p.content_blocks@),
                },
            ) && p.other_bot_present == batch@.last().other_bot_present,
            Err(e) => prepared(batch@, batch@.len() as int) == Err::<Prepared, BatchStop>(e@),
        },
{
    let mut workspace: Option<WorkspaceRequest> = None;
    let mut content_blocks: Vec<ContentBlock> = Vec::new();
    let mut i: usize = 0;
    assert(blocks(content_blocks@) =~= Seq::<Block>::empty());
    while i < batch.len()
        invariant
            i <= batch@.len(),
            prepared(batch@, i as int) == Ok::<Prepared, BatchStop>(
                Prepared {
                    workspace: match workspace {
                        Some(w) => Some(w@),
                        None => None,
                    },
                    blocks: blocks(content_blocks@),
                },
            ),
        decreases batch@.len() - i,
    {
        let m = &batch[i];
        proof {
            assert forall|k: int| i < k <= batch@.len() && prepared(batch@, i + 1) is Err implies
                #[trigger] prepared(batch@, k) == prepared(batch@, i + 1) by {
                lemma_refusal_is_final(batch@, i + 1, k);
            }
        }
        match parse_directives(m.prompt.as_str()) {
            Err(e) => {
                return Err(BatchRefusal::Malformed(e));
            },
            Ok((directives, prompt)) => {
                if directives.has_any() {
                    return Err(BatchRefusal::DirectivesNotAllowed);
                }
                if let Some(own) = &m.workspace_request {
                    let agrees = match &workspace {
                        Some(existing) => same_request(own, existing),
                        None => true,
                    };
                    if !agrees {
                        return Err(BatchRefusal::ConflictingWorkspaces);
                    }
                    if workspace.is_none() {
                        workspace = Some(own.clone());
                    }
                }
                let mut event = pack_arrival(
                    m.sender_json.as_str(),
                    prompt.as_str(),
                    m.extra_blocks.as_slice(),
                );
                let ghost before = content_blocks@;
                let ghost added = event@;
                content_blocks.append(&mut event);
                assert(blocks(content_blocks@) =~= blocks(before) + blocks(added));
            },
        }
        i += 1;
    }
    let other_bot_present = batch[batch.len() - 1].other_bot_present;
    Ok(PreparedBatch { workspace_request: workspace, content_blocks, other_bot_present })
}

proof fn lemma_refusal_is_final(ms: Seq<BufferedMessage>, i: int, k: int)
    requires
        0 <= i <= k,
        prepared(ms, i) is Err,
    ensures
        prepared(ms, k) == prepared(ms, i),
    decreases k - i,
{
    if i < k {
        lemma_refusal_is_final(ms, i, k - 1);
    }
}

/// The arrivals of the first `n` messages, one after the other.
pub open spec fn arrivals(ms: Seq<BufferedMessage>, n: int) -> Seq<Block>
    decreases n,
{
    if n <= 0 {
        Seq::empty()
    } else {
        let m = ms[n - 1];
        arrivals(ms, n - 1) + arrival(
            m.sender_json@,
            (session_directives(m.prompt@)->Ok_0).1,
            blocks(m.extra_blocks@),
        )
    }
}

/// A dispatched batch holds the arrivals of its messages, in order: none is merged,
/// split, moved or lost.
pub proof fn law_batch_keeps_arrivals(ms: Seq<BufferedMessage>, n: int)
    requires
        prepared(ms, n) is Ok,
    ensures
        prepared(ms, n)->Ok_0.blocks == arrivals(ms, n),
    decreases n,
{
    if n > 0 {
        law_batch_keeps_arrivals(ms, n - 1);
    }
}

/// A message without directives reaches the agent verbatim: it is accepted wherever
/// the messages before it are and its workspace agrees with theirs, and its prompt
/// stands unchanged behind them.
pub proof fn law_plain_message_is_verbatim(ms: Seq<BufferedMessage>, n: int)
    requires
        0 < n <= ms.len(),
        crate::text::find(ms[n - 1].prompt@, "[["@) is None,
        prepared(ms, n - 1) is Ok,
        message_workspace(ms[n - 1]) is None || prepared(ms, n - 1)->Ok_0.workspace is None
            || message_workspace(ms[n - 1]) == prepared(ms, n - 1)->Ok_0.workspace,
    ensures
        prepared(ms, n) is Ok,
        prepared(ms, n)->Ok_0.blocks == prepared(ms, n - 1)->Ok_0.blocks + arrival(
            ms[n - 1].sender_json@,
            ms[n - 1].prompt@,
            blocks(ms[n - 1].extra_blocks@),
        ),
{
}

/// What happens to a batcher.
pub enum BatchOp {
    Receive(BufferedMessage),
    Flush,
}

/// What has become of the messages: those taken in, those dispatched, and the rest.
pub struct BatchRun {
    pub taken: Seq<BufferedMessage>,
    pub dispatched: Seq<BufferedMessage>,
    pub batcher: Batch,
}

/// A batcher after a sequence of events; a message that it does not want stays in
/// the queue.
pub open spec fn batch_run(start: Batch, ops: Seq<BatchOp>) -> BatchRun
    decreases ops.len(),
{
    if ops.len() == 0 {
        BatchRun { taken: Seq::empty(), dispatched: Seq::empty(), batcher: start }
    } else {
        let r = batch_run(start, ops.drop_last());
        match ops.last() {
            BatchOp::Receive(m) => if wants_more(r.batcher) {
                BatchRun {
                    taken: r.taken.push(m),
                    batcher: received(r.batcher, m),
                    ..r
                }
            } else {
                r
            },
            BatchOp::Flush => BatchRun {
                dispatched: r.dispatched + r.batcher.batch,
                batcher: flushed(r.batcher),
                ..r
            },
        }
    }
}

/// The messages that a batcher holds, in order of arrival.
pub open spec fn held(b: Batch) -> Seq<BufferedMessage> {
    match b.pending {
        Some(m) => b.batch.push(m),
        None => b.batch,
    }
}

/// Messages are dispatched in the order of their arrival, each once: what was taken
/// in is what was dispatched, followed by what is held. Every batch is within its
/// limits.
pub proof fn law_batching_is_fifo(start: Batch, ops: Seq<BatchOp>)
    requires
        start.batch.len() == 0,
        start.pending is None,
    ensures
        ({
            let r = batch_run(start, ops);
            &&& r.taken == r.dispatched + held(r.batcher)
            &&& batch_ok(r.batcher.batch, start.max_batch, start.max_tokens)
            &&& r.batcher.max_batch == start.max_batch
            &&& r.batcher.max_tokens == start.max_tokens
            &&& r.batcher.pending is Some ==> r.batcher.batch.len() > 0
        }),
    decreases ops.len(),
{
    if ops.len() == 0 {
        assert(held(start) =~= Seq::<BufferedMessage>::empty());
    } else {
        law_batching_is_fifo(start, ops.drop_last());
        let r = batch_run(start, ops.drop_last());
        let q = batch_run(start, ops);
        match ops.last() {
            BatchOp::Receive(m) => {
                if wants_more(r.batcher) {
                    assert(held(q.batcher) =~= held(r.batcher).push(m));
                    assert(q.taken =~= q.dispatched + held(q.batcher));
                    assert(r.batcher.batch.push(m).drop_last() =~= r.batcher.batch);
                }
            },
            BatchOp::Flush => {
                assert(q.taken =~= q.dispatched + held(q.batcher));
            },
        }
    }
}

/// The first message after idle is ready for dispatch at once, and a batch can be
/// taken whenever there is one.
pub proof fn law_first_message_is_not_delayed(b: Batch, m: BufferedMessage)
    requires
        b.batch.len() == 0,
        b.pending is None,
    ensures
        wants_more(b),
        received(b, m).batch == seq![m],
{
    assert(b.batch.push(m) =~= seq![m]);
}

/// Clearing a thread reaches every lane of it, whatever the grouping.
pub proof fn law_lanes_belong_to_their_thread(
    grouping: BatchGrouping,
    platform: Seq<char>,
    thread_id: Seq<char>,
    sender_id: Seq<char>,
)
    ensures
        belongs(lane_key(grouping, platform, thread_id, sender_id), platform, thread_id),
{
    let prefix = platform + ":"@ + thread_id + ":"@;
    if grouping == BatchGrouping::Lane {
        let key = lane_key(grouping, platform, thread_id, sender_id);
        assert(key.subrange(0, prefix.len() as int) =~= prefix);
    }
}

/// Grouped by thread, all senders share one lane; grouped by lane, each sender has its
/// own. Either way the session is that of the thread.
pub proof fn law_lanes_follow_grouping(
    platform: Seq<char>,
    thread_id: Seq<char>,
    a: Seq<char>,
    b: Seq<char>,
    c: Channel,
)
    requires
        c.platform == platform,
        c.thread_id == Some(thread_id) || (c.thread_id is None && c.channel_id == thread_id),
    ensures
        lane_key(BatchGrouping::Thread, platform, thread_id, a) == lane_key(
            BatchGrouping::Thread,
            platform,
            thread_id,
            b,
        ),
        lane_key(BatchGrouping::Lane, platform, thread_id, a) == lane_key(
            BatchGrouping::Lane,
            platform,
            thread_id,
            b,
        ) <==> a == b,
        session_key_of(c) == lane_key(BatchGrouping::Thread, platform, thread_id, a),
{
    let prefix = platform + ":"@ + thread_id + ":"@;
    let n = prefix.len() as int;
    assert((prefix + a).skip(n) =~= a);
    assert((prefix + b).skip(n) =~= b);
}

/// A lane never gets a second consumer while it has one: only the first of two
/// messages starts it.
pub proof fn law_one_consumer_per_lane(
    s: Lanes,
    key: Seq<char>,
    channel_id: Seq<char>,
    kind: Seq<char>,
)
    ensures
        ({
            let (t, a) = acquire(s, key, channel_id, kind, false);
            let (_, b) = acquire(t, key, channel_id, kind, false);
            &&& a.spawn == !s.lanes.contains_key(key)
            &&& t.lanes.contains_key(key)
            &&& !b.spawn
            &&& b.generation == a.generation
        }),
{
}

/// A consumer that took the place of a dead one is not evicted on behalf of the
/// dead one.
pub proof fn law_fresh_consumer_survives(
    s: Lanes,
    key: Seq<char>,
    dead: u64,
    channel_id: Seq<char>,
    kind: Seq<char>,
)
    requires
        !s.lanes.contains_key(key),
        s.next_generation != dead,
    ensures
        ({
            let (t, a) = acquire(s, key, channel_id, kind, true);
            evict(t, key, dead) == t && t.lanes.contains_key(key) && a.spawn
        }),
{
}

/// A batch takes the next message that waits exactly as long as none is held back and it
/// holds fewer messages than its cap; an empty one always takes a message.
pub proof fn law_batch_takes_what_waits(b: Batch)
    ensures
        wants_more(b) <==> b.pending is None && (b.batch.len() == 0 || b.batch.len()
            < b.max_batch),
{
}

/// A message joins the batch unless the batch has messages already and would exceed its
/// token cap; then it is held back. Nothing else changes.
pub proof fn law_message_joins_within_token_cap(b: Batch, m: BufferedMessage)
    requires
        b.pending is None,
    ensures
        b.batch.len() == 0 || batch_tokens(b.batch) + m.estimated_tokens <= b.max_tokens
            ==> received(b, m).batch == b.batch.push(m) && received(b, m).pending is None,
        b.batch.len() > 0 && batch_tokens(b.batch) + m.estimated_tokens > b.max_tokens
            ==> received(b, m).batch == b.batch && received(b, m).pending == Some(m),
        received(b, m).max_batch == b.max_batch && received(b, m).max_tokens == b.max_tokens,
{
}

/// The tokens of a batch are those of its messages together.
pub proof fn law_batch_tokens_add_up(ms: Seq<BufferedMessage>, m: BufferedMessage)
    ensures
        batch_tokens(Seq::empty()) == 0,
        batch_tokens(ms.push(m)) == batch_tokens(ms) + m.estimated_tokens,
{
    assert(ms.push(m).drop_last() =~= ms);
}

/// Taking the batch leaves a message that was held back as the first of the next one,
/// and otherwise nothing.
pub proof fn law_held_message_opens_next_batch(b: Batch)
    ensures
        flushed(b).batch == (if b.pending is Some {
            seq![b.pending->0]
        } else {
            Seq::empty()
        }),
        flushed(b).pending is None,
        flushed(b).max_batch == b.max_batch && flushed(b).max_tokens == b.max_tokens,
{
}

/// The batcher after it has taken what it wants of the waiting messages, and how many
/// that were.
pub open spec fn drained(b: Batch, queue: Seq<BufferedMessage>, k: int) -> (Batch, int)
    decreases queue.len() - k,
{
    if 0 <= k < queue.len() && wants_more(b) {
        drained(received(b, queue[k]), queue, k + 1)
    } else {
        (b, k)
    }
}

/// A batch that is taken while messages wait is full, or the next message exceeds its
/// token cap: of the waiting messages it holds all that are within its caps, in order.
pub proof fn law_batch_is_greedy(b: Batch, queue: Seq<BufferedMessage>, k: int)
    requires
        0 <= k <= queue.len(),
        b.pending is None,
    ensures
        ({
            let (c, n) = drained(b, queue, k);
            &&& k <= n <= queue.len()
            &&& c.max_batch == b.max_batch && c.max_tokens == b.max_tokens
            &&& c.pending is None ==> c.batch == b.batch + queue.subrange(k, n)
            &&& c.pending is None && n < queue.len() ==> c.batch.len() >= b.max_batch
                && c.batch.len() > 0
            &&& c.pending is Some ==> {
                &&& k < n && c.pending == Some(queue[n - 1])
                &&& c.batch == b.batch + queue.subrange(k, n - 1)
                &&& c.batch.len() > 0
                &&& batch_tokens(c.batch) + queue[n - 1].estimated_tokens > b.max_tokens
            }
        }),
    decreases queue.len() - k,
{
    if k < queue.len() && wants_more(b) {
        let m = queue[k];
        let r = received(b, m);
        if r.pending is None {
            law_batch_is_greedy(r, queue, k + 1);
            let (c, n) = drained(r, queue, k + 1);
            if c.pending is None {
                assert(b.batch.push(m) + queue.subrange(k + 1, n) =~= b.batch + queue.subrange(
                    k,
                    n,
                ));
            } else {
                assert(b.batch.push(m) + queue.subrange(k + 1, n - 1) =~= b.batch
                    + queue.subrange(k, n - 1));
            }
        } else {
            assert(drained(r, queue, k + 1) == (r, k + 1));
            assert(b.batch + queue.subrange(k, k) =~= b.batch);
        }
    } else {
        assert(b.batch + queue.subrange(k, k) =~= b.batch);
    }
}

/// A message is handed to the consumer that its lane has, and a lane without one gets a
/// consumer of a new generation; no other lane is touched.
pub proof fn law_lane_gets_its_consumer(
    s: Lanes,
    key: Seq<char>,
    channel_id: Seq<char>,
    kind: Seq<char>,
    is_retry: bool,
    other: Seq<char>,
)
    requires
        other != key,
    ensures
        ({
            let (t, a) = acquire(s, key, channel_id, kind, is_retry);
            &&& a.is_retry == is_retry
            &&& s.lanes.contains_key(key) ==> !a.spawn && a.generation == s.lanes[key].generation
                && t.lanes == s.lanes
            &&& !s.lanes.contains_key(key) ==> a.spawn && a.generation == s.next_generation
                && t.lanes.contains_key(key) && t.lanes[key] == (Lane {
                generation: s.next_generation,
                channel_id,
                adapter_kind: kind,
            })
            &&& t.lanes.contains_key(other) == s.lanes.contains_key(other)
            &&& s.lanes.contains_key(other) ==> t.lanes[other] == s.lanes[other]
            &&& s.next_generation < u64::MAX ==> t.next_generation == s.next_generation + 1
        }),
{
}

/// Only the consumer that was found dead is removed, and no other lane is touched.
pub proof fn law_eviction_is_exact(
    s: Lanes,
    key: Seq<char>,
    generation: u64,
    other: Seq<char>,
)
    requires
        other != key,
    ensures
        ({
            let t = evict(s, key, generation);
            &&& s.lanes.contains_key(key) && s.lanes[key].generation == generation
                ==> !t.lanes.contains_key(key)
            &&& s.lanes.contains_key(key) && s.lanes[key].generation != generation
                ==> t.lanes.contains_key(key) && t.lanes[key] == s.lanes[key]
            &&& t.lanes.contains_key(other) == s.lanes.contains_key(other)
            &&& s.lanes.contains_key(other) ==> t.lanes[other] == s.lanes[other]
            &&& t.next_generation == s.next_generation
        }),
{
}

/// Keys as they are written: the platform and the thread, and the sender behind them
/// where lanes are kept apart by sender.
pub proof fn law_keys_as_written(
    platform: Seq<char>,
    thread_id: Seq<char>,
    sender_id: Seq<char>,
    c: Channel,
)
    ensures
        lane_key(BatchGrouping::Thread, platform, thread_id, sender_id) == platform + ":"@
            + thread_id,
        lane_key(BatchGrouping::Lane, platform, thread_id, sender_id) == platform + ":"@ + thread_id
            + ":"@ + sender_id,
        session_key_of(c) == c.platform + ":"@ + (if c.thread_id is Some {
            c.thread_id->0
        } else {
            c.channel_id
        }),
{
}

/// Clearing a thread leaves the lanes of other threads alone, where thread ids hold no
/// colon.
pub proof fn law_other_threads_are_not_cleared(
    grouping: BatchGrouping,
    platform: Seq<char>,
    thread_id: Seq<char>,
    other: Seq<char>,
    sender_id: Seq<char>,
)
    requires
        !thread_id.contains(':'),
        !other.contains(':'),
        belongs(lane_key(grouping, platform, other, sender_id), platform, thread_id),
    ensures
        other == thread_id,
{
    reveal_strlit(":");
    let key = lane_key(grouping, platform, other, sender_id);
    let n = platform.len() as int + 1;
    let t = thread_id.len() as int;
    let o = other.len() as int;
    let head = platform + ":"@ + thread_id;
    assert(key.len() >= n + o);
    assert forall|i: int| 0 <= i < o implies key[n + i] == other[i] by {}
    if key == head {
        assert(key.skip(n) =~= thread_id);
        if grouping == BatchGrouping::Lane {
            assert(key[n + o] == ':');
            assert(key.skip(n)[o] == ':');
            assert(thread_id[o] == ':');
        }
        assert(other =~= thread_id);
    } else {
        let lane = head + ":"@;
        assert(key.subrange(0, lane.len() as int) =~= lane);
        assert forall|i: int| 0 <= i < lane.len() implies key[i] == lane[i] by {
            assert(key.subrange(0, lane.len() as int)[i] == lane[i]);
        }
        assert(key[n + t] == ':');
        if o > t {
            assert(other[t] == ':');
        }
        if o < t {
            assert(key.len() > n + o);
            assert(key[n + o] == ':');
            assert(lane[n + o] == thread_id[o]);
        }
        assert forall|i: int| 0 <= i < t implies thread_id[i] == other[i] by {
            assert(lane[n + i] == thread_id[i]);
        }
        assert(other =~= thread_id);
    }
}

/// A batch is refused at the first message whose directives cannot be read, that carries
/// directives, or whose workspace differs from the one before; otherwise it is accepted,
/// with the first workspace that came with a message.
pub proof fn law_batch_refusals(ms: Seq<BufferedMessage>, n: int)
    requires
        0 < n <= ms.len(),
        prepared(ms, n - 1) is Ok,
    ensures
        ({
            let before = prepared(ms, n - 1)->Ok_0;
            let parsed = session_directives(ms[n - 1].prompt@);
            let own = message_workspace(ms[n - 1]);
            let asks = parsed is Ok && ((parsed->Ok_0).0.workspace is Some || (
            parsed->Ok_0).0.title is Some);
            let conflict = own is Some && before.workspace is Some && own->0
                != before.workspace->0;
            &&& parsed is Err ==> prepared(ms, n) == Err::<Prepared, BatchStop>(
                BatchStop::Malformed(parsed->Err_0),
            )
            &&& asks ==> prepared(ms, n) == Err::<Prepared, BatchStop>(
                BatchStop::DirectivesNotAllowed,
            )
            &&& parsed is Ok && !asks && conflict ==> prepared(ms, n) == Err::<
                Prepared,
                BatchStop,
            >(BatchStop::ConflictingWorkspaces)
            &&& parsed is Ok && !asks && !conflict ==> prepared(ms, n) is Ok && prepared(
                ms,
                n,
            )->Ok_0.workspace == (if before.workspace is Some {
                before.workspace
            } else {
                own
            }) && prepared(ms, n)->Ok_0.blocks == before.blocks + arrival(
                ms[n - 1].sender_json@,
                (parsed->Ok_0).1,
                blocks(ms[n - 1].extra_blocks@),
            )
        }),
{
}

/// The first refusal stands, whatever follows; an empty batch holds nothing.
pub proof fn law_first_refusal_stands(ms: Seq<BufferedMessage>, i: int, k: int)
    requires
        0 <= i <= k,
    ensures
        prepared(ms, i) is Err ==> prepared(ms, k) == prepared(ms, i),
        prepared(ms, 0) == Ok::<Prepared, BatchStop>(
            Prepared { workspace: None, blocks: Seq::empty() },
        ),
{
    if prepared(ms, i) is Err {
        lemma_refusal_is_final(ms, i, k);
    }
}

/// A message is estimated at one token for each four bytes of text, and one more for
/// each text, and at 512 for each image.
pub proof fn law_token_estimate(bs: Seq<Block>, b: Block, s: Seq<char>)
    ensures
        text_tokens(s) == encode_utf8(s).len() / 4 + 1,
        blocks_tokens(Seq::empty()) == 0,
        blocks_tokens(bs.push(b)) == blocks_tokens(bs) + (match b {
            Block::Text(t) => encode_utf8(t).len() / 4 + 1,
            Block::Image { .. } => 512,
        }),
{
    assert(bs.push(b).drop_last() =~= bs);
}

/// A message brings the workspace that was asked for with it, to be created or not, or
/// none.
pub proof fn law_workspace_of_a_message(m: BufferedMessage)
    ensures
        m.workspace_request is None ==> message_workspace(m) is None,
        m.workspace_request matches Some(WorkspaceRequest::Existing(name)) ==> message_workspace(m)
            == Some(Workspace { name: name@, create: false }),
        m.workspace_request matches Some(WorkspaceRequest::Create(name)) ==> message_workspace(m)
            == Some(Workspace { name: name@, create: true }),
{
}

} // verus!
