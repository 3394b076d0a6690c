//! Status reactions on the messages that triggered a turn.

use vstd::prelude::*;

use crate::adapter::types::{Message, MessageRef};
use crate::config::{ReactionEmojis, ReactionTiming};
use crate::text::{chars_of, contains, has, is_text, lowercase, opt_text};

verus! {

/// Whether a tool's name, in lower case, is one of web access.
pub open spec fn is_web_tool(n: Seq<char>) -> bool {
    ||| contains(n, "web_search"@)
    ||| contains(n, "web_fetch"@)
    ||| contains(n, "web-search"@)
    ||| contains(n, "web-fetch"@)
    ||| contains(n, "browser"@)
}

/// Whether a tool's name, in lower case, is one of coding.
pub open spec fn is_coding_tool(n: Seq<char>) -> bool {
    ||| contains(n, "exec"@)
    ||| contains(n, "process"@)
    ||| contains(n, "read"@)
    ||| contains(n, "write"@)
    ||| contains(n, "edit"@)
    ||| contains(n, "bash"@)
    ||| contains(n, "shell"@)
}

/// The emoji for a tool whose name, in lower case, is `n`.
pub open spec fn tool_emoji(n: Seq<char>, emojis: ReactionEmojis) -> Seq<char> {
    if is_web_tool(n) {
        emojis.web@
    } else if is_coding_tool(n) {
        emojis.coding@
    } else {
        emojis.tool@
    }
}

/// The emoji for a tool whose name, in lower case, is `n`.
pub fn classify_lower<'a>(n: &str, emojis: &'a ReactionEmojis) -> (r: &'a str)
    ensures
        r@ == tool_emoji(n@, *emojis),
{
    let chars = chars_of(n);
    let c = chars.as_slice();
    if has(c, "web_search") || has(c, "web_fetch") || has(c, "web-search") || has(c, "web-fetch")
        || has(c, "browser") {
        emojis.web.as_str()
    } else if has(c, "exec") || has(c, "process") || has(c, "read") || has(c, "write") || has(
        c,
        "edit",
    ) || has(c, "bash") || has(c, "shell") {
        emojis.coding.as_str()
    } else {
        emojis.tool.as_str()
    }
}

/// The emoji for a tool.
pub fn classify_tool<'a>(name: &str, emojis: &'a ReactionEmojis) -> (r: &'a str)
    ensures
        r@ == tool_emoji(lowercase(name@), *emojis),
{
    classify_lower(name.to_lowercase().as_str(), emojis)
}

/// A call that adds a reaction to a message, or removes it.
#[derive(Debug)]
pub struct ReactionCall {
    /// The message's place among those of the turn.
    pub message: usize,
    pub emoji: String,
    pub add: bool,
}

/// What a call says.
pub struct Call {
    pub message: int,
    pub emoji: Seq<char>,
    pub add: bool,
}

impl View for ReactionCall {
    type V = Call;

    open spec fn view(&self) -> Call {
        Call { message: self.message as int, emoji: self.emoji@, add: self.add }
    }
}

/// What a list of calls says.
pub open spec fn calls(v: Seq<ReactionCall>) -> Seq<Call> {
    v.map_values(|c: ReactionCall| c@)
}

/// What is to be done about a timer.
#[derive(Clone, Copy, Debug, PartialEq, Eq, Structural)]
pub enum TimerOp {
    Keep,
    Cancel,
    /// Start it anew.
    Restart,
}

/// What is to be done about a change of status.
#[derive(Debug)]
pub struct ReactionPlan {
    pub debounce: TimerOp,
    pub stall: TimerOp,
    pub calls: Vec<ReactionCall>,
}

/// What a plan says.
pub struct Plan {
    pub debounce: TimerOp,
    pub stall: TimerOp,
    pub calls: Seq<Call>,
}

impl View for ReactionPlan {
    type V = Plan;

    open spec fn view(&self) -> Plan {
        Plan { debounce: self.debounce, stall: self.stall, calls: calls(self.calls@) }
    }
}

/// The status of one turn, shown on every message that triggered it, so that the
/// whole batch reflects the turn's status and not just its last message.
#[derive(Debug)]
pub struct StatusReactionController {
    enabled: bool,
    messages: Vec<MessageRef>,
    emojis: ReactionEmojis,
    timing: ReactionTiming,
    current: String,
    finished: bool,
    /// The status that is shown once the debounce timer fires.
    pending: Option<String>,
    soft_armed: bool,
    hard_armed: bool,
}

/// What such a status says.
pub struct Status {
    pub enabled: bool,
    pub messages: Seq<Message>,
    pub emojis: ReactionEmojis,
    pub current: Seq<char>,
    pub finished: bool,
    pub pending: Option<Seq<char>>,
    pub soft_armed: bool,
    pub hard_armed: bool,
}

impl View for StatusReactionController {
    type V = Status;

    closed spec fn view(&self) -> Status {
        Status {
            enabled: self.enabled,
            messages: message_refs(self.messages@),
            emojis: self.emojis,
            current: self.current@,
            finished: self.finished,
            pending: opt_text(self.pending),
            soft_armed: self.soft_armed,
            hard_armed: self.hard_armed,
        }
    }
}

/// What a list of message references says.
pub open spec fn message_refs(v: Seq<MessageRef>) -> Seq<Message> {
    v.map_values(|m: MessageRef| m@)
}

/// One call for each of the first `n` messages.
pub open spec fn on_each(n: nat, emoji: Seq<char>, add: bool) -> Seq<Call> {
    Seq::new(n, |i: int| Call { message: i, emoji, add })
}

/// The calls that change the status of all messages from `old` to `new`: the new
/// one is added everywhere before the old one is removed anywhere.
pub open spec fn change_calls(n: nat, from: Seq<char>, to: Seq<char>) -> Seq<Call> {
    on_each(n, to, true) + (if from.len() > 0 && from != to {
        on_each(n, from, false)
    } else {
        Seq::empty()
    })
}

/// Nothing to be done.
pub open spec fn idle_plan() -> Plan {
    Plan { debounce: TimerOp::Keep, stall: TimerOp::Keep, calls: Seq::empty() }
}

/// The status after `emoji` is shown at once.
pub open spec fn apply_now(s: Status, emoji: Seq<char>) -> (Status, Plan) {
    if s.finished || emoji == s.current {
        (s, idle_plan())
    } else {
        (
            Status { current: emoji, pending: None, soft_armed: true, hard_armed: true, ..s },
            Plan {
                debounce: TimerOp::Cancel,
                stall: TimerOp::Restart,
                calls: change_calls(s.messages.len(), s.current, emoji),
            },
        )
    }
}

/// The status after `emoji` is scheduled to be shown.
pub open spec fn apply_later(s: Status, emoji: Seq<char>) -> (Status, Plan) {
    let armed = Status { soft_armed: true, hard_armed: true, ..s };
    if s.finished || emoji == s.current {
        (armed, Plan { stall: TimerOp::Restart, ..idle_plan() })
    } else {
        (
            Status { pending: Some(emoji), ..armed },
            Plan { debounce: TimerOp::Restart, stall: TimerOp::Restart, calls: Seq::empty() },
        )
    }
}

/// The status after the turn has ended with `emoji`.
pub open spec fn apply_final(s: Status, emoji: Seq<char>) -> (Status, Plan) {
    if s.finished {
        (s, idle_plan())
    } else {
        (
            Status {
                current: emoji,
                finished: true,
                pending: None,
                soft_armed: false,
                hard_armed: false,
                ..s
            },
            Plan {
                debounce: TimerOp::Cancel,
                stall: TimerOp::Cancel,
                calls: change_calls(s.messages.len(), s.current, emoji),
            },
        )
    }
}

/// The status after a timer has fired that shows `emoji`; `s` has the timer
/// disarmed already.
pub open spec fn apply_fired(s: Status, armed: bool, emoji: Seq<char>) -> (Status, Plan) {
    if s.finished || !armed {
        (s, idle_plan())
    } else {
        (
            Status { current: emoji, ..s },
            Plan { calls: change_calls(s.messages.len(), s.current, emoji), ..idle_plan() },
        )
    }
}

/// The mood faces.
pub open spec fn face(i: int) -> Seq<char> {
    if i == 0 {
        "😊"@
    } else if i == 1 {
        "😎"@
    } else if i == 2 {
        "🫡"@
    } else if i == 3 {
        "🤓"@
    } else if i == 4 {
        "😏"@
    } else if i == 5 {
        "✌️"@
    } else if i == 6 {
        "💪"@
    } else {
        "🦾"@
    }
}

/// The status after the turn has succeeded: its emoji, and the mood face that
/// `random` picks, on every message.
pub open spec fn done_with(s: Status, random: usize) -> (Status, Plan) {
    let (t, plan) = apply_final(s, s.emojis.done@);
    (
        t,
        Plan {
            calls: plan.calls + on_each(s.messages.len(), face(random as int % 8), true),
            ..plan
        },
    )
}

/// The status after all reactions are taken away.
pub open spec fn cleared(s: Status) -> (Status, Plan) {
    (
        Status {
            current: Seq::empty(),
            pending: None,
            soft_armed: false,
            hard_armed: false,
            ..s
        },
        Plan {
            debounce: TimerOp::Cancel,
            stall: TimerOp::Cancel,
            calls: if s.current.len() > 0 {
                on_each(s.messages.len(), s.current, false)
            } else {
                Seq::empty()
            },
        },
    )
}

/// `rand::random`: any number; nothing is claimed of it.
#[verifier::external_body]
fn random_number() -> (n: usize) {
    rand::random::<usize>()
}

/// The mood face that a random number picks.
fn mood_face(random: usize) -> (s: &'static str)
    ensures
        s@ == face(random as int % 8),
{
    let i: usize = random % 8;
    if i == 0 {
        "😊"
    } else if i == 1 {
        "😎"
    } else if i == 2 {
        "🫡"
    } else if i == 3 {
        "🤓"
    } else if i == 4 {
        "😏"
    } else if i == 5 {
        "✌️"
    } else if i == 6 {
        "💪"
    } else {
        "🦾"
    }
}

/// Appends one call for each of `n` messages.
fn push_each(out: &mut Vec<ReactionCall>, n: usize, emoji: &str, add: bool)
    ensures
        calls(final(out)@) == calls(old(out)@) + on_each(n as nat, emoji@, add),
{
    let mut i: usize = 0;
    let ghost all = on_each(n as nat, emoji@, add);
    assert(calls(out@) =~= calls(old(out)@) + all.take(0));
    while i < n
        invariant
            i <= n,
            all == on_each(n as nat, emoji@, add),
            calls(out@) == calls(old(out)@) + all.take(i as int),
        decreases n - i,
    {
        let ghost before = out@;
        let c = ReactionCall { message: i, emoji: emoji.to_string(), add };
        let ghost x = c@;
        out.push(c);
        assert(calls(out@) =~= calls(before).push(x));
        assert(all.take(i + 1) =~= all.take(i as int).push(all[i as int]));
        i += 1;
        assert(calls(out@) =~= calls(old(out)@) + all.take(i as int));
    }
    assert(all.take(n as int) =~= all);
}

/// A plan that changes nothing.
fn no_plan() -> (p: ReactionPlan)
    ensures
        p@ == idle_plan(),
{
    let p = ReactionPlan { debounce: TimerOp::Keep, stall: TimerOp::Keep, calls: Vec::new() };
    assert(p@.calls =~= Seq::<Call>::empty());
    p
}

impl StatusReactionController {
    /// A turn without a status.
    pub fn new(
        enabled: bool,
        messages: Vec<MessageRef>,
        emojis: ReactionEmojis,
        timing: ReactionTiming,
    ) -> (c: Self)
        ensures
            c@ == (Status {
                enabled,
                messages: message_refs(messages@),
                emojis,
                current: Seq::empty(),
                finished: false,
                pending: None,
                soft_armed: false,
                hard_armed: false,
            }),
            c.timing() == timing,
    {
        StatusReactionController {
            enabled,
            messages,
            emojis,
            timing,
            current: String::new(),
            finished: false,
            pending: None,
            soft_armed: false,
            hard_armed: false,
        }
    }

    /// How long statuses last.
    pub closed spec fn timing(&self) -> ReactionTiming {
        self.timing
    }

    /// How long statuses last.
    pub fn timings(&self) -> (r: ReactionTiming)
        ensures
            r == self.timing(),
    {
        self.timing
    }

    /// The message with the given place among those of the turn.
    pub fn message(&self, i: usize) -> (r: &MessageRef)
        requires
            i < self@.messages.len(),
        ensures
            r@ == self@.messages[i as int],
    {
        &self.messages[i]
    }

    /// Shows `emoji` on all messages in place of the current status.
    fn change(&mut self, emoji: &str) -> (out: Vec<ReactionCall>)
        ensures
            calls(out@) == change_calls(old(self)@.messages.len(), old(self)@.current, emoji@),
            final(self)@ == (Status { current: emoji@, ..old(self)@ }),
            final(self).timing() == old(self).timing(),
    {
        let mut out: Vec<ReactionCall> = Vec::new();
        assert(calls(out@) =~= Seq::<Call>::empty());
        let n: usize = self.messages.len();
        push_each(&mut out, n, emoji, true);
        let new = chars_of(emoji);
        if self.current.as_str().unicode_len() > 0 && !is_text(
            new.as_slice(),
            self.current.as_str(),
        ) {
            push_each(&mut out, n, self.current.as_str(), false);
        }
        assert(calls(out@) =~= change_calls(self@.messages.len(), self@.current, emoji@));
        self.current = emoji.to_string();
        out
    }

    fn is_current(&self, emoji: &str) -> (r: bool)
        ensures
            r == (emoji@ == self@.current),
    {
        let new = chars_of(emoji);
        is_text(new.as_slice(), self.current.as_str())
    }

    fn apply_immediate(&mut self, emoji: &str) -> (p: ReactionPlan)
        ensures
            (final(self)@, p@) == apply_now(old(self)@, emoji@),
            final(self).timing() == old(self).timing(),
    {
        if self.finished || self.is_current(emoji) {
            return no_plan();
        }
        let calls = self.change(emoji);
        self.pending = None;
        self.soft_armed = true;
        self.hard_armed = true;
        ReactionPlan { debounce: TimerOp::Cancel, stall: TimerOp::Restart, calls }
    }

    fn schedule_debounced(&mut self, emoji: &str) -> (p: ReactionPlan)
        ensures
            (final(self)@, p@) == apply_later(old(self)@, emoji@),
            final(self).timing() == old(self).timing(),
    {
        let mut p = no_plan();
        p.stall = TimerOp::Restart;
        if !self.finished && !self.is_current(emoji) {
            self.pending = Some(emoji.to_string());
            p.debounce = TimerOp::Restart;
        }
        self.soft_armed = true;
        self.hard_armed = true;
        p
    }

    fn finish(&mut self, emoji: &str) -> (p: ReactionPlan)
        ensures
            (final(self)@, p@) == apply_final(old(self)@, emoji@),
            final(self).timing() == old(self).timing(),
    {
        if self.finished {
            return no_plan();
        }
        let calls = self.change(emoji);
        self.finished = true;
        self.pending = None;
        self.soft_armed = false;
        self.hard_armed = false;
        ReactionPlan { debounce: TimerOp::Cancel, stall: TimerOp::Cancel, calls }
    }

    /// The turn waits to be run.
    pub fn set_queued(&mut self) -> (p: ReactionPlan)
        ensures
            (final(self)@, p@) == (if old(self)@.enabled {
                apply_now(old(self)@, old(self)@.emojis.queued@)
            } else {
                (old(self)@, idle_plan())
            }),
            final(self).timing() == old(self).timing(),
    {
        if !self.enabled {
            return no_plan();
        }
        let emoji = self.emojis.queued.clone();
        self.apply_immediate(emoji.as_str())
    }

    /// The agent is thinking.
    pub fn set_thinking(&mut self) -> (p: ReactionPlan)
        ensures
            (final(self)@, p@) == (if old(self)@.enabled {
                apply_later(old(self)@, old(self)@.emojis.thinking@)
            } else {
                (old(self)@, idle_plan())
            }),
            final(self).timing() == old(self).timing(),
    {
        if !self.enabled {
            return no_plan();
        }
        let emoji = self.emojis.thinking.clone();
        self.schedule_debounced(emoji.as_str())
    }

    /// The agent runs a tool.
    pub fn set_tool(&mut self, tool_name: &str) -> (p: ReactionPlan)
        ensures
            (final(self)@, p@) == (if old(self)@.enabled {
                apply_later(
                    old(self)@,
                    tool_emoji(lowercase(tool_name@), old(self)@.emojis),
                )
            } else {
                (old(self)@, idle_plan())
            }),
            final(self).timing() == old(self).timing(),
    {
        if !self.enabled {
            return no_plan();
        }
        let emoji = classify_tool(tool_name, &self.emojis).to_string();
        self.schedule_debounced(emoji.as_str())
    }

    /// The turn has succeeded; `random` picks the mood face.
    pub fn set_done_with(&mut self, random: usize) -> (p: ReactionPlan)
        ensures
            (final(self)@, p@) == (if old(self)@.enabled {
                done_with(old(self)@, random)
            } else {
                (old(self)@, idle_plan())
            }),
            final(self).timing() == old(self).timing(),
    {
        if !self.enabled {
            return no_plan();
        }
        let emoji = self.emojis.done.clone();
        let mut p = self.finish(emoji.as_str());
        let ghost before = p@;
        push_each(&mut p.calls, self.messages.len(), mood_face(random), true);
        assert(p@.calls == before.calls + on_each(
            old(self)@.messages.len(),
            face(random as int % 8),
            true,
        ));
        p
    }

    /// The turn has succeeded.
    pub fn set_done(&mut self) -> (p: ReactionPlan)
        ensures
            exists|random: usize|
                (final(self)@, p@) == (if old(self)@.enabled {
                    #[trigger] done_with(old(self)@, random)
                } else {
                    (old(self)@, idle_plan())
                }),
            final(self).timing() == old(self).timing(),
    {
        let random = random_number();
        let p = self.set_done_with(random);
        assert(old(self)@.enabled ==> (self@, p@) == done_with(old(self)@, random));
        assert(!old(self)@.enabled ==> done_with(old(self)@, random) == done_with(
            old(self)@,
            random,
        ));
        p
    }

    /// The turn has failed.
    pub fn set_error(&mut self) -> (p: ReactionPlan)
        ensures
            (final(self)@, p@) == (if old(self)@.enabled {
                apply_final(old(self)@, old(self)@.emojis.error@)
            } else {
                (old(self)@, idle_plan())
            }),
            final(self).timing() == old(self).timing(),
    {
        if !self.enabled {
            return no_plan();
        }
        let emoji = self.emojis.error.clone();
        self.finish(emoji.as_str())
    }

    /// Takes the status away.
    pub fn clear(&mut self) -> (p: ReactionPlan)
        ensures
            (final(self)@, p@) == (if old(self)@.enabled {
                cleared(old(self)@)
            } else {
                (old(self)@, idle_plan())
            }),
            final(self).timing() == old(self).timing(),
    {
        if !self.enabled {
            return no_plan();
        }
        let mut p = no_plan();
        p.debounce = TimerOp::Cancel;
        p.stall = TimerOp::Cancel;
        if self.current.as_str().unicode_len() > 0 {
            push_each(&mut p.calls, self.messages.len(), self.current.as_str(), false);
        }
        assert(p@.calls =~= cleared(self@).1.calls);
        self.current = String::new();
        self.pending = None;
        self.soft_armed = false;
        self.hard_armed = false;
        assert(self@.current =~= Seq::<char>::empty());
        p
    }

    /// The debounce timer has fired.
    pub fn debounce_fired(&mut self) -> (p: ReactionPlan)
        ensures
            (final(self)@, p@) == apply_fired(
                Status { pending: None, ..old(self)@ },
                old(self)@.pending is Some,
                old(self)@.pending->0,
            ),
            final(self).timing() == old(self).timing(),
    {
        let pending = self.pending.take();
        if self.finished {
            return no_plan();
        }
        match pending {
            Some(emoji) => {
                let calls = self.change(emoji.as_str());
                ReactionPlan { debounce: TimerOp::Keep, stall: TimerOp::Keep, calls }
            },
            None => no_plan(),
        }
    }

    /// The turn has been without news for a while.
    pub fn stall_soft_fired(&mut self) -> (p: ReactionPlan)
        ensures
            (final(self)@, p@) == apply_fired(
                Status { soft_armed: false, ..old(self)@ },
                old(self)@.soft_armed,
                "🥱"@,
            ),
            final(self).timing() == old(self).timing(),
    {
        let armed = self.soft_armed;
        self.soft_armed = false;
        if self.finished || !armed {
            return no_plan();
        }
        let calls = self.change("🥱");
        ReactionPlan { debounce: TimerOp::Keep, stall: TimerOp::Keep, calls }
    }

    /// The turn has been without news for long.
    pub fn stall_hard_fired(&mut self) -> (p: ReactionPlan)
        ensures
            (final(self)@, p@) == apply_fired(
                Status { hard_armed: false, ..old(self)@ },
                old(self)@.hard_armed,
                "😨"@,
            ),
            final(self).timing() == old(self).timing(),
    {
        let armed = self.hard_armed;
        self.hard_armed = false;
        if self.finished || !armed {
            return no_plan();
        }
        let calls = self.change("😨");
        ReactionPlan { debounce: TimerOp::Keep, stall: TimerOp::Keep, calls }
    }
}

/// The reactions on message `m` after some calls.
pub open spec fn reacted(before: Set<Seq<char>>, cs: Seq<Call>, m: int) -> Set<Seq<char>>
    decreases cs.len(),
{
    if cs.len() == 0 {
        before
    } else {
        let r = reacted(before, cs.drop_last(), m);
        let c = cs.last();
        if c.message != m {
            r
        } else if c.add {
            r.insert(c.emoji)
        } else {
            r.remove(c.emoji)
        }
    }
}

/// The reactions on a message whose status is `emoji`; an empty one is no status.
pub open spec fn status_set(emoji: Seq<char>) -> Set<Seq<char>> {
    if emoji.len() > 0 {
        set![emoji]
    } else {
        Set::empty()
    }
}

proof fn lemma_reacted_concat(before: Set<Seq<char>>, a: Seq<Call>, b: Seq<Call>, m: int)
    ensures
        reacted(before, a + b, m) == reacted(reacted(before, a, m), b, m),
    decreases b.len(),
{
    if b.len() == 0 {
        assert(a + b =~= a);
    } else {
        assert((a + b).drop_last() =~= a + b.drop_last());
        lemma_reacted_concat(before, a, b.drop_last(), m);
    }
}

proof fn lemma_reacted_each(before: Set<Seq<char>>, n: nat, emoji: Seq<char>, add: bool, m: int)
    requires
        0 <= m,
    ensures
        reacted(before, on_each(n, emoji, add), m) == (if m < n {
            if add {
                before.insert(emoji)
            } else {
                before.remove(emoji)
            }
        } else {
            before
        }),
    decreases n,
{
    let cs = on_each(n, emoji, add);
    if n > 0 {
        let k = (n - 1) as nat;
        assert(cs.drop_last() =~= on_each(k, emoji, add));
        lemma_reacted_each(before, k, emoji, add, m);
    }
}

/// A change of status reaches every message of the turn: where the old status was
/// shown, the new one is shown instead and nothing else.
pub proof fn law_every_message_shows_status(n: nat, from: Seq<char>, to: Seq<char>, m: int)
    requires
        to.len() > 0,
        0 <= m < n,
    ensures
        reacted(status_set(from), change_calls(n, from, to), m) == status_set(to),
{
    let adds = on_each(n, to, true);
    lemma_reacted_each(status_set(from), n, to, true, m);
    if from.len() > 0 && from != to {
        lemma_reacted_concat(status_set(from), adds, on_each(n, from, false), m);
        lemma_reacted_each(reacted(status_set(from), adds, m), n, from, false, m);
        assert(reacted(status_set(from), change_calls(n, from, to), m) =~= status_set(to));
    } else {
        assert(change_calls(n, from, to) =~= adds);
        assert(reacted(status_set(from), adds, m) =~= status_set(to));
    }
}

/// After every step of a turn each of its messages shows the turn's status and no other:
/// where a message showed the status before the step, it shows the new one after it.
pub proof fn law_messages_follow_the_status(s: Status, emoji: Seq<char>, armed: bool, m: int)
    requires
        emoji.len() > 0,
        0 <= m < s.messages.len(),
    ensures
        ({
            let (t, plan) = apply_now(s, emoji);
            reacted(status_set(s.current), plan.calls, m) == status_set(t.current)
        }),
        ({
            let (t, plan) = apply_later(s, emoji);
            reacted(status_set(s.current), plan.calls, m) == status_set(t.current)
        }),
        ({
            let (t, plan) = apply_final(s, emoji);
            reacted(status_set(s.current), plan.calls, m) == status_set(t.current)
        }),
        ({
            let (t, plan) = apply_fired(s, armed, emoji);
            reacted(status_set(s.current), plan.calls, m) == status_set(t.current)
        }),
{
    law_every_message_shows_status(s.messages.len(), s.current, emoji, m);
}

/// Clearing takes the status off every message of the turn.
pub proof fn law_clear_reaches_every_message(s: Status, m: int)
    requires
        0 <= m < s.messages.len(),
    ensures
        reacted(status_set(s.current), cleared(s).1.calls, m) == Set::<Seq<char>>::empty(),
        cleared(s).0.current.len() == 0,
{
    if s.current.len() > 0 {
        lemma_reacted_each(status_set(s.current), s.messages.len(), s.current, false, m);
    }
    assert(reacted(status_set(s.current), cleared(s).1.calls, m) =~= Set::<Seq<char>>::empty());
}

/// Once a turn has ended its status is final: neither news from the agent nor a
/// timer changes it.
pub proof fn law_final_status_stays(s: Status, emoji: Seq<char>, armed: bool)
    requires
        s.finished,
    ensures
        apply_now(s, emoji).0.current == s.current,
        apply_now(s, emoji).1.calls.len() == 0,
        apply_later(s, emoji).0.current == s.current,
        apply_later(s, emoji).1.calls.len() == 0,
        apply_final(s, emoji).0 == s,
        apply_final(s, emoji).1.calls.len() == 0,
        apply_fired(s, armed, emoji).0 == s,
        apply_fired(s, armed, emoji).1.calls.len() == 0,
{
}

/// Tools of web access come first, then those of coding, then all others; names are
/// looked at for any of the words.
pub proof fn law_tool_emojis(n: Seq<char>, emojis: ReactionEmojis)
    ensures
        ({
            let web = contains(n, "web_search"@) || contains(n, "web_fetch"@) || contains(
                n,
                "web-search"@,
            ) || contains(n, "web-fetch"@) || contains(n, "browser"@);
            let coding = contains(n, "exec"@) || contains(n, "process"@) || contains(n, "read"@)
                || contains(n, "write"@) || contains(n, "edit"@) || contains(n, "bash"@)
                || contains(n, "shell"@);
            &&& web ==> tool_emoji(n, emojis) == emojis.web@
            &&& !web && coding ==> tool_emoji(n, emojis) == emojis.coding@
            &&& !web && !coding ==> tool_emoji(n, emojis) == emojis.tool@
        }),
{
}

/// The calls that change a status: the new one is added to each message before the old one
/// is removed from any.
pub proof fn law_status_change_calls(n: nat, from: Seq<char>, to: Seq<char>, m: int)
    requires
        0 <= m < n,
    ensures
        ({
            let cs = change_calls(n, from, to);
            let replaces = from.len() > 0 && from != to;
            &&& cs.len() == (if replaces {
                2 * n
            } else {
                n
            })
            &&& cs[m] == (Call { message: m, emoji: to, add: true })
            &&& replaces ==> cs[n + m] == (Call { message: m, emoji: from, add: false })
        }),
{
}

/// A status is shown at once unless it is shown already or the turn has ended; then
/// nothing happens. A pending one is dropped, and the watch for silence begins anew.
pub proof fn law_immediate_status(s: Status, emoji: Seq<char>)
    ensures
        ({
            let (t, plan) = apply_now(s, emoji);
            &&& s.finished || emoji == s.current ==> t == s && plan.calls.len() == 0
                && plan.debounce == TimerOp::Keep && plan.stall == TimerOp::Keep
            &&& !s.finished && emoji != s.current ==> {
                &&& t.current == emoji && t.pending is None && t.soft_armed && t.hard_armed
                &&& !t.finished
                &&& plan.calls == change_calls(s.messages.len(), s.current, emoji)
                &&& plan.debounce == TimerOp::Cancel && plan.stall == TimerOp::Restart
            }
            &&& t.messages == s.messages && t.emojis == s.emojis && t.enabled == s.enabled
        }),
{
}

/// A status that comes while the agent works waits for the debounce timer; it replaces one
/// that waits already. Nothing is shown yet. News of any kind begins the watch for silence
/// anew.
pub proof fn law_debounced_status(s: Status, emoji: Seq<char>)
    ensures
        ({
            let (t, plan) = apply_later(s, emoji);
            &&& plan.calls.len() == 0 && plan.stall == TimerOp::Restart
            &&& t.current == s.current && t.finished == s.finished && t.soft_armed && t.hard_armed
            &&& s.finished || emoji == s.current ==> t.pending == s.pending && plan.debounce
                == TimerOp::Keep
            &&& !s.finished && emoji != s.current ==> t.pending == Some(emoji) && plan.debounce
                == TimerOp::Restart
            &&& t.messages == s.messages && t.emojis == s.emojis && t.enabled == s.enabled
        }),
{
}

/// The end of a turn shows its status at once and stops all timers; only the first end
/// counts.
pub proof fn law_final_status(s: Status, emoji: Seq<char>)
    requires
        !s.finished,
    ensures
        ({
            let (t, plan) = apply_final(s, emoji);
            &&& t.finished && t.current == emoji && t.pending is None
            &&& !t.soft_armed && !t.hard_armed
            &&& plan.calls == change_calls(s.messages.len(), s.current, emoji)
            &&& plan.debounce == TimerOp::Cancel && plan.stall == TimerOp::Cancel
            &&& t.messages == s.messages && t.emojis == s.emojis && t.enabled == s.enabled
        }),
{
}

/// A timer that fires in a running turn shows its status; one that was stopped, or fires
/// after the end, does nothing.
pub proof fn law_fired_timer(s: Status, armed: bool, emoji: Seq<char>)
    ensures
        ({
            let (t, plan) = apply_fired(s, armed, emoji);
            &&& armed && !s.finished ==> t == (Status { current: emoji, ..s }) && plan.calls
                == change_calls(s.messages.len(), s.current, emoji)
            &&& !armed || s.finished ==> t == s && plan.calls.len() == 0
            &&& plan.debounce == TimerOp::Keep && plan.stall == TimerOp::Keep
        }),
{
}

/// A turn that succeeded shows that on every message, and then one of eight faces on each.
pub proof fn law_success_adds_a_face(s: Status, random: usize, m: int)
    requires
        0 <= m < s.messages.len(),
    ensures
        ({
            let (t, plan) = done_with(s, random);
            let (u, end) = apply_final(s, s.emojis.done@);
            let n = s.messages.len();
            &&& t == u && plan.debounce == end.debounce && plan.stall == end.stall
            &&& plan.calls.len() == end.calls.len() + n
            &&& plan.calls.take(end.calls.len() as int) == end.calls
            &&& plan.calls[end.calls.len() + m] == (Call {
                message: m,
                emoji: face(random as int % 8),
                add: true,
            })
        }),
        face(0) == "😊"@ && face(1) == "😎"@ && face(2) == "🫡"@ && face(3) == "🤓"@,
        face(4) == "😏"@ && face(5) == "✌️"@ && face(6) == "💪"@ && face(7) == "🦾"@,
{
    let (t, plan) = done_with(s, random);
    let (u, end) = apply_final(s, s.emojis.done@);
    assert(plan.calls.take(end.calls.len() as int) =~= end.calls);
}

/// Clearing stops all timers, and leaves everything but the status as it was.
pub proof fn law_clear_stops_timers(s: Status)
    ensures
        ({
            let (t, plan) = cleared(s);
            &&& plan.debounce == TimerOp::Cancel && plan.stall == TimerOp::Cancel
            &&& t.pending is None && !t.soft_armed && !t.hard_armed && t.current.len() == 0
            &&& t.finished == s.finished && t.messages == s.messages && t.emojis == s.emojis
            &&& s.current.len() == 0 ==> plan.calls.len() == 0
            &&& s.current.len() > 0 ==> plan.calls.len() == s.messages.len()
        }),
{
}

} // verus!
