//! One turn of an agent: what each notification changes, and when the turn ends.

use vstd::prelude::*;

use crate::adapter::display::{
    compose_display, display, tool_lines, ToolEntry, ToolLine, ToolState,
};
use crate::config::ToolDisplay;
use crate::text::{chars_of, decimal, is_text, opt_text, render_u64, string_of};

verus! {

/// What an agent reports while it works.
#[derive(Debug)]
pub enum AcpEvent {
    /// More reply text.
    Text(String),
    /// The agent is thinking.
    Thinking,
    /// A tool call has begun.
    ToolStart { id: String, title: String },
    /// A tool call has ended.
    ToolDone { id: String, title: String, status: String },
    /// The agent's options have changed.
    ConfigUpdate,
    /// Anything else.
    Other,
}

/// The answer to the prompt request.
#[derive(Debug)]
pub enum TurnReply {
    /// An error, as it is shown to the user.
    Error(String),
    /// The turn's result; `silent` if it ended without any output token.
    Done { silent: bool },
}

/// What can happen while a turn runs.
#[derive(Debug)]
pub enum TurnInput {
    /// The agent's output has closed.
    Closed,
    /// The liveness interval has passed without a notification.
    Tick { alive: bool, elapsed_nanos: u128 },
    /// A message that answers the request `id`.
    Response { id: u64, reply: TurnReply },
    /// A notification.
    Event(AcpEvent),
}

/// The status to show on the triggering messages.
#[derive(Debug)]
pub enum TurnReaction {
    /// No change.
    Keep,
    /// The agent is thinking.
    Thinking,
    /// The agent runs the tool with this title.
    Tool(String),
}

/// What is to be done after one input, in the order of the fields.
#[derive(Debug)]
pub struct TurnStep {
    pub reaction: TurnReaction,
    /// New content of the streamed message.
    pub publish: Option<String>,
    /// Take over the options that the event carried.
    pub adopt_config: bool,
    /// Give up the request, so that a late answer is not taken for a new one.
    pub abandon: bool,
    /// The turn has ended.
    pub finished: bool,
}

/// State of a running turn.
#[derive(Debug)]
pub struct Turn {
    pub request_id: u64,
    pub hard_timeout_secs: u64,
    pub streaming: bool,
    pub tool_display: ToolDisplay,
    pub text_buf: String,
    pub tool_lines: Vec<ToolEntry>,
    pub response_error: Option<String>,
    /// The turn ended without an error and without any output token.
    pub silent: bool,
    pub finished: bool,
}

/// What a turn's state says.
pub struct TurnState {
    pub request_id: u64,
    pub hard_timeout_secs: u64,
    pub streaming: bool,
    pub tool_display: ToolDisplay,
    pub text: Seq<char>,
    pub tools: Seq<ToolLine>,
    pub error: Option<Seq<char>>,
    pub silent: bool,
    pub finished: bool,
}

/// What a step asks for.
pub struct StepState {
    pub thinking: bool,
    pub tool: Option<Seq<char>>,
    pub publish: Option<Seq<char>>,
    pub adopt_config: bool,
    pub abandon: bool,
    pub finished: bool,
}

impl View for Turn {
    type V = TurnState;

    open spec fn view(&self) -> TurnState {
        TurnState {
            request_id: self.request_id,
            hard_timeout_secs: self.hard_timeout_secs,
            streaming: self.streaming,
            tool_display: self.tool_display,
            text: self.text_buf@,
            tools: tool_lines(self.tool_lines@),
            error: opt_text(self.response_error),
            silent: self.silent,
            finished: self.finished,
        }
    }
}

impl View for TurnStep {
    type V = StepState;

    open spec fn view(&self) -> StepState {
        StepState {
            thinking: self.reaction is Thinking,
            tool: match self.reaction {
                TurnReaction::Tool(t) => Some(t@),
                _ => None,
            },
            publish: opt_text(self.publish),
            adopt_config: self.adopt_config,
            abandon: self.abandon,
            finished: self.finished,
        }
    }
}

/// A tool title on one line, safe inside an inline-code span.
pub open spec fn flat_title(s: Seq<char>) -> Seq<char>
    decreases s.len(),
{
    if s.len() == 0 {
        Seq::empty()
    } else {
        flat_title(s.drop_last()) + flat_char(s.last())
    }
}

/// What one character of a title becomes.
pub open spec fn flat_char(c: char) -> Seq<char> {
    if c == '\r' {
        Seq::empty()
    } else if c == '\n' {
        " ; "@
    } else if c == '`' {
        "'"@
    } else {
        seq![c]
    }
}

/// The first entry, not before `i`, of the call `id`.
pub open spec fn tool_index(ts: Seq<ToolLine>, id: Seq<char>, i: int) -> Option<int>
    decreases ts.len() - i,
{
    if i < 0 || i >= ts.len() {
        None
    } else if ts[i].id == id {
        Some(i)
    } else {
        tool_index(ts, id, i + 1)
    }
}

/// The calls after `id` has begun.
pub open spec fn tools_started(ts: Seq<ToolLine>, id: Seq<char>, title: Seq<char>) -> Seq<ToolLine> {
    let line = ToolLine { id, title: flat_title(title), state: ToolState::Running };
    match tool_index(ts, id, 0) {
        Some(i) => ts.update(i, line),
        None => ts.push(line),
    }
}

/// The calls after `id` has ended; an unknown call without a title is left out.
pub open spec fn tools_ended(
    ts: Seq<ToolLine>,
    id: Seq<char>,
    title: Seq<char>,
    status: Seq<char>,
) -> Seq<ToolLine> {
    let state = if status == "completed"@ {
        ToolState::Completed
    } else {
        ToolState::Failed
    };
    match tool_index(ts, id, 0) {
        Some(i) => ts.update(
            i,
            ToolLine {
                id,
                title: if title.len() > 0 {
                    flat_title(title)
                } else {
                    ts[i].title
                },
                state,
            },
        ),
        None => if title.len() > 0 {
            ts.push(ToolLine { id, title: flat_title(title), state })
        } else {
            ts
        },
    }
}

/// The text shown where a turn exceeds its time limit.
pub open spec fn timeout_text(secs: u64) -> Seq<char> {
    "Agent exceeded hard timeout ("@ + decimal(secs as nat) + "s)"@
}

/// Whether a turn that has run for `elapsed_nanos` is over its limit.
pub open spec fn over_limit(elapsed_nanos: u128, secs: u64) -> bool {
    elapsed_nanos > secs * 1_000_000_000
}

/// The turn after an input.
pub open spec fn turn_after(t: TurnState, input: TurnInput) -> TurnState {
    if t.finished {
        t
    } else {
        match input {
            TurnInput::Closed => TurnState {
                error: if t.error is None {
                    Some("Agent process exited unexpectedly"@)
                } else {
                    t.error
                },
                finished: true,
                ..t
            },
            TurnInput::Tick { alive, elapsed_nanos } => if !alive {
                TurnState { error: Some("Agent process died"@), finished: true, ..t }
            } else if over_limit(elapsed_nanos, t.hard_timeout_secs) {
                TurnState {
                    error: Some(timeout_text(t.hard_timeout_secs)),
                    finished: true,
                    ..t
                }
            } else {
                t
            },
            TurnInput::Response { id, reply } => if id != t.request_id {
                t
            } else {
                match reply {
                    TurnReply::Error(e) => TurnState { error: Some(e@), finished: true, ..t },
                    TurnReply::Done { silent } => TurnState {
                        silent: t.silent || silent,
                        finished: true,
                        ..t
                    },
                }
            },
            TurnInput::Event(event) => match event {
                AcpEvent::Text(s) => TurnState { text: t.text + s@, ..t },
                AcpEvent::ToolStart { id, title } => if title@.len() > 0 {
                    TurnState { tools: tools_started(t.tools, id@, title@), ..t }
                } else {
                    t
                },
                AcpEvent::ToolDone { id, title, status } => TurnState {
                    tools: tools_ended(t.tools, id@, title@, status@),
                    ..t
                },
                _ => t,
            },
        }
    }
}

/// What is to be done about an input to the turn `t`.
pub open spec fn turn_step(t: TurnState, input: TurnInput) -> StepState {
    let after = turn_after(t, input);
    let idle = StepState {
        thinking: false,
        tool: None,
        publish: None,
        adopt_config: false,
        abandon: false,
        finished: after.finished,
    };
    let shown = if t.streaming {
        Some(display(after.tools, after.text, true, t.tool_display))
    } else {
        None
    };
    if t.finished {
        idle
    } else {
        match input {
            TurnInput::Tick { .. } => StepState { abandon: after.finished, ..idle },
            TurnInput::Event(event) => match event {
                AcpEvent::Text(_) => StepState { publish: shown, ..idle },
                AcpEvent::Thinking => StepState { thinking: true, ..idle },
                AcpEvent::ToolStart { title, .. } => if title@.len() > 0 {
                    StepState { tool: Some(title@), publish: shown, ..idle }
                } else {
                    idle
                },
                AcpEvent::ToolDone { .. } => StepState { thinking: true, publish: shown, ..idle },
                AcpEvent::ConfigUpdate => StepState { adopt_config: true, ..idle },
                AcpEvent::Other => idle,
            },
            _ => idle,
        }
    }
}

/// Flatten a tool-call title into a single line safe for inline-code spans.
pub fn sanitize_title(title: &str) -> (out: String)
    ensures
        out@ == flat_title(title@),
{
    let chars = chars_of(title);
    let mut out = String::new();
    let mut i: usize = 0;
    while i < chars.len()
        invariant
            i <= chars@.len(),
            out@ == flat_title(chars@.take(i as int)),
        decreases chars@.len() - i,
    {
        let c = chars[i];
        if c == '\n' {
            out.append(" ; ");
        } else if c == '`' {
            out.append("'");
        } else if c != '\r' {
            out.push(c);
        }
        i += 1;
        let ghost t = chars@.take(i as int);
        assert(t.drop_last() =~= chars@.take(i - 1));
        assert(t.last() == c);
        assert(out@ =~= flat_title(t));
    }
    assert(chars@.take(i as int) =~= chars@);
    out
}

impl Turn {
    /// The notice that precedes the reply where the session had expired.
    fn expired_notice() -> (s: &'static str)
        ensures
            s@ == "⚠️ _Session expired, starting fresh..._\n\n"@,
    {
        "⚠️ _Session expired, starting fresh..._\n\n"
    }

    /// A turn that has just begun; `reset` if the agent's session had expired.
    pub fn new(
        request_id: u64,
        hard_timeout_secs: u64,
        reset: bool,
        streaming: bool,
        tool_display: ToolDisplay,
    ) -> (t: Self)
        ensures
            t@ == (TurnState {
                request_id,
                hard_timeout_secs,
                streaming,
                tool_display,
                text: if reset {
                    "⚠️ _Session expired, starting fresh..._\n\n"@
                } else {
                    Seq::empty()
                },
                tools: Seq::empty(),
                error: None,
                silent: false,
                finished: false,
            }),
    {
        let mut text_buf = String::new();
        if reset {
            text_buf.append(Self::expired_notice());
        }
        assert(reset ==> text_buf@ =~= "⚠️ _Session expired, starting fresh..._\n\n"@);
        let t = Turn {
            request_id,
            hard_timeout_secs,
            streaming,
            tool_display,
            text_buf,
            tool_lines: Vec::new(),
            response_error: None,
            silent: false,
            finished: false,
        };
        assert(t@.tools =~= Seq::<ToolLine>::empty());
        t
    }

    /// The content of the placeholder that a streamed reply is edited into.
    pub fn placeholder_text(reset: bool) -> (s: String)
        ensures
            s@ == (if reset {
                "⚠️ _Session expired, starting fresh..._\n\n"@ + "…"@
            } else {
                "…"@
            }),
    {
        let mut s = String::new();
        if reset {
            s.append(Self::expired_notice());
        }
        s.append("…");
        assert(s@ =~= (if reset {
            "⚠️ _Session expired, starting fresh..._\n\n"@ + "…"@
        } else {
            "…"@
        }));
        s
    }

    /// The index of the call `id`.
    fn position(&self, id: &str) -> (r: Option<usize>)
        ensures
            match r {
                Some(i) => i < self.tool_lines@.len() && tool_index(self@.tools, id@, 0) == Some(
                    i as int,
                ),
                None => tool_index(self@.tools, id@, 0) is None,
            },
    {
        let id_chars = chars_of(id);
        let mut i: usize = 0;
        while i < self.tool_lines.len()
            invariant
                i <= self.tool_lines@.len(),
                id_chars@ == id@,
                tool_index(self@.tools, id@, 0) == tool_index(self@.tools, id@, i as int),
            decreases self.tool_lines@.len() - i,
        {
            if is_text(id_chars.as_slice(), self.tool_lines[i].id.as_str()) {
                return Some(i);
            }
            i += 1;
        }
        None
    }

    /// Replaces entry `i`, or adds an entry.
    fn put(&mut self, at: Option<usize>, entry: ToolEntry)
        requires
            at is Some ==> at->0 < old(self).tool_lines@.len(),
        ensures
            final(self)@ == (TurnState {
                tools: match at {
                    Some(i) => old(self)@.tools.update(i as int, entry@),
                    None => old(self)@.tools.push(entry@),
                },
                ..old(self)@
            }),
    {
        match at {
            Some(i) => {
                self.tool_lines.set(i, entry);
                assert(self@.tools =~= old(self)@.tools.update(i as int, entry@));
            },
            None => {
                self.tool_lines.push(entry);
                assert(self@.tools =~= old(self)@.tools.push(entry@));
            },
        }
    }

    /// The content to publish while streaming.
    fn shown(&self) -> (r: Option<String>)
        ensures
            opt_text(r) == (if self.streaming {
                Some(display(self@.tools, self@.text, true, self.tool_display))
            } else {
                None
            }),
    {
        if self.streaming {
            Some(
                compose_display(
                    self.tool_lines.as_slice(),
                    self.text_buf.as_str(),
                    true,
                    self.tool_display,
                ),
            )
        } else {
            None
        }
    }

    /// Takes one input and tells what is to be done about it.
    pub fn step(&mut self, input: TurnInput) -> (r: TurnStep)
        ensures
            final(self)@ == turn_after(old(self)@, input),
            r@ == turn_step(old(self)@, input),
    {
        let mut r = TurnStep {
            reaction: TurnReaction::Keep,
            publish: None,
            adopt_config: false,
            abandon: false,
            finished: self.finished,
        };
        if self.finished {
            return r;
        }
        match input {
            TurnInput::Closed => {
                if self.response_error.is_none() {
                    self.response_error = Some("Agent process exited unexpectedly".to_string());
                }
                self.finished = true;
                r.finished = true;
            },
            TurnInput::Tick { alive, elapsed_nanos } => {
                let limit: u128 = (self.hard_timeout_secs as u128) * 1_000_000_000;
                if !alive {
                    self.response_error = Some("Agent process died".to_string());
                    self.finished = true;
                    r.abandon = true;
                    r.finished = true;
                } else if elapsed_nanos > limit {
                    let mut msg = String::new();
                    msg.append("Agent exceeded hard timeout (");
                    let secs = render_u64(self.hard_timeout_secs);
                    msg.append(secs.as_str());
                    msg.append("s)");
                    assert(msg@ =~= timeout_text(self.hard_timeout_secs));
                    self.response_error = Some(msg);
                    self.finished = true;
                    r.abandon = true;
                    r.finished = true;
                }
            },
            TurnInput::Response { id, reply } => {
                if id == self.request_id {
                    match reply {
                        TurnReply::Error(e) => {
                            self.response_error = Some(e);
                        },
                        TurnReply::Done { silent } => {
                            if silent {
                                self.silent = true;
                            }
                        },
                    }
                    self.finished = true;
                    r.finished = true;
                }
            },
            TurnInput::Event(event) => match event {
                AcpEvent::Text(t) => {
                    self.text_buf.append(t.as_str());
                    r.publish = self.shown();
                },
                AcpEvent::Thinking => {
                    r.reaction = TurnReaction::Thinking;
                },
                AcpEvent::ToolStart { id, title } => {
                    if title.as_str().unicode_len() > 0 {
                        let at = self.position(id.as_str());
                        let flat = sanitize_title(title.as_str());
                        self.put(at, ToolEntry { id, title: flat, state: ToolState::Running });
                        r.reaction = TurnReaction::Tool(title);
                        r.publish = self.shown();
                    }
                },
                AcpEvent::ToolDone { id, title, status } => {
                    let status_chars = chars_of(status.as_str());
                    let state = if is_text(status_chars.as_slice(), "completed") {
                        ToolState::Completed
                    } else {
                        ToolState::Failed
                    };
                    let titled = title.as_str().unicode_len() > 0;
                    let at = self.position(id.as_str());
                    if titled {
                        let flat = sanitize_title(title.as_str());
                        self.put(at, ToolEntry { id, title: flat, state });
                    } else if let Some(i) = at {
                        let kept = self.tool_lines[i].title.clone();
                        self.put(at, ToolEntry { id, title: kept, state });
                    }
                    r.reaction = TurnReaction::Thinking;
                    r.publish = self.shown();
                },
                AcpEvent::ConfigUpdate => {
                    r.adopt_config = true;
                },
                AcpEvent::Other => {},
            },
        }
        r
    }
}

/// What is written into the streamed message for new content: nothing where it
/// is what was written last, else the content or, where it is too long, its end.
pub open spec fn streamed_edit(content: Seq<char>, last: Seq<char>, limit: int) -> Option<Seq<char>> {
    if content == last {
        None
    } else if content.len() > limit - 100 {
        Some("…"@ + content.skip(content.len() - (limit - 100)))
    } else {
        Some(content)
    }
}

/// The edit that brings the streamed message to `content`.
pub fn stream_edit(content: &str, last: &str, limit: usize) -> (r: Option<String>)
    requires
        limit >= 100,
    ensures
        opt_text(r) == streamed_edit(content@, last@, limit as int),
{
    let chars = chars_of(content);
    let n: usize = chars.len();
    if is_text(chars.as_slice(), last) {
        None
    } else if n > limit - 100 {
        let mut out = String::new();
        out.append("…");
        let tail = string_of(crate::text::skip(chars.as_slice(), n - (limit - 100)));
        out.append(tail.as_str());
        assert(out@ =~= "…"@ + content@.skip(content@.len() - (limit - 100)));
        Some(out)
    } else {
        Some(content.to_string())
    }
}

/// A turn that has ended takes nothing more: a late answer or notification
/// cannot leak into it.
pub proof fn law_finished_turn_is_final(t: TurnState, input: TurnInput)
    requires
        t.finished,
    ensures
        turn_after(t, input) == t,
        turn_step(t, input).publish is None,
        !turn_step(t, input).abandon,
{
}

/// An answer to another request changes nothing.
pub proof fn law_stale_response_ignored(t: TurnState, id: u64, reply: TurnReply)
    requires
        id != t.request_id,
    ensures
        turn_after(t, TurnInput::Response { id, reply }) == t,
{
}

/// The turns that any sequence of inputs leads to.
pub open spec fn turn_run(t: TurnState, inputs: Seq<TurnInput>) -> TurnState
    decreases inputs.len(),
{
    if inputs.len() == 0 {
        t
    } else {
        turn_after(turn_run(t, inputs.drop_last()), inputs.last())
    }
}

/// Each call has at most one entry, whatever the agent reports.
pub open spec fn distinct_ids(ts: Seq<ToolLine>) -> bool {
    forall|i: int, j: int| 0 <= i < j < ts.len() ==> (#[trigger] ts[i]).id != (#[trigger] ts[j]).id
}

/// No title breaks a line or an inline-code span.
pub open spec fn flat_titles(ts: Seq<ToolLine>) -> bool {
    forall|i: int| 0 <= i < ts.len() ==> is_flat((#[trigger] ts[i]).title)
}

/// Text on one line without a backtick.
pub open spec fn is_flat(s: Seq<char>) -> bool {
    forall|i: int|
        0 <= i < s.len() ==> (#[trigger] s[i]) != '\r' && s[i] != '\n' && s[i] != '`'
}

/// In every state that a turn reaches, each call has one entry and every title is
/// safe inside an inline-code span; reply text is only ever added to.
pub proof fn law_turn_invariant(t: TurnState, inputs: Seq<TurnInput>)
    requires
        distinct_ids(t.tools),
        flat_titles(t.tools),
    ensures
        distinct_ids(turn_run(t, inputs).tools),
        flat_titles(turn_run(t, inputs).tools),
        t.text.is_prefix_of(turn_run(t, inputs).text),
    decreases inputs.len(),
{
    if inputs.len() > 0 {
        law_turn_invariant(t, inputs.drop_last());
        let b = turn_run(t, inputs.drop_last());
        let input = inputs.last();
        if let TurnInput::Event(event) = input {
            match event {
                AcpEvent::ToolStart { id, title } => {
                    lemma_tool_index(b.tools, id@, 0);
                    lemma_flat_title(title@);
                },
                AcpEvent::ToolDone { id, title, status } => {
                    lemma_tool_index(b.tools, id@, 0);
                    lemma_flat_title(title@);
                },
                _ => {},
            }
        }
    }
}

proof fn lemma_tool_index(ts: Seq<ToolLine>, id: Seq<char>, i: int)
    requires
        0 <= i,
    ensures
        match tool_index(ts, id, i) {
            Some(k) => i <= k < ts.len() && ts[k].id == id,
            None => forall|j: int| i <= j < ts.len() ==> (#[trigger] ts[j]).id != id,
        },
    decreases ts.len() - i,
{
    if i < ts.len() && ts[i].id != id {
        lemma_tool_index(ts, id, i + 1);
    }
}

proof fn lemma_flat_title(s: Seq<char>)
    ensures
        is_flat(flat_title(s)),
    decreases s.len(),
{
    reveal_strlit(" ; ");
    reveal_strlit("'");
    if s.len() > 0 {
        lemma_flat_title(s.drop_last());
    }
}

/// A running turn collects reply text whatever its display mode and whether or not it
/// streams, and a text notification changes nothing else.
pub proof fn law_text_is_collected(t: TurnState, s: String)
    requires
        !t.finished,
    ensures
        ({
            let u = turn_after(t, TurnInput::Event(AcpEvent::Text(s)));
            &&& u.text == t.text + s@
            &&& u == TurnState { text: u.text, ..t }
        }),
{
}

/// The reply text among the first `n` inputs that came while the turn `t` was running.
pub open spec fn text_received(t: TurnState, inputs: Seq<TurnInput>, n: int) -> Seq<char>
    decreases n,
{
    if n <= 0 {
        Seq::empty()
    } else {
        let before = text_received(t, inputs, n - 1);
        match inputs[n - 1] {
            TurnInput::Event(AcpEvent::Text(s)) => if turn_run(t, inputs.take(n - 1)).finished {
                before
            } else {
                before + s@
            },
            _ => before,
        }
    }
}

/// Over a whole run the text is the text at the start followed by all that was received
/// before the end, in order.
pub proof fn law_run_collects_all_text(t: TurnState, inputs: Seq<TurnInput>, n: int)
    requires
        0 <= n <= inputs.len(),
    ensures
        turn_run(t, inputs.take(n)).text == t.text + text_received(t, inputs, n),
    decreases n,
{
    if n > 0 {
        law_run_collects_all_text(t, inputs, n - 1);
        assert(inputs.take(n).drop_last() =~= inputs.take(n - 1));
        assert(inputs.take(n).last() == inputs[n - 1]);
        let b = turn_run(t, inputs.take(n - 1));
        assert(turn_run(t, inputs.take(n)) == turn_after(b, inputs[n - 1]));
        if let TurnInput::Event(AcpEvent::Text(s)) = inputs[n - 1] {
            if !b.finished {
                assert(t.text + text_received(t, inputs, n - 1) + s@ =~= t.text + (text_received(
                    t,
                    inputs,
                    n - 1,
                ) + s@));
            }
        }
    } else {
        assert(inputs.take(0).len() == 0);
        assert(t.text + Seq::<char>::empty() =~= t.text);
    }
}

/// A running turn ends where the agent's output closes, where it answers the turn's
/// request, where it is found dead and where it has run for longer than the limit, and
/// nowhere else; the request is given up exactly in the last two.
pub proof fn law_turn_ends(t: TurnState, input: TurnInput)
    requires
        !t.finished,
    ensures
        turn_after(t, input).finished <==> {
            ||| input is Closed
            ||| input is Response && input->Response_id == t.request_id
            ||| input is Tick && !input->alive
            ||| input is Tick && input->elapsed_nanos > t.hard_timeout_secs * 1_000_000_000
        },
        turn_step(t, input).finished == turn_after(t, input).finished,
        turn_step(t, input).abandon <==> input is Tick && (!input->alive || input->elapsed_nanos
            > t.hard_timeout_secs * 1_000_000_000),
{
}

/// What a turn's end leaves behind: the agent's error where it answered with one, else
/// why the turn was cut off; an earlier error is kept when the output closes. Nothing but
/// the end of a turn sets an error, and only an answer without output makes it silent.
pub proof fn law_turn_errors(t: TurnState, input: TurnInput)
    requires
        !t.finished,
    ensures
        ({
            let u = turn_after(t, input);
            &&& !u.finished ==> u.error == t.error && u.silent == t.silent
            &&& input is Closed ==> u.error == (if t.error is Some {
                t.error
            } else {
                Some("Agent process exited unexpectedly"@)
            })
            &&& input is Tick && !input->alive ==> u.error == Some("Agent process died"@)
            &&& input is Tick && input->alive && u.finished ==> u.error == Some(
                "Agent exceeded hard timeout ("@ + decimal(t.hard_timeout_secs as nat) + "s)"@,
            )
            &&& input is Response && input->Response_id == t.request_id ==> (
            match input->Response_reply {
                TurnReply::Error(e) => u.error == Some(e@) && u.silent == t.silent,
                TurnReply::Done { silent } => u.error == t.error && u.silent == (t.silent
                    || silent),
            })
            &&& !(input is Response) ==> u.silent == t.silent
            &&& !(input is Event) ==> u.text == t.text && u.tools == t.tools
            &&& u.request_id == t.request_id && u.hard_timeout_secs == t.hard_timeout_secs
            &&& u.streaming == t.streaming && u.tool_display == t.tool_display
        }),
{
}

/// The entry of a tool call that has begun is running under its title, a call that is new
/// comes last, and all other entries stay as they were.
pub proof fn law_tool_start_is_shown(t: TurnState, id: String, title: String)
    requires
        !t.finished,
        title@.len() > 0,
        distinct_ids(t.tools),
    ensures
        ({
            let u = turn_after(t, TurnInput::Event(AcpEvent::ToolStart { id, title }));
            &&& u == TurnState { tools: u.tools, ..t }
            &&& (exists|k: int| 0 <= k < t.tools.len() && (#[trigger] t.tools[k]).id == id@)
                ==> u.tools.len() == t.tools.len()
            &&& !(exists|k: int| 0 <= k < t.tools.len() && (#[trigger] t.tools[k]).id == id@)
                ==> u.tools.len() == t.tools.len() + 1
            &&& forall|k: int|
                0 <= k < t.tools.len() && (#[trigger] t.tools[k]).id != id@ ==> u.tools[k]
                    == t.tools[k]
            &&& exists|k: int|
                0 <= k < u.tools.len() && #[trigger] u.tools[k] == (ToolLine {
                    id: id@,
                    title: flat_title(title@),
                    state: ToolState::Running,
                })
        }),
{
    lemma_tool_index(t.tools, id@, 0);
    let u = turn_after(t, TurnInput::Event(AcpEvent::ToolStart { id, title }));
    let k = match tool_index(t.tools, id@, 0) {
        Some(k) => k,
        None => t.tools.len() as int,
    };
    assert(u.tools[k].state == ToolState::Running);
}

/// A tool call that begins without a title is not shown.
pub proof fn law_untitled_start_is_ignored(t: TurnState, id: String, title: String)
    requires
        title@.len() == 0,
    ensures
        turn_after(t, TurnInput::Event(AcpEvent::ToolStart { id, title })) == t,
{
}

/// The entry of a tool call that has ended is completed where the agent says so and
/// failed otherwise; it keeps its title unless it comes with another. A call that was
/// not known is added where it has a title. All other entries stay as they were.
pub proof fn law_tool_end_is_shown(t: TurnState, id: String, title: String, status: String)
    requires
        !t.finished,
        distinct_ids(t.tools),
    ensures
        ({
            let u = turn_after(t, TurnInput::Event(AcpEvent::ToolDone { id, title, status }));
            let state = if status@ == "completed"@ {
                ToolState::Completed
            } else {
                ToolState::Failed
            };
            let known = exists|k: int|
                0 <= k < t.tools.len() && (#[trigger] t.tools[k]).id == id@;
            &&& u == TurnState { tools: u.tools, ..t }
            &&& u.tools.len() == t.tools.len() + (if !known && title@.len() > 0 {
                1int
            } else {
                0
            })
            &&& forall|k: int|
                0 <= k < t.tools.len() ==> u.tools[k] == (if (#[trigger] t.tools[k]).id == id@ {
                    ToolLine {
                        id: id@,
                        title: if title@.len() > 0 {
                            flat_title(title@)
                        } else {
                            t.tools[k].title
                        },
                        state,
                    }
                } else {
                    t.tools[k]
                })
            &&& !known && title@.len() > 0 ==> u.tools.last() == (ToolLine {
                id: id@,
                title: flat_title(title@),
                state,
            })
        }),
{
    lemma_tool_index(t.tools, id@, 0);
    if let Some(k) = tool_index(t.tools, id@, 0) {
        assert(t.tools[k].id == id@);
        assert forall|j: int| 0 <= j < t.tools.len() && j != k implies (#[trigger] t.tools[j]).id
            != id@ by {
            if j < k {
                assert(t.tools[j].id != t.tools[k].id);
            } else {
                assert(t.tools[k].id != t.tools[j].id);
            }
        }
    }
}

proof fn lemma_flat_single(c: char)
    ensures
        flat_title(seq![c]) == flat_char(c),
{
    assert(seq![c].drop_last() =~= Seq::<char>::empty());
    assert(flat_title(seq![c].drop_last()) =~= Seq::<char>::empty());
    assert(flat_title(seq![c]) =~= flat_char(c));
}

/// A title is flattened character by character: carriage returns go, line breaks become
/// a semicolon between spaces, backticks become quotes, and all else stays.
pub proof fn law_title_is_flattened(a: Seq<char>, b: Seq<char>, c: char)
    ensures
        flat_title(Seq::empty()) == Seq::<char>::empty(),
        flat_title(a + b) == flat_title(a) + flat_title(b),
        flat_title(seq!['\r']) == Seq::<char>::empty(),
        flat_title(seq!['\n']) == " ; "@,
        flat_title(seq!['`']) == "'"@,
        c != '\r' && c != '\n' && c != '`' ==> flat_title(seq![c]) == seq![c],
    decreases b.len(),
{
    lemma_flat_single('\r');
    lemma_flat_single('\n');
    lemma_flat_single('`');
    lemma_flat_single(c);
    if b.len() == 0 {
        assert(a + b =~= a);
        assert(flat_title(a) + flat_title(b) =~= flat_title(a));
    } else {
        assert((a + b).drop_last() =~= a + b.drop_last());
        law_title_is_flattened(a, b.drop_last(), c);
        assert(flat_title(a + b) =~= flat_title(a) + flat_title(b));
    }
}

/// What is asked for while a turn runs. New content is published exactly where the turn
/// streams and its text or its tool calls were reported on, and it is what is shown of
/// the turn then; the status follows what the agent reports; options are taken over
/// exactly where they have changed.
pub proof fn law_step_follows_input(t: TurnState, input: TurnInput)
    requires
        !t.finished,
    ensures
        ({
            let u = turn_after(t, input);
            let r = turn_step(t, input);
            let reported = input matches TurnInput::Event(e) && (e is Text || e is ToolDone || (
            e matches AcpEvent::ToolStart { title, .. } && title@.len() > 0));
            &&& r.publish == (if t.streaming && reported {
                Some(display(u.tools, u.text, true, t.tool_display))
            } else {
                None
            })
            &&& r.thinking <==> (input matches TurnInput::Event(e) && (e is Thinking || e is ToolDone))
            &&& r.tool == (match input {
                TurnInput::Event(AcpEvent::ToolStart { title, .. }) => if title@.len() > 0 {
                    Some(title@)
                } else {
                    None
                },
                _ => None,
            })
            &&& r.adopt_config <==> (input matches TurnInput::Event(e) && e is ConfigUpdate)
        }),
{
}

/// A streamed message shows the new content whole where it is short enough, else its end
/// behind an ellipsis, and is never longer than the limit; the same content is not
/// written twice.
pub proof fn law_streamed_edit(content: Seq<char>, last: Seq<char>, limit: int)
    requires
        limit >= 100,
    ensures
        streamed_edit(content, last, limit) is None <==> content == last,
        content != last && content.len() <= limit - 100 ==> streamed_edit(content, last, limit)
            == Some(content),
        content != last && content.len() > limit - 100 ==> ({
            let shown = streamed_edit(content, last, limit)->0;
            &&& shown.len() == limit - 99
            &&& shown[0] == '…'
            &&& shown.skip(1) == content.subrange(
                content.len() - (limit - 100),
                content.len() as int,
            )
        }),
{
    reveal_strlit("…");
    if content != last && content.len() > limit - 100 {
        let shown = streamed_edit(content, last, limit)->0;
        assert(shown.skip(1) =~= content.subrange(
            content.len() - (limit - 100),
            content.len() as int,
        ));
    }
}

} // verus!
