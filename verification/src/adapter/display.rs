//! Rendering of tool activity and reply text.

use vstd::prelude::*;

use crate::config::ToolDisplay;
use crate::text::{
    chars_of, decimal, has_suffix, join, joined, render_usize, string_of, texts, trim_end,
    trimmed_end,
};

verus! {

/// State of one tool call.
#[derive(Debug, Clone, Copy, PartialEq, Eq, Structural)]
pub enum ToolState {
    Running,
    Completed,
    Failed,
}

/// One tool call of the current turn.
#[derive(Debug)]
pub struct ToolEntry {
    pub id: String,
    pub title: String,
    pub state: ToolState,
}

/// What a tool entry says.
pub struct ToolLine {
    pub id: Seq<char>,
    pub title: Seq<char>,
    pub state: ToolState,
}

impl View for ToolEntry {
    type V = ToolLine;

    open spec fn view(&self) -> ToolLine {
        ToolLine { id: self.id@, title: self.title@, state: self.state }
    }
}

impl Clone for ToolEntry {
    fn clone(&self) -> (r: Self)
        ensures
            r@ == self@,
    {
        ToolEntry { id: self.id.clone(), title: self.title.clone(), state: self.state }
    }
}

/// What a list of tool entries says.
pub open spec fn tool_lines(v: Seq<ToolEntry>) -> Seq<ToolLine> {
    v.map_values(|e: ToolEntry| e@)
}

/// Maximum number of finished tool entries to show individually
/// during streaming before collapsing into a summary line.
pub const TOOL_COLLAPSE_THRESHOLD: usize = 3;

/// The line shown for one tool call.
pub open spec fn tool_text(t: ToolLine) -> Seq<char> {
    match t.state {
        ToolState::Running => "🔧 `"@ + t.title + "`..."@,
        ToolState::Completed => "✅ `"@ + t.title + "`"@,
        ToolState::Failed => "❌ `"@ + t.title + "`"@,
    }
}

/// The lines shown for tool calls, each ended by a line break.
pub open spec fn tool_block(ts: Seq<ToolLine>) -> Seq<char>
    decreases ts.len(),
{
    if ts.len() == 0 {
        Seq::empty()
    } else {
        tool_block(ts.drop_last()) + tool_text(ts.last()) + "\n"@
    }
}

/// The calls that are in the state `st`.
pub open spec fn in_state(ts: Seq<ToolLine>, st: ToolState) -> Seq<ToolLine> {
    ts.filter(|t: ToolLine| t.state == st)
}

/// The calls that have ended.
pub open spec fn ended(ts: Seq<ToolLine>) -> Seq<ToolLine> {
    ts.filter(|t: ToolLine| t.state != ToolState::Running)
}

/// The counts that are not zero, each behind its icon.
pub open spec fn count_parts(done: nat, failed: nat, running: nat) -> Seq<Seq<char>> {
    (if done > 0 { seq!["✅ "@ + decimal(done)] } else { Seq::empty() })
    + (if failed > 0 { seq!["❌ "@ + decimal(failed)] } else { Seq::empty() })
    + (if running > 0 { seq!["🔧 "@ + decimal(running)] } else { Seq::empty() })
}

/// The tool activity as shown above the text.
pub open spec fn tool_summary(ts: Seq<ToolLine>, streaming: bool, mode: ToolDisplay) -> Seq<char> {
    let done = in_state(ts, ToolState::Completed).len();
    let failed = in_state(ts, ToolState::Failed).len();
    let running = in_state(ts, ToolState::Running);
    match mode {
        ToolDisplay::Hidden => Seq::empty(),
        ToolDisplay::Compact => if ts.len() == 0 {
            Seq::empty()
        } else {
            join(count_parts(done, failed, running.len()), " · "@) + " tool(s)\n"@
        },
        ToolDisplay::Full => if streaming {
            (if done + failed <= TOOL_COLLAPSE_THRESHOLD {
                tool_block(ended(ts))
            } else {
                join(count_parts(done, failed, 0), " · "@) + " tool(s) completed\n"@
            }) + (if running.len() <= TOOL_COLLAPSE_THRESHOLD {
                tool_block(running)
            } else {
                let hidden = running.len() - TOOL_COLLAPSE_THRESHOLD;
                "🔧 "@ + decimal(hidden as nat) + " more running\n"@ + tool_block(
                    running.skip(hidden as int),
                )
            })
        } else {
            tool_block(ts)
        },
    }
}

/// Tool activity, a blank line where there is any, and the text without trailing
/// white space.
pub open spec fn display(
    ts: Seq<ToolLine>,
    text: Seq<char>,
    streaming: bool,
    mode: ToolDisplay,
) -> Seq<char> {
    let head = tool_summary(ts, streaming, mode);
    if head.len() == 0 {
        trim_end(text)
    } else {
        head + "\n"@ + trim_end(text)
    }
}

impl ToolEntry {
    /// The line shown for this tool call.
    pub fn render(&self) -> (out: String)
        ensures
            out@ == tool_text(self@),
    {
        let mut out = String::new();
        match self.state {
            ToolState::Running => {
                out.append("🔧 `");
                out.append(self.title.as_str());
                out.append("`...");
            },
            ToolState::Completed => {
                out.append("✅ `");
                out.append(self.title.as_str());
                out.append("`");
            },
            ToolState::Failed => {
                out.append("❌ `");
                out.append(self.title.as_str());
                out.append("`");
            },
        }
        assert(out@ =~= tool_text(self@));
        out
    }
}

/// The calls in the state `st` (`same`), or those in any other state.
fn select(entries: &[ToolEntry], st: ToolState, same: bool) -> (out: Vec<ToolEntry>)
    ensures
        tool_lines(out@) == tool_lines(entries@).filter(
            |t: ToolLine| (t.state == st) == same,
        ),
{
    let ghost pred = |t: ToolLine| (t.state == st) == same;
    let mut out: Vec<ToolEntry> = Vec::new();
    let mut i: usize = 0;
    proof {
        reveal(Seq::filter);
    }
    assert(tool_lines(out@) =~= tool_lines(entries@).take(0).filter(pred));
    while i < entries.len()
        invariant
            i <= entries@.len(),
            pred == |t: ToolLine| (t.state == st) == same,
            tool_lines(out@) == tool_lines(entries@).take(i as int).filter(pred),
        decreases entries@.len() - i,
    {
        let ghost before = out@;
        if (entries[i].state == st) == same {
            out.push(entries[i].clone());
            assert(tool_lines(out@) =~= tool_lines(before).push(entries@[i as int]@));
        }
        proof {
            reveal(Seq::filter);
            let t = tool_lines(entries@).take(i + 1);
            assert(t.drop_last() =~= tool_lines(entries@).take(i as int));
            assert(t.last() == entries@[i as int]@);
        }
        i += 1;
    }
    assert(tool_lines(entries@).take(i as int) =~= tool_lines(entries@));
    out
}

/// Appends the line of each of `entries`.
fn push_block(out: &mut String, entries: &[ToolEntry])
    ensures
        final(out)@ == old(out)@ + tool_block(tool_lines(entries@)),
{
    let mut i: usize = 0;
    assert(out@ =~= old(out)@ + tool_block(tool_lines(entries@).take(0)));
    while i < entries.len()
        invariant
            i <= entries@.len(),
            out@ == old(out)@ + tool_block(tool_lines(entries@).take(i as int)),
        decreases entries@.len() - i,
    {
        let line = entries[i].render();
        out.append(line.as_str());
        out.append("\n");
        i += 1;
        let ghost t = tool_lines(entries@).take(i as int);
        assert(t.drop_last() =~= tool_lines(entries@).take(i - 1));
        assert(t.last() == entries@[i - 1]@);
        assert(out@ =~= old(out)@ + tool_block(t));
    }
    assert(tool_lines(entries@).take(i as int) =~= tool_lines(entries@));
}

/// Appends `icon` and `n` to the parts of a summary.
fn push_count(parts: &mut Vec<String>, icon: &str, n: usize)
    ensures
        texts(final(parts)@) == texts(old(parts)@) + (if n > 0 {
            seq![icon@ + decimal(n as nat)]
        } else {
            Seq::empty()
        }),
{
    if n > 0 {
        let mut part = String::new();
        part.append(icon);
        let digits = render_usize(n);
        part.append(digits.as_str());
        assert(part@ =~= icon@ + decimal(n as nat));
        parts.push(part);
    }
    assert(texts(parts@) =~= texts(old(parts)@) + (if n > 0 {
        seq![icon@ + decimal(n as nat)]
    } else {
        Seq::empty()
    }));
}

/// The counts that are not zero, joined by dots.
fn counts(done: usize, failed: usize, running: usize) -> (out: String)
    ensures
        out@ == join(count_parts(done as nat, failed as nat, running as nat), " · "@),
{
    let mut parts: Vec<String> = Vec::new();
    push_count(&mut parts, "✅ ", done);
    push_count(&mut parts, "❌ ", failed);
    push_count(&mut parts, "🔧 ", running);
    assert(texts(parts@) =~= count_parts(done as nat, failed as nat, running as nat));
    joined(parts.as_slice(), " · ")
}

proof fn lemma_states(ts: Seq<ToolLine>)
    ensures
        in_state(ts, ToolState::Completed).len() + in_state(ts, ToolState::Failed).len()
            + in_state(ts, ToolState::Running).len() == ts.len(),
        ended(ts) == ts.filter(|t: ToolLine| (t.state == ToolState::Running) == false),
        forall|st: ToolState|
            #![auto]
            in_state(ts, st) == ts.filter(|t: ToolLine| (t.state == st) == true),
    decreases ts.len(),
{
    reveal(Seq::filter);
    if ts.len() > 0 {
        lemma_states(ts.drop_last());
    }
    assert((|t: ToolLine| t.state != ToolState::Running) =~= (|t: ToolLine|
        (t.state == ToolState::Running) == false));
    assert forall|st: ToolState|
        #![auto]
        in_state(ts, st) == ts.filter(|t: ToolLine| (t.state == st) == true) by {
        assert((|t: ToolLine| t.state == st) =~= (|t: ToolLine| (t.state == st) == true));
    }
}

/// Tool activity followed by the reply text, as it is shown while a turn is
/// `streaming` or once it has ended.
pub fn compose_display(
    entries: &[ToolEntry],
    text: &str,
    streaming: bool,
    tool_display: ToolDisplay,
) -> (out: String)
    ensures
        out@ == display(tool_lines(entries@), text@, streaming, tool_display),
{
    let ghost ts = tool_lines(entries@);
    let mut out = String::new();
    proof {
        lemma_states(ts);
        reveal(Seq::filter);
        reveal_strlit("\n");
        reveal_strlit(" tool(s)\n");
    }
    if entries.len() > 0 && tool_display != ToolDisplay::Hidden {
        let done: usize = select(entries, ToolState::Completed, true).len();
        let failed: usize = select(entries, ToolState::Failed, true).len();
        let running_entries = select(entries, ToolState::Running, true);
        let running: usize = running_entries.len();
        match tool_display {
            ToolDisplay::Compact => {
                let summary = counts(done, failed, running);
                out.append(summary.as_str());
                out.append(" tool(s)\n");
            },
            ToolDisplay::Full => {
                if streaming {
                    if done + failed <= TOOL_COLLAPSE_THRESHOLD {
                        let finished = select(entries, ToolState::Running, false);
                        push_block(&mut out, finished.as_slice());
                    } else {
                        let summary = counts(done, failed, 0);
                        out.append(summary.as_str());
                        out.append(" tool(s) completed\n");
                    }
                    if running <= TOOL_COLLAPSE_THRESHOLD {
                        push_block(&mut out, running_entries.as_slice());
                    } else {
                        let hidden: usize = running - TOOL_COLLAPSE_THRESHOLD;
                        out.append("🔧 ");
                        let digits = render_usize(hidden);
                        out.append(digits.as_str());
                        out.append(" more running\n");
                        let shown = vstd::slice::slice_subrange(
                            running_entries.as_slice(),
                            hidden,
                            running,
                        );
                        assert(tool_lines(shown@) =~= tool_lines(running_entries@).skip(
                            hidden as int,
                        ));
                        push_block(&mut out, shown);
                    }
                } else {
                    push_block(&mut out, entries);
                }
            },
            ToolDisplay::Hidden => {},
        }
    }
    assert(out@ =~= tool_summary(ts, streaming, tool_display));
    if !out.as_str().is_empty() {
        out.append("\n");
    }
    let chars = chars_of(text);
    let body = string_of(trimmed_end(chars.as_slice()));
    out.append(body.as_str());
    assert(out@ =~= display(ts, text@, streaming, tool_display));
    out
}

/// The compact form tells how many calls are in each state and nothing of the
/// calls themselves.
pub proof fn law_compact_shows_only_counts(
    a: Seq<ToolLine>,
    b: Seq<ToolLine>,
    text: Seq<char>,
    streaming: bool,
)
    requires
        a.len() == b.len(),
        forall|i: int| 0 <= i < a.len() ==> (#[trigger] a[i]).state == b[i].state,
    ensures
        display(a, text, streaming, ToolDisplay::Compact) == display(
            b,
            text,
            streaming,
            ToolDisplay::Compact,
        ),
{
    lemma_same_counts(a, b);
}

proof fn lemma_same_counts(a: Seq<ToolLine>, b: Seq<ToolLine>)
    requires
        a.len() == b.len(),
        forall|i: int| 0 <= i < a.len() ==> (#[trigger] a[i]).state == b[i].state,
    ensures
        forall|st: ToolState| #[trigger] in_state(a, st).len() == in_state(b, st).len(),
    decreases a.len(),
{
    reveal(Seq::filter);
    if a.len() > 0 {
        assert(a.last().state == b.last().state);
        lemma_same_counts(a.drop_last(), b.drop_last());
        assert forall|st: ToolState| #[trigger]
            in_state(a, st).len() == in_state(b, st).len() by {
            assert(in_state(a.drop_last(), st).len() == in_state(b.drop_last(), st).len());
        }
    }
}

/// The counts of a summary cover every call once.
pub proof fn law_counts_cover_every_call(ts: Seq<ToolLine>)
    ensures
        in_state(ts, ToolState::Completed).len() + in_state(ts, ToolState::Failed).len()
            + in_state(ts, ToolState::Running).len() == ts.len(),
{
    lemma_states(ts);
}

/// Whatever the mode, the tool calls and whether the turn still streams, what is shown
/// ends with the reply text without its trailing white space; what stands before it does
/// not depend on the text.
pub proof fn law_display_ends_with_text(
    ts: Seq<ToolLine>,
    text: Seq<char>,
    streaming: bool,
    mode: ToolDisplay,
)
    ensures
        display(ts, text, streaming, mode) == display(ts, Seq::empty(), streaming, mode) + trim_end(
            text,
        ),
        ts.len() == 0 || mode == ToolDisplay::Hidden ==> display(ts, text, streaming, mode)
            == trim_end(text),
        ts.len() > 0 && mode != ToolDisplay::Hidden ==> has_suffix(
            display(ts, Seq::empty(), streaming, mode),
            "\n\n"@,
        ),
{
    reveal_strlit("\n");
    reveal_strlit("\n\n");
    assert(trim_end(Seq::<char>::empty()) =~= Seq::<char>::empty());
    let empty = Seq::<char>::empty();
    assert(display(ts, text, streaming, mode) =~= display(ts, empty, streaming, mode) + trim_end(
        text,
    ));
    lemma_states(ts);
    if ts.len() == 0 {
        reveal(Seq::filter);
        assert(tool_summary(ts, streaming, mode) =~= Seq::<char>::empty());
        assert(display(ts, text, streaming, mode) =~= trim_end(text));
    }
    if ts.len() > 0 && mode != ToolDisplay::Hidden {
        lemma_summary_end(ts, streaming, mode);
        let d = display(ts, empty, streaming, mode);
        assert(d.subrange(d.len() - 2, d.len() as int) =~= "\n\n"@);
    }
}

proof fn lemma_block_end(ts: Seq<ToolLine>)
    requires
        ts.len() > 0,
    ensures
        tool_block(ts).len() > 0,
        tool_block(ts).last() == '\n',
{
    reveal_strlit("\n");
}

proof fn lemma_summary_end(ts: Seq<ToolLine>, streaming: bool, mode: ToolDisplay)
    requires
        ts.len() > 0,
        mode != ToolDisplay::Hidden,
    ensures
        tool_summary(ts, streaming, mode).len() > 0,
        tool_summary(ts, streaming, mode).last() == '\n',
{
    reveal_strlit(" tool(s)\n");
    reveal_strlit(" tool(s) completed\n");
    reveal_strlit(" more running\n");
    lemma_states(ts);
    lemma_ended_len(ts);
    let running = in_state(ts, ToolState::Running);
    if mode == ToolDisplay::Full && streaming {
        if ended(ts).len() > 0 {
            lemma_block_end(ended(ts));
        }
        if running.len() > 0 {
            lemma_block_end(running);
        }
        if running.len() > TOOL_COLLAPSE_THRESHOLD {
            lemma_block_end(running.skip(running.len() - TOOL_COLLAPSE_THRESHOLD));
        }
    } else {
        lemma_block_end(ts);
    }
}

proof fn lemma_ended_len(ts: Seq<ToolLine>)
    ensures
        ended(ts).len() == in_state(ts, ToolState::Completed).len() + in_state(
            ts,
            ToolState::Failed,
        ).len(),
    decreases ts.len(),
{
    reveal(Seq::filter);
    if ts.len() > 0 {
        lemma_ended_len(ts.drop_last());
    }
}

/// Calls are told apart by their state alone, in their order: one more call is one more
/// among those of its state, and only there.
pub proof fn law_calls_by_state(ts: Seq<ToolLine>, t: ToolLine, st: ToolState)
    ensures
        in_state(Seq::empty(), st) == Seq::<ToolLine>::empty(),
        in_state(ts.push(t), st) == (if t.state == st {
            in_state(ts, st).push(t)
        } else {
            in_state(ts, st)
        }),
        ended(Seq::empty()) == Seq::<ToolLine>::empty(),
        ended(ts.push(t)) == (if t.state == ToolState::Completed || t.state == ToolState::Failed {
            ended(ts).push(t)
        } else {
            ended(ts)
        }),
{
    reveal(Seq::filter);
    assert(ts.push(t).drop_last() =~= ts);
    assert(in_state(Seq::empty(), st) =~= Seq::<ToolLine>::empty());
    assert(ended(Seq::empty()) =~= Seq::<ToolLine>::empty());
}

/// A call is shown by its state's icon and its title, with an ellipsis while it runs.
pub proof fn law_call_line(id: Seq<char>, title: Seq<char>)
    ensures
        tool_text(ToolLine { id, title, state: ToolState::Running }) == "🔧 `"@ + title + "`..."@,
        tool_text(ToolLine { id, title, state: ToolState::Completed }) == "✅ `"@ + title + "`"@,
        tool_text(ToolLine { id, title, state: ToolState::Failed }) == "❌ `"@ + title + "`"@,
{
}

/// The full form of a finished turn shows every call on a line of its own, in order.
pub proof fn law_full_shows_every_call(ts: Seq<ToolLine>, t: ToolLine, text: Seq<char>)
    ensures
        ts.len() > 0 ==> ({
            let before = display(ts, Seq::empty(), false, ToolDisplay::Full).drop_last();
            display(ts.push(t), text, false, ToolDisplay::Full) == before + tool_text(t) + "\n\n"@
                + trim_end(text)
        }),
        display(seq![t], text, false, ToolDisplay::Full) == tool_text(t) + "\n\n"@ + trim_end(text),
{
    reveal_strlit("\n");
    reveal_strlit("\n\n");
    assert(trim_end(Seq::<char>::empty()) =~= Seq::<char>::empty());
    assert(ts.push(t).drop_last() =~= ts);
    assert(seq![t].drop_last() =~= Seq::<ToolLine>::empty());
    assert(tool_block(Seq::<ToolLine>::empty()) =~= Seq::<char>::empty());
    assert(display(seq![t], text, false, ToolDisplay::Full) =~= tool_text(t) + "\n\n"@ + trim_end(
        text,
    ));
    if ts.len() > 0 {
        lemma_block_end(ts);
        let before = display(ts, Seq::empty(), false, ToolDisplay::Full).drop_last();
        assert(before =~= tool_block(ts));
        assert(display(ts.push(t), text, false, ToolDisplay::Full) =~= before + tool_text(t)
            + "\n\n"@ + trim_end(text));
    }
}

/// The line of a finished call and of a running call in the full form are the same
/// wherever they stand: the lines of several calls are those of each, one after the other.
pub proof fn law_call_lines_add_up(a: Seq<ToolLine>, b: Seq<ToolLine>, t: ToolLine)
    ensures
        tool_block(Seq::empty()) == Seq::<char>::empty(),
        tool_block(seq![t]) == tool_text(t) + "\n"@,
        tool_block(a + b) == tool_block(a) + tool_block(b),
    decreases b.len(),
{
    assert(seq![t].drop_last() =~= Seq::<ToolLine>::empty());
    assert(tool_block(seq![t].drop_last()) =~= Seq::<char>::empty());
    assert(tool_block(seq![t]) =~= tool_text(t) + "\n"@);
    if b.len() == 0 {
        assert(a + b =~= a);
        assert(tool_block(a) + tool_block(b) =~= tool_block(a));
    } else {
        assert((a + b).drop_last() =~= a + b.drop_last());
        law_call_lines_add_up(a, b.drop_last(), t);
        assert(tool_block(a + b) =~= tool_block(a) + tool_block(b));
    }
}

/// While a turn streams, the full form shows up to three finished calls and up to three
/// running ones by line; of more finished calls it shows the counts, of more running ones
/// how many are left out and the latest three.
pub proof fn law_streaming_collapses_long_lists(ts: Seq<ToolLine>, text: Seq<char>)
    requires
        ts.len() > 0,
    ensures
        ({
            let done = in_state(ts, ToolState::Completed).len();
            let failed = in_state(ts, ToolState::Failed).len();
            let running = in_state(ts, ToolState::Running);
            let shown = display(ts, text, true, ToolDisplay::Full);
            let head = if done + failed <= 3 {
                tool_block(ended(ts))
            } else if failed == 0 {
                "✅ "@ + decimal(done) + " tool(s) completed\n"@
            } else if done == 0 {
                "❌ "@ + decimal(failed) + " tool(s) completed\n"@
            } else {
                "✅ "@ + decimal(done) + " · "@ + ("❌ "@ + decimal(failed))
                    + " tool(s) completed\n"@
            };
            &&& running.len() <= 3 ==> shown == head + tool_block(running) + "\n"@ + trim_end(text)
            &&& running.len() > 3 ==> shown == head + ("🔧 "@ + decimal((running.len() - 3) as nat)
                + " more running\n"@ + tool_block(
                running.subrange(running.len() - 3, running.len() as int),
            )) + "\n"@ + trim_end(text)
        }),
{
    lemma_summary_end(ts, true, ToolDisplay::Full);
    let done = in_state(ts, ToolState::Completed).len();
    let failed = in_state(ts, ToolState::Failed).len();
    let running = in_state(ts, ToolState::Running);
    lemma_count_parts(done, failed, 0);
    if running.len() > 3 {
        assert(running.skip(running.len() - 3) =~= running.subrange(
            running.len() - 3,
            running.len() as int,
        ));
    }
}

proof fn lemma_count_parts(done: nat, failed: nat, running: nat)
    ensures
        ({
            let a = "✅ "@ + decimal(done);
            let b = "❌ "@ + decimal(failed);
            let c = "🔧 "@ + decimal(running);
            let dot = " · "@;
            join(count_parts(done, failed, running), dot) == (if done > 0 && failed > 0 && running
                > 0 {
                a + dot + b + dot + c
            } else if done > 0 && failed > 0 {
                a + dot + b
            } else if done > 0 && running > 0 {
                a + dot + c
            } else if failed > 0 && running > 0 {
                b + dot + c
            } else if done > 0 {
                a
            } else if failed > 0 {
                b
            } else if running > 0 {
                c
            } else {
                Seq::empty()
            })
        }),
{
    let a = "✅ "@ + decimal(done);
    let b = "❌ "@ + decimal(failed);
    let c = "🔧 "@ + decimal(running);
    let dot = " · "@;
    let parts = count_parts(done, failed, running);
    if done > 0 && failed > 0 && running > 0 {
        assert(parts =~= seq![a, b, c]);
        assert(parts.drop_last() =~= seq![a, b]);
        assert(seq![a, b].drop_last() =~= seq![a]);
        assert(join(seq![a], dot) == a);
        assert(join(seq![a, b], dot) == a + dot + b);
    } else if done > 0 && failed > 0 {
        assert(parts =~= seq![a, b]);
        assert(parts.drop_last() =~= seq![a]);
        assert(join(seq![a], dot) == a);
    } else if done > 0 && running > 0 {
        assert(parts =~= seq![a, c]);
        assert(parts.drop_last() =~= seq![a]);
        assert(join(seq![a], dot) == a);
    } else if failed > 0 && running > 0 {
        assert(parts =~= seq![b, c]);
        assert(parts.drop_last() =~= seq![b]);
        assert(join(seq![b], dot) == b);
    } else if done > 0 {
        assert(parts =~= seq![a]);
    } else if failed > 0 {
        assert(parts =~= seq![b]);
    } else if running > 0 {
        assert(parts =~= seq![c]);
    } else {
        assert(parts =~= Seq::<Seq<char>>::empty());
    }
}

/// The compact form is one line with the counts of completed, failed and running calls
/// that are not zero, in this order, then a blank line and the text.
pub proof fn law_compact_line(ts: Seq<ToolLine>, text: Seq<char>, streaming: bool)
    requires
        ts.len() > 0,
    ensures
        ({
            let done = in_state(ts, ToolState::Completed).len();
            let failed = in_state(ts, ToolState::Failed).len();
            let running = in_state(ts, ToolState::Running).len();
            let a = "✅ "@ + decimal(done);
            let b = "❌ "@ + decimal(failed);
            let c = "🔧 "@ + decimal(running);
            let dot = " · "@;
            let counts = if done > 0 && failed > 0 && running > 0 {
                a + dot + b + dot + c
            } else if done > 0 && failed > 0 {
                a + dot + b
            } else if done > 0 && running > 0 {
                a + dot + c
            } else if failed > 0 && running > 0 {
                b + dot + c
            } else if done > 0 {
                a
            } else if failed > 0 {
                b
            } else {
                c
            };
            display(ts, text, streaming, ToolDisplay::Compact) == counts + " tool(s)\n"@ + "\n"@
                + trim_end(text)
        }),
{
    lemma_states(ts);
    lemma_summary_end(ts, streaming, ToolDisplay::Compact);
    lemma_count_parts(
        in_state(ts, ToolState::Completed).len(),
        in_state(ts, ToolState::Failed).len(),
        in_state(ts, ToolState::Running).len(),
    );
}

} // verus!
