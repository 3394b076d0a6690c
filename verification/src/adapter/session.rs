//! Session directives in user prompts, and the packing of prompts for agents.

use vstd::prelude::*;

use crate::acp::{blocks, Block, ContentBlock};
use crate::config::{Workspace, WorkspaceRequest};
use crate::text::{
    chars_of, cut_once, extend, find, index_of, is_text, join, joined, opt_text, skip, split,
    split_all, split_once, split_words, string_of, take, texts, trim, trimmed, words,
};

verus! {

/// What a user asks of the session before its first prompt.
#[derive(Debug, PartialEq, Eq)]
pub struct SessionDirectives {
    pub workspace: Option<WorkspaceRequest>,
    pub title: Option<String>,
}

/// What session directives say.
pub struct Session {
    pub workspace: Option<Workspace>,
    pub title: Option<Seq<char>>,
}

impl View for SessionDirectives {
    type V = Session;

    open spec fn view(&self) -> Session {
        Session {
            workspace: match self.workspace {
                Some(w) => Some(w@),
                None => None,
            },
            title: opt_text(self.title),
        }
    }
}

impl Default for SessionDirectives {
    fn default() -> (d: Self)
        ensures
            d@ == (Session { workspace: None, title: None }),
    {
        SessionDirectives { workspace: None, title: None }
    }
}

impl Clone for SessionDirectives {
    fn clone(&self) -> (r: Self)
        ensures
            r@ == self@,
    {
        SessionDirectives {
            workspace: match &self.workspace {
                Some(w) => Some(w.clone()),
                None => None,
            },
            title: crate::text::copy_opt(&self.title),
        }
    }
}

impl SessionDirectives {
    /// Whether anything is asked for.
    pub fn has_any(&self) -> (r: bool)
        ensures
            r == (self@.workspace is Some || self@.title is Some),
    {
        self.workspace.is_some() || self.title.is_some()
    }
}

/// Why a prompt's session directives are refused.
#[derive(Debug, PartialEq, Eq)]
pub enum SessionDirectiveError {
    /// An opening `[[` has no closing `]]`.
    Unterminated,
    /// There is no colon between the brackets.
    Malformed(String),
    /// A workspace directive names no workspace.
    EmptyWorkspace,
    /// A workspace directive carries a flag other than `--create`.
    UnknownFlag(String),
    /// A title directive has no text.
    EmptyTitle,
    /// There is nothing before the colon.
    EmptyKey,
    /// The key is none of those supported.
    UnknownKey(String),
}

/// What such an error says.
pub enum Refusal {
    Unterminated,
    Malformed(Seq<char>),
    EmptyWorkspace,
    UnknownFlag(Seq<char>),
    EmptyTitle,
    EmptyKey,
    UnknownKey(Seq<char>),
}

impl View for SessionDirectiveError {
    type V = Refusal;

    open spec fn view(&self) -> Refusal {
        match self {
            SessionDirectiveError::Unterminated => Refusal::Unterminated,
            SessionDirectiveError::Malformed(s) => Refusal::Malformed(s@),
            SessionDirectiveError::EmptyWorkspace => Refusal::EmptyWorkspace,
            SessionDirectiveError::UnknownFlag(s) => Refusal::UnknownFlag(s@),
            SessionDirectiveError::EmptyTitle => Refusal::EmptyTitle,
            SessionDirectiveError::EmptyKey => Refusal::EmptyKey,
            SessionDirectiveError::UnknownKey(s) => Refusal::UnknownKey(s@),
        }
    }
}

/// The text shown for a refusal.
pub open spec fn refusal_text(e: Refusal) -> Seq<char> {
    match e {
        Refusal::Unterminated => "unterminated session directive"@,
        Refusal::Malformed(s) => "malformed session directive: [["@ + s + "]]"@,
        Refusal::EmptyWorkspace => "empty workspace directive"@,
        Refusal::UnknownFlag(s) => "unknown workspace flag: "@ + s,
        Refusal::EmptyTitle => "empty title directive"@,
        Refusal::EmptyKey => "empty session directive key"@,
        Refusal::UnknownKey(s) => "unknown session directive: "@ + s,
    }
}

impl SessionDirectiveError {
    /// The text shown to the user.
    pub fn message(&self) -> (out: String)
        ensures
            out@ == refusal_text(self@),
    {
        let mut out = String::new();
        match self {
            SessionDirectiveError::Unterminated => out.append("unterminated session directive"),
            SessionDirectiveError::Malformed(s) => {
                out.append("malformed session directive: [[");
                out.append(s.as_str());
                out.append("]]");
            },
            SessionDirectiveError::EmptyWorkspace => out.append("empty workspace directive"),
            SessionDirectiveError::UnknownFlag(s) => {
                out.append("unknown workspace flag: ");
                out.append(s.as_str());
            },
            SessionDirectiveError::EmptyTitle => out.append("empty title directive"),
            SessionDirectiveError::EmptyKey => out.append("empty session directive key"),
            SessionDirectiveError::UnknownKey(s) => {
                out.append("unknown session directive: ");
                out.append(s.as_str());
            },
        }
        assert(out@ =~= refusal_text(self@));
        out
    }
}

/// The first word that is not the creation flag, not before `i`.
pub open spec fn bad_flag(ws: Seq<Seq<char>>, i: int) -> Option<Seq<char>>
    decreases ws.len() - i,
{
    if i >= ws.len() || i < 0 {
        None
    } else if ws[i] != "--create"@ {
        Some(ws[i])
    } else {
        bad_flag(ws, i + 1)
    }
}

/// The workspace that a directive's value asks for.
pub open spec fn workspace_value(value: Seq<char>) -> Result<Workspace, Refusal> {
    let ws = words(value);
    if ws.len() == 0 {
        Err(Refusal::EmptyWorkspace)
    } else {
        match bad_flag(ws, 1) {
            Some(flag) => Err(Refusal::UnknownFlag(flag)),
            None => Ok(Workspace { name: ws[0], create: ws.len() > 1 }),
        }
    }
}

/// `d` after a directive with the text `inner` between its brackets.
pub open spec fn session_directive(inner: Seq<char>, d: Session) -> Result<Session, Refusal> {
    match split_once(inner, ':') {
        None => Err(Refusal::Malformed(inner)),
        Some((raw_key, raw_value)) => {
            let key = trim(raw_key);
            let value = trim(raw_value);
            if key == "ws"@ {
                match workspace_value(value) {
                    Ok(w) => Ok(Session { workspace: Some(w), ..d }),
                    Err(e) => Err(e),
                }
            } else if key == "title"@ {
                if value.len() == 0 {
                    Err(Refusal::EmptyTitle)
                } else {
                    Ok(Session { title: Some(value), ..d })
                }
            } else if key.len() == 0 {
                Err(Refusal::EmptyKey)
            } else {
                Err(Refusal::UnknownKey(key))
            }
        },
    }
}

/// Reads and removes the directives of `rest`, on top of `d`; `kept` is the text
/// outside directives so far.
pub open spec fn strip_session(kept: Seq<char>, rest: Seq<char>, d: Session) -> Result<
    (Session, Seq<char>),
    Refusal,
>
    decreases rest.len(),
    via strip_session_decreases
{
    match find(rest, "[["@) {
        None => Ok((d, kept + rest)),
        Some(open) => {
            let after = rest.skip(open + 2);
            match find(after, "]]"@) {
                None => Err(Refusal::Unterminated),
                Some(close) => match session_directive(trim(after.take(close)), d) {
                    Ok(d2) => strip_session(kept + rest.take(open), after.skip(close + 2), d2),
                    Err(e) => Err(e),
                },
            }
        },
    }
}

#[via_fn]
proof fn strip_session_decreases(kept: Seq<char>, rest: Seq<char>, d: Session) {
    reveal_strlit("[[");
    reveal_strlit("]]");
    crate::text::lemma_find_from(rest, "[["@, 0);
    if let Some(open) = find(rest, "[["@) {
        crate::text::lemma_find_from(rest.skip(open + 2), "]]"@, 0);
    }
}

/// `lines` without the empty ones at its start.
pub open spec fn drop_empty_front(lines: Seq<Seq<char>>) -> Seq<Seq<char>>
    decreases lines.len(),
{
    if lines.len() > 0 && lines[0].len() == 0 {
        drop_empty_front(lines.skip(1))
    } else {
        lines
    }
}

/// `lines` without the empty ones at its end.
pub open spec fn drop_empty_back(lines: Seq<Seq<char>>) -> Seq<Seq<char>>
    decreases lines.len(),
{
    if lines.len() > 0 && lines.last().len() == 0 {
        drop_empty_back(lines.drop_last())
    } else {
        lines
    }
}

/// The prompt with each line trimmed and without blank lines at either end.
pub open spec fn clean_prompt(s: Seq<char>) -> Seq<char> {
    join(
        drop_empty_back(drop_empty_front(split(s, '\n').map_values(|l: Seq<char>| trim(l)))),
        "\n"@,
    )
}

/// The session directives of a prompt, and the prompt without them. A prompt that has
/// none stays as it is; where one was removed, what is left is tidied.
pub open spec fn session_directives(s: Seq<char>) -> Result<(Session, Seq<char>), Refusal> {
    if find(s, "[["@) is None {
        Ok((Session { workspace: None, title: None }, s))
    } else {
        match strip_session(Seq::empty(), s, Session { workspace: None, title: None }) {
            Ok((d, kept)) => Ok((d, clean_prompt(kept))),
            Err(e) => Err(e),
        }
    }
}

/// The workspace that a directive's value asks for.
pub(crate) fn parse_workspace_directive(value: &[char]) -> (r: Result<
    WorkspaceRequest,
    SessionDirectiveError,
>)
    ensures
        match r {
            Ok(w) => workspace_value(value@) == Ok::<Workspace, Refusal>(w@),
            Err(e) => workspace_value(value@) == Err::<Workspace, Refusal>(e@),
        },
{
    let ws = split_words(value);
    let ghost t = texts(ws@);
    if ws.len() == 0 {
        return Err(SessionDirectiveError::EmptyWorkspace);
    }
    let mut i: usize = 1;
    while i < ws.len()
        invariant
            1 <= i <= ws@.len(),
            t == texts(ws@),
            t == words(value@),
            bad_flag(t, 1) == bad_flag(t, i as int),
        decreases ws@.len() - i,
    {
        let flag = chars_of(ws[i].as_str());
        assert(t[i as int] == ws@[i as int]@);
        if !is_text(flag.as_slice(), "--create") {
            return Err(SessionDirectiveError::UnknownFlag(ws[i].clone()));
        }
        i += 1;
    }
    assert(t[0] == ws@[0]@);
    let name = ws[0].clone();
    if ws.len() > 1 {
        Ok(WorkspaceRequest::Create(name))
    } else {
        Ok(WorkspaceRequest::Existing(name))
    }
}

/// Applies one directive.
fn apply_session_directive(inner: &[char], d: &mut SessionDirectives) -> (r: Result<
    (),
    SessionDirectiveError,
>)
    ensures
        match r {
            Ok(()) => session_directive(inner@, old(d)@) == Ok::<Session, Refusal>(final(d)@),
            Err(e) => session_directive(inner@, old(d)@) == Err::<Session, Refusal>(e@),
        },
{
    proof {
        reveal_strlit("ws");
        reveal_strlit("title");
        assert("ws"@.len() == 2 && "title"@.len() == 5);
    }
    match cut_once(inner, ':') {
        None => Err(SessionDirectiveError::Malformed(string_of(inner))),
        Some((raw_key, raw_value)) => {
            let key = trimmed(raw_key);
            let value = trimmed(raw_value);
            if is_text(key, "ws") {
                match parse_workspace_directive(value) {
                    Ok(w) => {
                        d.workspace = Some(w);
                        Ok(())
                    },
                    Err(e) => Err(e),
                }
            } else if is_text(key, "title") {
                if value.len() == 0 {
                    return Err(SessionDirectiveError::EmptyTitle);
                }
                d.title = Some(string_of(value));
                Ok(())
            } else if key.len() == 0 {
                Err(SessionDirectiveError::EmptyKey)
            } else {
                Err(SessionDirectiveError::UnknownKey(string_of(key)))
            }
        },
    }
}

/// The prompt with each line trimmed and without blank lines at either end.
pub(crate) fn clean_stripped_prompt(prompt: &[char]) -> (out: String)
    ensures
        out@ == clean_prompt(prompt@),
{
    let raw = split_all(prompt, '\n');
    let ghost want = split(prompt@, '\n').map_values(|l: Seq<char>| trim(l));
    let mut lines: Vec<String> = Vec::new();
    let mut i: usize = 0;
    while i < raw.len()
        invariant
            i <= raw@.len(),
            texts(raw@) == split(prompt@, '\n'),
            want == split(prompt@, '\n').map_values(|l: Seq<char>| trim(l)),
            texts(lines@) == want.take(i as int),
        decreases raw@.len() - i,
    {
        let ghost before = lines@;
        let chars = chars_of(raw[i].as_str());
        assert(texts(raw@)[i as int] == raw@[i as int]@);
        lines.push(string_of(trimmed(chars.as_slice())));
        assert(texts(lines@) =~= texts(before).push(want[i as int]));
        assert(want.take(i + 1) =~= want.take(i as int).push(want[i as int]));
        i += 1;
    }
    assert(want.take(i as int) =~= want);
    let mut first: usize = 0;
    assert(want.skip(0) =~= want);
    while first < lines.len() && lines[first].as_str().unicode_len() == 0
        invariant
            first <= lines@.len(),
            texts(lines@) == want,
            drop_empty_front(want) == drop_empty_front(want.skip(first as int)),
        decreases lines@.len() - first,
    {
        assert(want.skip(first as int)[0] == lines@[first as int]@);
        assert(want.skip(first as int).skip(1) =~= want.skip(first + 1));
        first += 1;
    }
    let ghost front = want.skip(first as int);
    proof {
        if first < lines@.len() {
            assert(front[0] == lines@[first as int]@);
        }
        assert(drop_empty_front(want) == front);
    }
    let mut last: usize = lines.len();
    assert(front.take(last - first) =~= front);
    while last > first && lines[last - 1].as_str().unicode_len() == 0
        invariant
            first <= last <= lines@.len(),
            texts(lines@) == want,
            front == want.skip(first as int),
            drop_empty_back(front) == drop_empty_back(front.take(last - first)),
        decreases last,
    {
        assert(front.take(last - first).last() == lines@[last - 1]@);
        assert(front.take(last - first).drop_last() =~= front.take(last - 1 - first));
        last -= 1;
    }
    proof {
        if last > first {
            assert(front.take(last - first).last() == lines@[last - 1]@);
        }
    }
    let kept = vstd::slice::slice_subrange(lines.as_slice(), first, last);
    assert(texts(kept@) =~= front.take(last - first));
    joined(kept, "\n")
}

/// Reads and removes the session directives of a prompt.
pub(crate) fn parse_directives(prompt: &str) -> (r: Result<
    (SessionDirectives, String),
    SessionDirectiveError,
>)
    ensures
        match r {
            Ok((d, rest)) => session_directives(prompt@) == Ok::<(Session, Seq<char>), Refusal>(
                (d@, rest@),
            ),
            Err(e) => session_directives(prompt@) == Err::<(Session, Seq<char>), Refusal>(e@),
        },
{
    let chars = chars_of(prompt);
    let mut rest = chars.as_slice();
    let mut directives = SessionDirectives::default();
    let mut cleaned: Vec<char> = Vec::new();
    let mut removed = false;
    let ghost none = Session { workspace: None, title: None };
    proof {
        reveal_strlit("[[");
        reveal_strlit("]]");
    }
    loop
        invariant
            none == (Session { workspace: None, title: None }),
            strip_session(Seq::empty(), prompt@, none) == strip_session(
                cleaned@,
                rest@,
                directives@,
            ),
            removed ==> find(prompt@, "[["@) is Some,
            !removed ==> rest@ == prompt@ && directives@ == none,
            "[["@.len() == 2,
            "]]"@.len() == 2,
        decreases rest@.len(),
    {
        let Some(open) = index_of(rest, "[[") else {
            if !removed {
                return Ok((directives, prompt.to_string()));
            }
            extend(&mut cleaned, rest);
            let out = clean_stripped_prompt(cleaned.as_slice());
            return Ok((directives, out));
        };
        let after_open = skip(rest, open + 2);
        let Some(close) = index_of(after_open, "]]") else {
            return Err(SessionDirectiveError::Unterminated);
        };
        let inner = trimmed(take(after_open, close));
        match apply_session_directive(inner, &mut directives) {
            Ok(()) => {},
            Err(e) => {
                return Err(e);
            },
        }
        extend(&mut cleaned, take(rest, open));
        rest = skip(after_open, close + 2);
        removed = true;
    }
}

/// The text that opens one arrival: it names the sender and delimits arrivals.
pub open spec fn sender_header(sender_json: Seq<char>) -> Seq<char> {
    "<sender_context>\n"@ + sender_json + "\n</sender_context>"@
}

/// One arrival as it is handed to an agent: the sender, the extra text, the prompt
/// unless it is empty, and the rest.
pub open spec fn arrival(sender_json: Seq<char>, prompt: Seq<char>, extra: Seq<Block>) -> Seq<
    Block,
> {
    seq![Block::Text(sender_header(sender_json))] + extra.filter(|b: Block| b is Text) + (
    if prompt.len() > 0 {
        seq![Block::Text(prompt)]
    } else {
        Seq::empty()
    }) + extra.filter(|b: Block| !(b is Text))
}

/// Appends the text blocks of `extra` (`texts_wanted`), or the others.
fn push_selected(out: &mut Vec<ContentBlock>, extra: &[ContentBlock], texts_wanted: bool)
    ensures
        blocks(final(out)@) == blocks(old(out)@) + blocks(extra@).filter(
            |b: Block| (b is Text) == texts_wanted,
        ),
{
    let ghost pred = |b: Block| (b is Text) == texts_wanted;
    let mut i: usize = 0;
    proof {
        reveal(Seq::filter);
    }
    assert(blocks(out@) =~= blocks(old(out)@) + blocks(extra@).take(0).filter(pred));
    while i < extra.len()
        invariant
            i <= extra@.len(),
            pred == |b: Block| (b is Text) == texts_wanted,
            blocks(out@) == blocks(old(out)@) + blocks(extra@).take(i as int).filter(pred),
        decreases extra@.len() - i,
    {
        let ghost before = out@;
        let is_text_block = match &extra[i] {
            ContentBlock::Text { .. } => true,
            ContentBlock::Image { .. } => false,
        };
        if is_text_block == texts_wanted {
            out.push(extra[i].clone());
            assert(blocks(out@) =~= blocks(before).push(extra@[i as int]@));
        }
        proof {
            reveal(Seq::filter);
            let t = blocks(extra@).take(i + 1);
            assert(t.drop_last() =~= blocks(extra@).take(i as int));
            assert(t.last() == extra@[i as int]@);
            assert(blocks(out@) =~= blocks(old(out)@) + t.filter(pred));
        }
        i += 1;
    }
    assert(blocks(extra@).take(i as int) =~= blocks(extra@));
}

/// Packs one arrival event into content blocks.
pub(crate) fn pack_arrival(sender_json: &str, prompt: &str, extra: &[ContentBlock]) -> (out: Vec<
    ContentBlock,
>)
    ensures
        blocks(out@) == arrival(sender_json@, prompt@, blocks(extra@)),
{
    let mut header = String::new();
    header.append("<sender_context>\n");
    header.append(sender_json);
    header.append("\n</sender_context>");
    assert(header@ =~= sender_header(sender_json@));
    let mut out: Vec<ContentBlock> = Vec::new();
    out.push(ContentBlock::Text { text: header });
    assert(blocks(out@) =~= seq![Block::Text(sender_header(sender_json@))]);
    assert((|b: Block| (b is Text) == true) =~= (|b: Block| b is Text));
    assert((|b: Block| (b is Text) == false) =~= (|b: Block| !(b is Text)));
    push_selected(&mut out, extra, true);
    if prompt.unicode_len() > 0 {
        let ghost before = out@;
        out.push(ContentBlock::Text { text: prompt.to_string() });
        assert(blocks(out@) =~= blocks(before).push(Block::Text(prompt@)));
    }
    push_selected(&mut out, extra, false);
    assert(blocks(out@) =~= arrival(sender_json@, prompt@, blocks(extra@)));
    out
}

/// Nothing of an arrival is lost: it holds its header, all extra blocks and the
/// prompt.
pub proof fn law_arrival_keeps_everything(
    sender_json: Seq<char>,
    prompt: Seq<char>,
    extra: Seq<Block>,
)
    ensures
        arrival(sender_json, prompt, extra).len() == 1 + extra.len() + (if prompt.len() > 0 {
            1int
        } else {
            0
        }),
        arrival(sender_json, prompt, extra)[0] == Block::Text(sender_header(sender_json)),
        forall|i: int|
            0 <= i < extra.len() ==> arrival(sender_json, prompt, extra).contains(
                #[trigger] extra[i],
            ),
        prompt.len() > 0 ==> arrival(sender_json, prompt, extra).contains(Block::Text(prompt)),
{
    let a = arrival(sender_json, prompt, extra);
    let text = |b: Block| b is Text;
    let other = |b: Block| !(b is Text);
    lemma_partition_len(extra);
    let front = seq![Block::Text(sender_header(sender_json))] + extra.filter(text);
    if prompt.len() > 0 {
        assert(a[front.len() as int] == Block::Text(prompt));
    }
    assert forall|i: int| 0 <= i < extra.len() implies a.contains(#[trigger] extra[i]) by {
        if extra[i] is Text {
            extra.lemma_filter_contains(text, i);
            let k = choose|k: int|
                0 <= k < extra.filter(text).len() && extra.filter(text)[k] == extra[i];
            assert(a[1 + k] == extra[i]);
        } else {
            extra.lemma_filter_contains(other, i);
            let k = choose|k: int|
                0 <= k < extra.filter(other).len() && extra.filter(other)[k] == extra[i];
            assert(a[a.len() - extra.filter(other).len() + k] == extra[i]);
        }
    }
}

proof fn lemma_partition_len(extra: Seq<Block>)
    ensures
        extra.filter(|b: Block| b is Text).len() + extra.filter(|b: Block| !(b is Text)).len()
            == extra.len(),
    decreases extra.len(),
{
    reveal(Seq::filter);
    if extra.len() > 0 {
        lemma_partition_len(extra.drop_last());
    }
}

/// A prompt without an opening `[[` asks for nothing and is handed on verbatim.
pub proof fn law_prompt_without_directives(s: Seq<char>)
    requires
        find(s, "[["@) is None,
    ensures
        session_directives(s) == Ok::<(Session, Seq<char>), Refusal>(
            (Session { workspace: None, title: None }, s),
        ),
{
}

/// No two opening brackets next to each other.
spec fn no_open(s: Seq<char>) -> bool {
    forall|i: int| 0 <= i < s.len() - 1 ==> !(#[trigger] s[i] == '[' && s[i + 1] == '[')
}

proof fn lemma_no_open(s: Seq<char>)
    ensures
        find(s, "[["@) is None <==> no_open(s),
{
    reveal_strlit("[[");
    crate::text::lemma_find_from(s, "[["@, 0);
    if find(s, "[["@) is None {
        assert forall|i: int| 0 <= i < s.len() - 1 implies !(#[trigger] s[i] == '[' && s[i + 1]
            == '[') by {
            if s[i] == '[' && s[i + 1] == '[' {
                assert(s.subrange(i, i + 2) =~= "[["@);
                assert(crate::text::occurs_at(s, "[["@, i));
            }
        }
    } else {
        let k = find(s, "[["@)->0;
        assert(s.subrange(k, k + 2)[0] == '[' && s.subrange(k, k + 2)[1] == '[');
        assert(s[k] == '[' && s[k + 1] == '[');
    }
}

proof fn lemma_strip_session_clean(kept: Seq<char>, rest: Seq<char>, d: Session)
    requires
        no_open(kept),
        kept.len() > 0 ==> kept.last() != '[',
        strip_session(kept, rest, d) is Ok,
    ensures
        no_open((strip_session(kept, rest, d)->Ok_0).1),
    decreases rest.len(),
{
    reveal_strlit("[[");
    reveal_strlit("]]");
    crate::text::lemma_find_from(rest, "[["@, 0);
    match find(rest, "[["@) {
        None => {
            lemma_no_open(rest);
        },
        Some(open) => {
            let after = rest.skip(open + 2);
            crate::text::lemma_find_from(after, "]]"@, 0);
            assert forall|j: int| 0 <= j < open implies !(#[trigger] rest[j] == '[' && rest[j + 1]
                == '[') by {
                if rest[j] == '[' && rest[j + 1] == '[' {
                    assert(rest.subrange(j, j + 2) =~= "[["@);
                    assert(crate::text::occurs_at(rest, "[["@, j));
                }
            }
            assert(rest.subrange(open, open + 2)[0] == '[');
            assert(rest[open] == '[');
            let close = find(after, "]]"@)->0;
            let d2 = session_directive(trim(after.take(close)), d)->Ok_0;
            lemma_strip_session_clean(kept + rest.take(open), after.skip(close + 2), d2);
        },
    }
}

proof fn lemma_trim_no_open(s: Seq<char>)
    requires
        no_open(s),
    ensures
        no_open(trim(s)),
{
    lemma_trim_start_no_open(s);
    lemma_trim_end_no_open(crate::text::trim_start(s));
}

proof fn lemma_trim_start_no_open(s: Seq<char>)
    requires
        no_open(s),
    ensures
        no_open(crate::text::trim_start(s)),
    decreases s.len(),
{
    if s.len() > 0 && crate::text::is_white(s[0]) {
        assert forall|i: int| 0 <= i < s.skip(1).len() - 1 implies !(#[trigger] s.skip(1)[i] == '['
            && s.skip(1)[i + 1] == '[') by {
            assert(s[i + 1] == s.skip(1)[i]);
        }
        lemma_trim_start_no_open(s.skip(1));
    }
}

proof fn lemma_trim_end_no_open(s: Seq<char>)
    requires
        no_open(s),
    ensures
        no_open(crate::text::trim_end(s)),
    decreases s.len(),
{
    if s.len() > 0 && crate::text::is_white(s.last()) {
        lemma_trim_end_no_open(s.drop_last());
    }
}

/// Each of the texts is without two opening brackets next to each other.
spec fn all_no_open(v: Seq<Seq<char>>) -> bool {
    forall|i: int| 0 <= i < v.len() ==> no_open(#[trigger] v[i])
}

proof fn lemma_split_no_open(s: Seq<char>)
    requires
        no_open(s),
    ensures
        all_no_open(split(s, '\n')),
    decreases s.len(),
{
    crate::text::lemma_find_char_from(s, '\n', 0);
    if let Some(i) = crate::text::find_char_from(s, '\n', 0) {
        let tail = s.skip(i + 1);
        assert forall|j: int| 0 <= j < tail.len() - 1 implies !(#[trigger] tail[j] == '['
            && tail[j + 1] == '[') by {
            assert(s[i + 1 + j] == tail[j]);
        }
        lemma_split_no_open(tail);
    }
}

proof fn lemma_drop_no_open(v: Seq<Seq<char>>)
    requires
        all_no_open(v),
    ensures
        all_no_open(drop_empty_back(drop_empty_front(v))),
{
    lemma_drop_front_no_open(v);
    lemma_drop_back_no_open(drop_empty_front(v));
}

proof fn lemma_drop_front_no_open(v: Seq<Seq<char>>)
    requires
        all_no_open(v),
    ensures
        all_no_open(drop_empty_front(v)),
    decreases v.len(),
{
    if v.len() > 0 && v[0].len() == 0 {
        lemma_drop_front_no_open(v.skip(1));
    }
}

proof fn lemma_drop_back_no_open(v: Seq<Seq<char>>)
    requires
        all_no_open(v),
    ensures
        all_no_open(drop_empty_back(v)),
    decreases v.len(),
{
    if v.len() > 0 && v.last().len() == 0 {
        lemma_drop_back_no_open(v.drop_last());
    }
}

proof fn lemma_join_no_open(v: Seq<Seq<char>>)
    requires
        all_no_open(v),
    ensures
        no_open(join(v, "\n"@)),
    decreases v.len(),
{
    reveal_strlit("\n");
    if v.len() > 1 {
        lemma_join_no_open(v.drop_last());
        let a = join(v.drop_last(), "\n"@);
        let b = v.last();
        assert(no_open(b));
        let s = a + "\n"@ + b;
        assert forall|i: int| 0 <= i < s.len() - 1 implies !(#[trigger] s[i] == '[' && s[i + 1]
            == '[') by {
            if i < a.len() - 1 {
                assert(a[i] == s[i]);
            } else if i > a.len() {
                assert(b[i - a.len() - 1] == s[i]);
            }
        }
    }
}

/// Directives never reach the agent: what is left of an accepted prompt opens none.
pub proof fn law_directives_stripped(s: Seq<char>)
    requires
        session_directives(s) is Ok,
    ensures
        find((session_directives(s)->Ok_0).1, "[["@) is None,
{
    if find(s, "[["@) is Some {
        let none = Session { workspace: None, title: None };
        lemma_strip_session_clean(Seq::empty(), s, none);
        let kept = (strip_session(Seq::empty(), s, none)->Ok_0).1;
        lemma_split_no_open(kept);
        let lines = split(kept, '\n').map_values(|l: Seq<char>| trim(l));
        assert forall|i: int| 0 <= i < lines.len() implies no_open(#[trigger] lines[i]) by {
            assert(no_open(split(kept, '\n')[i]));
            lemma_trim_no_open(split(kept, '\n')[i]);
        }
        lemma_drop_no_open(lines);
        lemma_join_no_open(drop_empty_back(drop_empty_front(lines)));
        lemma_no_open(clean_prompt(kept));
    }
}

/// A directive is read and removed wherever it stands in a prompt, and what follows it
/// is read on top of it; one that is refused refuses the prompt.
pub proof fn law_directive_is_read_anywhere(
    kept: Seq<char>,
    before: Seq<char>,
    inner: Seq<char>,
    after: Seq<char>,
    d: Session,
)
    requires
        find(before, "[["@) is None,
        before.len() > 0 ==> before.last() != '[',
        find(inner, "]]"@) is None,
        inner.len() > 0 ==> inner.last() != ']',
    ensures
        strip_session(kept, before + "[["@ + inner + "]]"@ + after, d) == (match session_directive(
            trim(inner),
            d,
        ) {
            Ok(d2) => strip_session(kept + before, after, d2),
            Err(e) => Err(e),
        }),
{
    reveal_strlit("[[");
    reveal_strlit("]]");
    let s = before + "[["@ + inner + "]]"@ + after;
    let n = before.len() as int;
    let tail = s.skip(n + 2);
    let k = inner.len() as int;
    lemma_no_open(before);
    assert forall|j: int| 0 <= j < n implies !crate::text::occurs_at(s, "[["@, j) by {
        if crate::text::occurs_at(s, "[["@, j) {
            assert(s.subrange(j, j + 2)[0] == '[' && s.subrange(j, j + 2)[1] == '[');
            assert(s[j] == '[' && s[j + 1] == '[');
            assert(s[j] == before[j]);
            if j + 1 < n {
                assert(before[j] == '[' && before[j + 1] == '[');
            }
        }
    }
    assert(s.subrange(n, n + 2) =~= "[["@);
    assert(crate::text::occurs_at(s, "[["@, n));
    crate::text::lemma_find_skip(s, "[["@, 0, n);
    assert(find(s, "[["@) == Some(n));
    assert(tail =~= inner + "]]"@ + after);
    crate::text::lemma_find_from(inner, "]]"@, 0);
    assert forall|j: int| 0 <= j < k implies !crate::text::occurs_at(tail, "]]"@, j) by {
        if crate::text::occurs_at(tail, "]]"@, j) {
            assert(tail.subrange(j, j + 2)[0] == ']' && tail.subrange(j, j + 2)[1] == ']');
            assert(tail[j] == ']' && tail[j + 1] == ']');
            if j + 1 < k {
                assert(inner.subrange(j, j + 2) =~= "]]"@);
                assert(crate::text::occurs_at(inner, "]]"@, j));
            } else {
                assert(inner.last() == tail[j]);
            }
        }
    }
    assert(tail.subrange(k, k + 2) =~= "]]"@);
    assert(crate::text::occurs_at(tail, "]]"@, k));
    crate::text::lemma_find_skip(tail, "]]"@, 0, k);
    assert(find(tail, "]]"@) == Some(k));
    assert(tail.take(k) =~= inner);
    assert(tail.skip(k + 2) =~= after);
    assert(s.take(n) =~= before);
}

/// Of two accepted directives with the same key the last one counts, and neither
/// key touches what the other asked for.
pub proof fn law_last_directive_wins(inner: Seq<char>, d: Session)
    requires
        session_directive(inner, d) is Ok,
    ensures
        ({
            let (key, value) = split_once(inner, ':')->0;
            let after = session_directive(inner, d)->Ok_0;
            &&& trim(key) == "title"@ ==> after == Session { title: Some(trim(value)), ..d }
            &&& trim(key) == "ws"@ ==> after == Session {
                workspace: Some(workspace_value(trim(value))->Ok_0),
                ..d
            }
            &&& trim(key) == "title"@ || trim(key) == "ws"@
        }),
{
    reveal_strlit("ws");
    reveal_strlit("title");
    assert("ws"@.len() == 2 && "title"@.len() == 5);
}

/// A workspace directive names the workspace first; the flag that creates it may follow,
/// and nothing else may.
pub proof fn law_workspace_directive(value: Seq<char>, i: int)
    ensures
        ({
            let ws = words(value);
            let r = workspace_value(value);
            &&& ws.len() == 0 ==> r == Err::<Workspace, Refusal>(Refusal::EmptyWorkspace)
            &&& ws.len() == 1 ==> r == Ok::<Workspace, Refusal>(
                Workspace { name: ws[0], create: false },
            )
            &&& ws.len() > 1 && (forall|j: int| 1 <= j < ws.len() ==> #[trigger] ws[j]
                == "--create"@) ==> r == Ok::<Workspace, Refusal>(
                Workspace { name: ws[0], create: true },
            )
            &&& 1 <= i < ws.len() && ws[i] != "--create"@ && (forall|j: int|
                1 <= j < i ==> #[trigger] ws[j] == "--create"@) ==> r == Err::<Workspace, Refusal>(
                Refusal::UnknownFlag(ws[i]),
            )
        }),
{
    let ws = words(value);
    if ws.len() > 0 {
        lemma_bad_flag(ws, 1, i);
    }
}

proof fn lemma_bad_flag(ws: Seq<Seq<char>>, k: int, i: int)
    requires
        1 <= k <= ws.len(),
    ensures
        (forall|j: int| k <= j < ws.len() ==> #[trigger] ws[j] == "--create"@) ==> bad_flag(ws, k)
            is None,
        k <= i < ws.len() && ws[i] != "--create"@ && (forall|j: int|
            k <= j < i ==> #[trigger] ws[j] == "--create"@) ==> bad_flag(ws, k) == Some(ws[i]),
    decreases ws.len() - k,
{
    if k < ws.len() {
        lemma_bad_flag(ws, k + 1, i);
        assert(ws[k] == ws[k]);
    }
}

/// What one directive does: a workspace or a title is taken, in place of an earlier one;
/// an empty title, an empty or unknown key and text without a colon are refused.
pub proof fn law_session_directive(key: Seq<char>, value: Seq<char>, d: Session)
    requires
        !key.contains(':'),
    ensures
        ({
            let r = session_directive(key.push(':') + value, d);
            let k = trim(key);
            let v = trim(value);
            &&& k == "title"@ && v.len() > 0 ==> r == Ok::<Session, Refusal>(
                Session { workspace: d.workspace, title: Some(v) },
            )
            &&& k == "title"@ && v.len() == 0 ==> r == Err::<Session, Refusal>(Refusal::EmptyTitle)
            &&& k == "ws"@ && workspace_value(v) is Ok ==> r == Ok::<Session, Refusal>(
                Session { workspace: Some(workspace_value(v)->Ok_0), title: d.title },
            )
            &&& k == "ws"@ && workspace_value(v) is Err ==> r == Err::<Session, Refusal>(
                workspace_value(v)->Err_0,
            )
            &&& k.len() == 0 ==> r == Err::<Session, Refusal>(Refusal::EmptyKey)
            &&& k.len() > 0 && k != "ws"@ && k != "title"@ ==> r == Err::<Session, Refusal>(
                Refusal::UnknownKey(k),
            )
        }),
        !value.contains(':') ==> session_directive(value, d) == Err::<Session, Refusal>(
            Refusal::Malformed(value),
        ),
{
    reveal_strlit("ws");
    reveal_strlit("title");
    assert("ws"@.len() == 2 && "title"@.len() == 5);
    let s = key.push(':') + value;
    let n = key.len() as int;
    crate::text::lemma_find_char_from(s, ':', 0);
    assert(s[n] == ':');
    assert forall|j: int| 0 <= j < n implies s[j] != ':' by {
        assert(s[j] == key[j]);
        assert(key.contains(key[j]));
    }
    assert(crate::text::find_char_from(s, ':', 0) == Some(n));
    assert(s.take(n) =~= key);
    assert(s.skip(n + 1) =~= value);
    crate::text::law_split_once(value, ':');
    if let Some((a, b)) = split_once(value, ':') {
        assert((a.push(':') + b)[a.len() as int] == ':');
    }
}

/// A prompt with brackets that are not closed is refused.
pub proof fn law_open_directive_is_refused(s: Seq<char>)
    requires
        find(s, "[["@) is Some,
        find(s.skip(find(s, "[["@)->0 + 2), "]]"@) is None,
    ensures
        session_directives(s) == Err::<(Session, Seq<char>), Refusal>(Refusal::Unterminated),
{
}

/// Where directives were removed the rest is tidied, line by line: each line loses the
/// white space at its ends, and blank lines before the first visible one and behind the
/// last are dropped; the other lines stay, in order.
pub proof fn law_prompt_is_tidied_by_line(lines: Seq<Seq<char>>, a: int, b: int)
    requires
        0 <= a < b <= lines.len(),
        forall|i: int| 0 <= i < lines.len() ==> !(#[trigger] lines[i]).contains('\n'),
        forall|i: int| 0 <= i < a || b <= i < lines.len() ==> trim(#[trigger] lines[i]).len() == 0,
        trim(lines[a]).len() > 0,
        trim(lines[b - 1]).len() > 0,
    ensures
        clean_prompt(join(lines, "\n"@)) == join(
            Seq::new((b - a) as nat, |i: int| trim(lines[a + i])),
            "\n"@,
        ),
{
    reveal_strlit("\n");
    assert("\n"@ =~= seq!['\n']);
    crate::text::law_join_then_split(lines, '\n');
    let want = lines.map_values(|l: Seq<char>| trim(l));
    assert forall|i: int| 0 <= i < lines.len() implies #[trigger] want[i] == trim(lines[i]) by {}
    lemma_drop_front(want, a);
    let front = want.skip(a);
    lemma_drop_back(front, b - a);
    assert(front.take(b - a) =~= Seq::new((b - a) as nat, |i: int| trim(lines[a + i])));
}

/// A text of nothing but white space is tidied to nothing.
pub proof fn law_blank_prompt_is_empty(lines: Seq<Seq<char>>)
    requires
        lines.len() > 0,
        forall|i: int| 0 <= i < lines.len() ==> !(#[trigger] lines[i]).contains('\n'),
        forall|i: int| 0 <= i < lines.len() ==> trim(#[trigger] lines[i]).len() == 0,
    ensures
        clean_prompt(join(lines, "\n"@)).len() == 0,
{
    reveal_strlit("\n");
    assert("\n"@ =~= seq!['\n']);
    crate::text::law_join_then_split(lines, '\n');
    let want = lines.map_values(|l: Seq<char>| trim(l));
    assert forall|i: int| 0 <= i < want.len() implies (#[trigger] want[i]).len() == 0 by {
        assert(trim(lines[i]).len() == 0);
    }
    lemma_drop_front_all(want);
}

proof fn lemma_drop_front_all(v: Seq<Seq<char>>)
    requires
        forall|i: int| 0 <= i < v.len() ==> (#[trigger] v[i]).len() == 0,
    ensures
        drop_empty_front(v).len() == 0,
    decreases v.len(),
{
    if v.len() > 0 {
        assert(v[0].len() == 0);
        assert forall|i: int| 0 <= i < v.skip(1).len() implies (#[trigger] v.skip(1)[i]).len()
            == 0 by {
            assert(v.skip(1)[i] == v[i + 1]);
        }
        lemma_drop_front_all(v.skip(1));
    }
}

proof fn lemma_drop_front(v: Seq<Seq<char>>, a: int)
    requires
        0 <= a < v.len(),
        forall|i: int| 0 <= i < a ==> (#[trigger] v[i]).len() == 0,
        v[a].len() > 0,
    ensures
        drop_empty_front(v) == v.skip(a),
    decreases a,
{
    if a > 0 {
        assert(v[0].len() == 0);
        let t = v.skip(1);
        assert forall|i: int| 0 <= i < a - 1 implies (#[trigger] t[i]).len() == 0 by {
            assert(t[i] == v[i + 1]);
        }
        lemma_drop_front(t, a - 1);
        assert(t.skip(a - 1) =~= v.skip(a));
    } else {
        assert(v.skip(0) =~= v);
    }
}

proof fn lemma_drop_back(v: Seq<Seq<char>>, n: int)
    requires
        0 < n <= v.len(),
        forall|i: int| n <= i < v.len() ==> (#[trigger] v[i]).len() == 0,
        v[n - 1].len() > 0,
    ensures
        drop_empty_back(v) == v.take(n),
    decreases v.len(),
{
    if n < v.len() {
        assert(v[v.len() - 1].len() == 0);
        let t = v.drop_last();
        assert forall|i: int| n <= i < t.len() implies (#[trigger] t[i]).len() == 0 by {
            assert(t[i] == v[i]);
        }
        lemma_drop_back(t, n);
        assert(t.take(n) =~= v.take(n));
    } else {
        assert(v.take(n) =~= v);
    }
}

/// The texts of `v` (`texts`), or its images, in order.
pub open spec fn only(v: Seq<Block>, texts: bool) -> Seq<Block>
    decreases v.len(),
{
    if v.len() == 0 {
        Seq::empty()
    } else if v.last() is Text == texts {
        only(v.drop_last(), texts).push(v.last())
    } else {
        only(v.drop_last(), texts)
    }
}

/// An arrival begins with its sender. The texts that came with it follow in their order,
/// then the prompt, if there is one, and then the images in theirs.
pub proof fn law_arrival_order(sender_json: Seq<char>, prompt: Seq<char>, extra: Seq<Block>)
    ensures
        arrival(sender_json, prompt, extra) == seq![
            Block::Text("<sender_context>\n"@ + sender_json + "\n</sender_context>"@),
        ] + only(extra, true) + (if prompt.len() > 0 {
            seq![Block::Text(prompt)]
        } else {
            Seq::empty()
        }) + only(extra, false),
{
    lemma_only(extra);
}

proof fn lemma_only(v: Seq<Block>)
    ensures
        only(v, true) == v.filter(|b: Block| b is Text),
        only(v, false) == v.filter(|b: Block| !(b is Text)),
    decreases v.len(),
{
    reveal(Seq::filter);
    if v.len() > 0 {
        lemma_only(v.drop_last());
    } else {
        assert(only(v, true) =~= v.filter(|b: Block| b is Text));
        assert(only(v, false) =~= v.filter(|b: Block| !(b is Text)));
    }
}

/// What is said of each refusal.
pub proof fn law_refusal_texts(s: Seq<char>)
    ensures
        refusal_text(Refusal::Unterminated) == "unterminated session directive"@,
        refusal_text(Refusal::Malformed(s)) == "malformed session directive: [["@ + s + "]]"@,
        refusal_text(Refusal::EmptyWorkspace) == "empty workspace directive"@,
        refusal_text(Refusal::UnknownFlag(s)) == "unknown workspace flag: "@ + s,
        refusal_text(Refusal::EmptyTitle) == "empty title directive"@,
        refusal_text(Refusal::EmptyKey) == "empty session directive key"@,
        refusal_text(Refusal::UnknownKey(s)) == "unknown session directive: "@ + s,
{
}

/// Text without an opening pair of brackets holds no directive and is kept as it is.
pub proof fn law_text_outside_directives_is_kept(kept: Seq<char>, rest: Seq<char>, d: Session)
    requires
        !crate::text::contains(rest, "[["@),
    ensures
        strip_session(kept, rest, d) == Ok::<(Session, Seq<char>), Refusal>((d, kept + rest)),
        session_directives(rest) == Ok::<(Session, Seq<char>), Refusal>(
            (Session { workspace: None, title: None }, rest),
        ),
{
}

/// A prompt with one directive is read as that directive, and what stands before and after
/// it is the prompt, tidied.
pub proof fn law_one_directive(before: Seq<char>, inner: Seq<char>, after: Seq<char>)
    requires
        !crate::text::contains(before, "[["@),
        before.len() > 0 ==> before.last() != '[',
        !crate::text::contains(inner, "]]"@),
        inner.len() > 0 ==> inner.last() != ']',
        !crate::text::contains(after, "[["@),
    ensures
        ({
            let r = session_directives(before + "[["@ + inner + "]]"@ + after);
            match session_directive(trim(inner), Session { workspace: None, title: None }) {
                Ok(d) => r == Ok::<(Session, Seq<char>), Refusal>(
                    (d, clean_prompt(before + after)),
                ),
                Err(e) => r == Err::<(Session, Seq<char>), Refusal>(e),
            }
        }),
{
    let none = Session { workspace: None, title: None };
    let s = before + "[["@ + inner + "]]"@ + after;
    law_directive_is_read_anywhere(Seq::empty(), before, inner, after, none);
    assert(Seq::<char>::empty() + before =~= before);
    assert(crate::text::contains(s, "[["@)) by {
        assert(s.subrange(before.len() as int, (before.len() + "[["@.len()) as int) =~= "[["@);
        crate::text::lemma_contains_at(s, "[["@, before.len() as int);
    }
    if let Ok(d) = session_directive(trim(inner), none) {
        law_text_outside_directives_is_kept(before, after, d);
    }
}

} // verus!
