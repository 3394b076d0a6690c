//! `[[key:value]]` directives in agent output.

use vstd::prelude::*;

use crate::text::{
    alnum, chars_of, cut_once, ends_with, extend, find, has_prefix, has_suffix, index_of,
    is_alnum, is_text, is_white, skip, split_once, starts_with, string_of, take, trim, trimmed,
};

verus! {

/// Parsed directives from agent output.
#[derive(Debug)]
pub struct OutputDirectives {
    /// Message ID to reply to (Discord: message_reference)
    pub reply_to: Option<String>,
    /// File paths requested for upload into the outbound platform message.
    pub attachments: Vec<String>,
}

/// What a set of output directives says.
pub struct Directives {
    pub reply_to: Option<Seq<char>>,
    pub attachments: Seq<Seq<char>>,
}

impl View for OutputDirectives {
    type V = Directives;

    open spec fn view(&self) -> Directives {
        Directives {
            reply_to: match self.reply_to {
                Some(v) => Some(v@),
                None => None,
            },
            attachments: self.attachments@.map_values(|s: String| s@),
        }
    }
}

/// No directive at all.
pub open spec fn no_directives() -> Directives {
    Directives { reply_to: None, attachments: Seq::empty() }
}

impl Default for OutputDirectives {
    fn default() -> (d: Self)
        ensures
            d@ == no_directives(),
    {
        let d = OutputDirectives { reply_to: None, attachments: Vec::new() };
        assert(d@.attachments =~= Seq::<Seq<char>>::empty());
        d
    }
}

/// Message ids: one to 64 ASCII letters, digits, dots, hyphens or underscores.
pub open spec fn valid_reply_to(v: Seq<char>) -> bool {
    0 < v.len() <= 64 && forall|i: int| 0 <= i < v.len() ==> reply_to_char(#[trigger] v[i])
}

/// Characters of a message id.
pub open spec fn reply_to_char(c: char) -> bool {
    is_alnum(c) || c == '.' || c == '-' || c == '_'
}

/// `d` after a header directive with the text `inner` between its brackets,
/// or nothing where that text has no colon.
pub open spec fn header_directive(inner: Seq<char>, d: Directives) -> Option<Directives> {
    match split_once(inner, ':') {
        None => None,
        Some((key, value)) => {
            let v = trim(value);
            if trim(key) == "reply_to"@ && valid_reply_to(v) {
                Some(Directives { reply_to: Some(v), ..d })
            } else if trim(key) == "attach"@ && v.len() > 0 {
                Some(Directives { attachments: d.attachments.push(v), ..d })
            } else {
                Some(d)
            }
        },
    }
}

/// `d` after a directive with the text `inner` in the middle of the output,
/// before the text `after`; nothing where the brackets are ordinary text.
pub open spec fn late_directive(inner: Seq<char>, after: Seq<char>, d: Directives) -> Option<
    Directives,
> {
    match split_once(inner, ':') {
        None => None,
        Some((key, value)) => {
            let v = trim(value);
            if trim(key) == "reply_to"@ && valid_reply_to(v) {
                Some(Directives { reply_to: Some(v), ..d })
            } else if trim(key) == "attach"@ && v.len() > 0 && safe_boundary(after) {
                Some(Directives { attachments: d.attachments.push(v), ..d })
            } else {
                None
            }
        },
    }
}

/// Whether a late attachment directive ends its line.
pub open spec fn safe_boundary(after: Seq<char>) -> bool {
    after.len() == 0 || has_prefix(after, "\n"@) || has_prefix(after, "\r\n"@)
}

/// `s` without the line breaks, spaces and tabs that follow a header directive.
pub open spec fn skip_gap(s: Seq<char>) -> Seq<char>
    decreases s.len(),
{
    if s.len() >= 2 && s[0] == '\r' && s[1] == '\n' {
        skip_gap(s.skip(2))
    } else if s.len() >= 1 && (s[0] == '\n' || s[0] == ' ' || s[0] == '\t') {
        skip_gap(s.skip(1))
    } else {
        s
    }
}

/// Reads the directives at the start of `s` on top of `d`; what is left of `s`
/// comes second.
pub open spec fn parse_header(s: Seq<char>, d: Directives) -> (Directives, Seq<char>)
    decreases s.len(),
    via parse_header_decreases
{
    if !has_prefix(s, "[["@) {
        (d, s)
    } else {
        match find(s.skip(2), "]]"@) {
            None => (d, s),
            Some(close) => match header_directive(s.skip(2).take(close), d) {
                None => (d, s),
                Some(d2) => parse_header(skip_gap(s.skip(2).skip(close + 2)), d2),
            },
        }
    }
}

#[via_fn]
proof fn parse_header_decreases(s: Seq<char>, d: Directives) {
    reveal_strlit("[[");
    reveal_strlit("]]");
    if has_prefix(s, "[["@) {
        crate::text::lemma_find_from(s.skip(2), "]]"@, 0);
        if let Some(close) = find(s.skip(2), "]]"@) {
            lemma_skip_gap_len(s.skip(2).skip(close + 2));
        }
    }
}

proof fn lemma_skip_gap_len(s: Seq<char>)
    ensures
        skip_gap(s).len() <= s.len(),
    decreases s.len(),
{
    if s.len() >= 2 && s[0] == '\r' && s[1] == '\n' {
        lemma_skip_gap_len(s.skip(2));
    } else if s.len() >= 1 && (s[0] == '\n' || s[0] == ' ' || s[0] == '\t') {
        lemma_skip_gap_len(s.skip(1));
    }
}

/// The texts before and after a removed late directive: one of two line breaks
/// goes, then one space, and words that would touch are kept apart by a space.
pub open spec fn join_around(out: Seq<char>, after: Seq<char>) -> (Seq<char>, Seq<char>) {
    let a1 = if has_suffix(out, "\n"@) && has_prefix(after, "\n"@) {
        after.skip(1)
    } else {
        after
    };
    let a2 = if has_prefix(a1, " "@) {
        a1.skip(1)
    } else {
        a1
    };
    if out.len() > 0 && !is_white(out.last()) && a2.len() > 0 && !is_white(a2[0]) {
        (out.push(' '), a2)
    } else {
        (out, a2)
    }
}

/// Removes the late directives of `rest`, on top of `d`; `out` is the text kept
/// so far.
pub open spec fn strip_late(out: Seq<char>, rest: Seq<char>, d: Directives) -> (
    Directives,
    Seq<char>,
)
    decreases rest.len(),
    via strip_late_decreases
{
    match find(rest, "[["@) {
        None => (d, out + rest),
        Some(open) => {
            let candidate = rest.skip(open + 2);
            match find(candidate, "]]"@) {
                None => (d, out + rest),
                Some(close) => {
                    let after = candidate.skip(close + 2);
                    match late_directive(candidate.take(close), after, d) {
                        Some(d2) => {
                            let (out2, rest2) = join_around(out + rest.take(open), after);
                            strip_late(out2, rest2, d2)
                        },
                        None => strip_late(out + rest.take(open + 2 + close + 2), after, d),
                    }
                },
            }
        },
    }
}

#[via_fn]
proof fn strip_late_decreases(out: Seq<char>, rest: Seq<char>, d: Directives) {
    reveal_strlit("[[");
    reveal_strlit("]]");
    reveal_strlit("\n");
    reveal_strlit(" ");
    crate::text::lemma_find_from(rest, "[["@, 0);
    if let Some(open) = find(rest, "[["@) {
        crate::text::lemma_find_from(rest.skip(open + 2), "]]"@, 0);
    }
}

/// The directives of an agent's output, and the output without them.
pub open spec fn output_directives(s: Seq<char>) -> (Directives, Seq<char>) {
    let (d, rest) = parse_header(s, no_directives());
    strip_late(Seq::empty(), rest, d)
}

/// Whether `v` is usable as a message id.
pub fn valid_reply_to_value(v: &[char]) -> (r: bool)
    ensures
        r == valid_reply_to(v@),
{
    if v.len() == 0 || v.len() > 64 {
        return false;
    }
    let mut i: usize = 0;
    while i < v.len()
        invariant
            0 < v@.len() <= 64,
            i <= v@.len(),
            forall|j: int| 0 <= j < i ==> reply_to_char(#[trigger] v@[j]),
        decreases v@.len() - i,
    {
        let c = v[i];
        if !(alnum(c) || c == '.' || c == '-' || c == '_') {
            assert(!reply_to_char(v@[i as int]));
            return false;
        }
        i += 1;
    }
    true
}

impl OutputDirectives {
    fn set_reply_to(&mut self, v: &[char])
        ensures
            final(self)@ == (Directives { reply_to: Some(v@), ..old(self)@ }),
    {
        self.reply_to = Some(string_of(v));
    }

    fn push_attachment(&mut self, v: &[char])
        ensures
            final(self)@ == (Directives {
                attachments: old(self)@.attachments.push(v@),
                ..old(self)@
            }),
    {
        self.attachments.push(string_of(v));
        assert(self@.attachments =~= old(self)@.attachments.push(v@));
    }
}

/// Applies a header directive; tells whether `inner` is one.
fn parse_output_directive_inner(inner: &[char], directives: &mut OutputDirectives) -> (r: bool)
    ensures
        match header_directive(inner@, old(directives)@) {
            Some(d) => r && final(directives)@ == d,
            None => !r && final(directives)@ == old(directives)@,
        },
{
    match cut_once(inner, ':') {
        None => false,
        Some((key, value)) => {
            let key = trimmed(key);
            let v = trimmed(value);
            if is_text(key, "reply_to") {
                if valid_reply_to_value(v) {
                    directives.set_reply_to(v);
                }
            } else if is_text(key, "attach") {
                if v.len() > 0 {
                    directives.push_attachment(v);
                }
            }
            proof {
                reveal_strlit("reply_to");
                reveal_strlit("attach");
                assert("reply_to"@.len() != "attach"@.len());
            }
            true
        },
    }
}

/// Whether a late attachment directive ends its line.
fn late_attach_has_safe_boundary(after_close: &[char]) -> (r: bool)
    ensures
        r == safe_boundary(after_close@),
{
    after_close.len() == 0 || starts_with(after_close, "\n") || starts_with(after_close, "\r\n")
}

/// Applies a late directive; tells whether `inner` is one.
fn parse_late_output_directive(
    inner: &[char],
    after_close: &[char],
    directives: &mut OutputDirectives,
) -> (r: bool)
    ensures
        match late_directive(inner@, after_close@, old(directives)@) {
            Some(d) => r && final(directives)@ == d,
            None => !r && final(directives)@ == old(directives)@,
        },
{
    match cut_once(inner, ':') {
        None => false,
        Some((key, value)) => {
            let key = trimmed(key);
            let v = trimmed(value);
            if is_text(key, "reply_to") && valid_reply_to_value(v) {
                directives.set_reply_to(v);
                true
            } else if is_text(key, "attach") && v.len() > 0 && late_attach_has_safe_boundary(
                after_close,
            ) {
                directives.push_attachment(v);
                true
            } else {
                false
            }
        },
    }
}

/// Removes the late directives of `content` and records them.
fn strip_late_output_directives(content: &[char], directives: &mut OutputDirectives) -> (out: Vec<
    char,
>)
    ensures
        (final(directives)@, out@) == strip_late(Seq::empty(), content@, old(directives)@),
{
    let mut output: Vec<char> = Vec::new();
    let mut rest = content;
    proof {
        reveal_strlit("[[");
        reveal_strlit("]]");
        reveal_strlit("\n");
        reveal_strlit(" ");
    }
    loop
        invariant
            strip_late(Seq::empty(), content@, old(directives)@) == strip_late(
                output@,
                rest@,
                directives@,
            ),
            "[["@.len() == 2,
            "]]"@.len() == 2,
            "\n"@.len() == 1,
            " "@.len() == 1,
        decreases rest@.len(),
    {
        let Some(open) = index_of(rest, "[[") else {
            extend(&mut output, rest);
            return output;
        };
        let candidate = skip(rest, open + 2);
        let Some(close) = index_of(candidate, "]]") else {
            extend(&mut output, rest);
            return output;
        };
        let inner = take(candidate, close);
        let after_close = skip(candidate, close + 2);
        if parse_late_output_directive(inner, after_close, directives) {
            extend(&mut output, take(rest, open));
            rest = after_close;
            if ends_with(output.as_slice(), "\n") && starts_with(rest, "\n") {
                rest = skip(rest, 1);
            }
            if starts_with(rest, " ") {
                rest = skip(rest, 1);
            }
            let n: usize = output.len();
            if n > 0 && !output[n - 1].is_whitespace() && rest.len() > 0
                && !rest[0].is_whitespace() {
                output.push(' ');
            }
        } else {
            extend(&mut output, take(rest, rest.len() - after_close.len()));
            rest = after_close;
        }
    }
}

/// Passes over the line breaks, spaces and tabs that follow a header directive.
fn after_gap(s: &[char]) -> (r: &[char])
    ensures
        r@ == skip_gap(s@),
{
    let mut rest = s;
    loop
        invariant
            skip_gap(s@) == skip_gap(rest@),
        decreases rest@.len(),
    {
        if rest.len() >= 2 && rest[0] == '\r' && rest[1] == '\n' {
            rest = skip(rest, 2);
        } else if rest.len() >= 1 && (rest[0] == '\n' || rest[0] == ' ' || rest[0] == '\t') {
            rest = skip(rest, 1);
        } else {
            return rest;
        }
    }
}

/// Parse `[[key:value]]` directives from agent output.
///
/// The preferred form is a directive header at the beginning of output. For
/// `reply_to` and newline-terminated `attach`, also accept a late directive
/// inside final output because real agents often preface tool-mediated
/// operations with a short explanation before the directive. This runs
/// only after the agent turn finishes, before final message creation.
/// Returns parsed directives and the remaining content (directives stripped).
pub fn parse_output_directives(content: &str) -> (r: (OutputDirectives, String))
    ensures
        (r.0@, r.1@) == output_directives(content@),
{
    let chars = chars_of(content);
    let mut directives = OutputDirectives::default();
    let mut rest = chars.as_slice();
    proof {
        reveal_strlit("[[");
        reveal_strlit("]]");
    }
    while starts_with(rest, "[[")
        invariant_except_break
            parse_header(content@, no_directives()) == parse_header(rest@, directives@),
            "[["@.len() == 2,
            "]]"@.len() == 2,
        ensures
            parse_header(content@, no_directives()) == (directives@, rest@),
        decreases rest@.len(),
    {
        let after_open = skip(rest, 2);
        let Some(close) = index_of(after_open, "]]") else {
            break ;
        };
        if !parse_output_directive_inner(take(after_open, close), &mut directives) {
            break ;
        }
        let gap = skip(after_open, close + 2);
        proof {
            lemma_skip_gap_len(gap@);
        }
        rest = after_gap(gap);
    }
    let remaining = strip_late_output_directives(rest, &mut directives);
    (directives, string_of(remaining.as_slice()))
}

/// Output without an opening `[[` carries no directive and is delivered as it is.
pub proof fn law_plain_output_unchanged(s: Seq<char>)
    requires
        find(s, "[["@) is None,
    ensures
        output_directives(s) == (no_directives(), s),
{
    crate::text::lemma_find_from(s, "[["@, 0);
    assert(Seq::<char>::empty() + s =~= s);
}

/// Whatever the output says, a reply target is a valid message id and every
/// requested attachment is a non-empty path.
pub proof fn law_directive_values(s: Seq<char>)
    ensures
        values_ok(output_directives(s).0),
{
    lemma_header_values(s, no_directives());
    let (d, rest) = parse_header(s, no_directives());
    lemma_late_values(Seq::empty(), rest, d);
}

/// Valid reply target, non-empty attachment paths.
pub open spec fn values_ok(d: Directives) -> bool {
    &&& d.reply_to is Some ==> valid_reply_to(d.reply_to->0)
    &&& forall|i: int| 0 <= i < d.attachments.len() ==> (#[trigger] d.attachments[i]).len() > 0
}

proof fn lemma_header_values(s: Seq<char>, d: Directives)
    requires
        values_ok(d),
    ensures
        values_ok(parse_header(s, d).0),
    decreases s.len(),
{
    reveal_strlit("[[");
    reveal_strlit("]]");
    if has_prefix(s, "[["@) {
        if let Some(close) = find(s.skip(2), "]]"@) {
            if let Some(d2) = header_directive(s.skip(2).take(close), d) {
                crate::text::lemma_find_from(s.skip(2), "]]"@, 0);
                lemma_skip_gap_len(s.skip(2).skip(close + 2));
                lemma_header_values(skip_gap(s.skip(2).skip(close + 2)), d2);
            }
        }
    }
}

proof fn lemma_late_values(out: Seq<char>, rest: Seq<char>, d: Directives)
    requires
        values_ok(d),
    ensures
        values_ok(strip_late(out, rest, d).0),
    decreases rest.len(),
{
    reveal_strlit("[[");
    reveal_strlit("]]");
    reveal_strlit("\n");
    reveal_strlit(" ");
    crate::text::lemma_find_from(rest, "[["@, 0);
    if let Some(open) = find(rest, "[["@) {
        let candidate = rest.skip(open + 2);
        crate::text::lemma_find_from(candidate, "]]"@, 0);
        if let Some(close) = find(candidate, "]]"@) {
            let after = candidate.skip(close + 2);
            match late_directive(candidate.take(close), after, d) {
                Some(d2) => {
                    let (out2, rest2) = join_around(out + rest.take(open), after);
                    lemma_late_values(out2, rest2, d2);
                },
                None => {
                    lemma_late_values(out + rest.take(open + 2 + close + 2), after, d);
                },
            }
        }
    }
}

/// Removing directives never makes the output longer.
pub proof fn law_output_never_grows(s: Seq<char>)
    ensures
        output_directives(s).1.len() <= s.len(),
{
    lemma_header_len(s, no_directives());
    let (d, rest) = parse_header(s, no_directives());
    lemma_late_len(Seq::empty(), rest, d);
}

proof fn lemma_header_len(s: Seq<char>, d: Directives)
    ensures
        parse_header(s, d).1.len() <= s.len(),
    decreases s.len(),
{
    reveal_strlit("[[");
    reveal_strlit("]]");
    if has_prefix(s, "[["@) {
        if let Some(close) = find(s.skip(2), "]]"@) {
            if let Some(d2) = header_directive(s.skip(2).take(close), d) {
                crate::text::lemma_find_from(s.skip(2), "]]"@, 0);
                lemma_skip_gap_len(s.skip(2).skip(close + 2));
                lemma_header_len(skip_gap(s.skip(2).skip(close + 2)), d2);
            }
        }
    }
}

proof fn lemma_late_len(out: Seq<char>, rest: Seq<char>, d: Directives)
    ensures
        strip_late(out, rest, d).1.len() <= out.len() + rest.len(),
    decreases rest.len(),
{
    reveal_strlit("[[");
    reveal_strlit("]]");
    reveal_strlit("\n");
    reveal_strlit(" ");
    crate::text::lemma_find_from(rest, "[["@, 0);
    if let Some(open) = find(rest, "[["@) {
        let candidate = rest.skip(open + 2);
        crate::text::lemma_find_from(candidate, "]]"@, 0);
        if let Some(close) = find(candidate, "]]"@) {
            let after = candidate.skip(close + 2);
            match late_directive(candidate.take(close), after, d) {
                Some(d2) => {
                    let (out2, rest2) = join_around(out + rest.take(open), after);
                    lemma_late_len(out2, rest2, d2);
                },
                None => {
                    lemma_late_len(out + rest.take(open + 2 + close + 2), after, d);
                },
            }
        }
    }
}

/// A header directive is read and removed, together with the line breaks and
/// blanks behind it, whatever follows.
pub proof fn law_header_directive_removed(inner: Seq<char>, rest: Seq<char>, d: Directives)
    requires
        find(inner, "]]"@) is None,
        inner.len() > 0 ==> inner.last() != ']',
        header_directive(inner, d) is Some,
    ensures
        parse_header("[["@ + inner + "]]"@ + rest, d) == parse_header(
            skip_gap(rest),
            header_directive(inner, d)->0,
        ),
{
    reveal_strlit("[[");
    reveal_strlit("]]");
    let s = "[["@ + inner + "]]"@ + rest;
    assert(s.subrange(0, 2) =~= "[["@);
    let tail = s.skip(2);
    assert(tail =~= inner + "]]"@ + rest);
    crate::text::lemma_find_from(inner, "]]"@, 0);
    assert forall|j: int| 0 <= j < inner.len() implies !crate::text::occurs_at(tail, "]]"@, j) by {
        if crate::text::occurs_at(tail, "]]"@, j) {
            assert(tail.subrange(j, j + 2)[0] == ']' && tail.subrange(j, j + 2)[1] == ']');
            assert(tail[j] == ']' && tail[j + 1] == ']');
            if j + 1 < inner.len() {
                assert(inner.subrange(j, j + 2) =~= "]]"@);
                assert(crate::text::occurs_at(inner, "]]"@, j));
            } else {
                assert(inner.last() == tail[j]);
            }
        }
    }
    assert(tail.subrange(inner.len() as int, inner.len() as int + 2) =~= "]]"@);
    assert(crate::text::occurs_at(tail, "]]"@, inner.len() as int));
    crate::text::lemma_find_skip(tail, "]]"@, 0, inner.len() as int);
    assert(find(tail, "]]"@) == Some(inner.len() as int));
    assert(tail.take(inner.len() as int) =~= inner);
    assert(tail.skip(inner.len() as int + 2) =~= rest);
}

/// A reply target put at the head of a plain body is given back exactly, and the
/// body is delivered without it.
pub proof fn law_reply_to_header_round_trip(id: Seq<char>, body: Seq<char>)
    requires
        valid_reply_to(id),
        find(body, "[["@) is None,
        skip_gap(body) == body,
    ensures
        output_directives("[["@ + ("reply_to:"@ + id) + "]]"@ + ("\n"@ + body)) == (
            Directives { reply_to: Some(id), attachments: Seq::empty() },
            body,
        ),
{
    reveal_strlit("[[");
    reveal_strlit("]]");
    reveal_strlit("\n");
    reveal_strlit("reply_to:");
    reveal_strlit("reply_to");
    let inner = "reply_to:"@ + id;
    assert forall|i: int| 0 <= i < inner.len() implies inner[i] != ']' && !is_white(
        #[trigger] inner[i],
    ) by {
        if i >= 9 {
            assert(reply_to_char(id[i - 9]));
        }
    }
    crate::text::lemma_find_from(inner, "]]"@, 0);
    if let Some(k) = find(inner, "]]"@) {
        assert(inner.subrange(k, k + 2)[0] == ']');
        assert(inner[k] == ']');
    }
    crate::text::lemma_find_char_from(inner, ':', 0);
    assert(inner[8] == ':');
    assert(split_once(inner, ':') == Some((inner.take(8), inner.skip(9)))) by {
        assert(crate::text::find_char_from(inner, ':', 0) == Some(8int));
    }
    assert(inner.take(8) =~= "reply_to"@);
    assert(inner.skip(9) =~= id);
    assert forall|i: int| 0 <= i < id.len() implies !is_white(#[trigger] id[i]) by {
        assert(inner[i + 9] == id[i]);
    }
    assert(trim(id) == id);
    assert(trim("reply_to"@) == "reply_to"@);
    law_header_directive_removed(inner, "\n"@ + body, no_directives());
    assert(("\n"@ + body).skip(1) =~= body);
    assert(skip_gap("\n"@ + body) == body);
    crate::text::lemma_find_from(body, "[["@, 0);
    assert(Seq::<char>::empty() + body =~= body);
}

/// A late `attach` that does not end its line stays in the text: the path may be
/// part of a sentence.
pub proof fn law_inline_attach_is_text(inner: Seq<char>, after: Seq<char>, d: Directives)
    requires
        split_once(inner, ':') is Some,
        trim((split_once(inner, ':')->0).0) == "attach"@,
        !safe_boundary(after),
    ensures
        late_directive(inner, after, d) is None,
{
    reveal_strlit("attach");
    reveal_strlit("reply_to");
    assert("attach"@.len() != "reply_to"@.len());
}

/// A message id is one to 64 characters long, of ASCII letters, digits, dots, hyphens and
/// underscores.
pub proof fn law_message_ids(v: Seq<char>)
    ensures
        valid_reply_to(v) <==> 1 <= v.len() <= 64 && forall|i: int|
            0 <= i < v.len() ==> {
                ||| 'a' <= (#[trigger] v[i]) <= 'z'
                ||| 'A' <= v[i] <= 'Z'
                ||| '0' <= v[i] <= '9'
                ||| v[i] == '.'
                ||| v[i] == '-'
                ||| v[i] == '_'
            },
{
    if valid_reply_to(v) {
        assert forall|i: int| 0 <= i < v.len() implies {
            ||| 'a' <= (#[trigger] v[i]) <= 'z'
            ||| 'A' <= v[i] <= 'Z'
            ||| '0' <= v[i] <= '9'
            ||| v[i] == '.'
            ||| v[i] == '-'
            ||| v[i] == '_'
        } by {
            assert(reply_to_char(v[i]));
        }
    }
}

proof fn lemma_key_value(key: Seq<char>, value: Seq<char>)
    requires
        !key.contains(':'),
    ensures
        split_once(key.push(':') + value, ':') == Some((key, value)),
{
    let s = key.push(':') + value;
    let n = key.len() as int;
    crate::text::lemma_find_char_from(s, ':', 0);
    assert(s[n] == ':');
    assert forall|j: int| 0 <= j < n implies s[j] != ':' by {
        assert(s[j] == key[j]);
        assert(key.contains(key[j]));
    }
    assert(crate::text::find_char_from(s, ':', 0) == Some(n));
    assert(s.take(n) =~= key);
    assert(s.skip(n + 1) =~= value);
}

/// What the directives of a header do: a valid reply target is taken, a path that is not
/// empty is added, and every other directive is read over.
pub proof fn law_header_directives(key: Seq<char>, value: Seq<char>, d: Directives)
    requires
        !key.contains(':'),
    ensures
        ({
            let r = header_directive(key.push(':') + value, d);
            let k = trim(key);
            let v = trim(value);
            &&& k == "reply_to"@ && valid_reply_to(v) ==> r == Some(
                Directives { reply_to: Some(v), attachments: d.attachments },
            )
            &&& k == "attach"@ && v.len() > 0 ==> r == Some(
                Directives { reply_to: d.reply_to, attachments: d.attachments.push(v) },
            )
            &&& k == "reply_to"@ && !valid_reply_to(v) ==> r == Some(d)
            &&& k == "attach"@ && v.len() == 0 ==> r == Some(d)
            &&& k != "reply_to"@ && k != "attach"@ ==> r == Some(d)
        }),
        !value.contains(':') ==> header_directive(value, d) is None,
{
    reveal_strlit("reply_to");
    reveal_strlit("attach");
    assert("reply_to"@.len() != "attach"@.len());
    lemma_key_value(key, value);
    crate::text::law_split_once(value, ':');
    if let Some((a, b)) = split_once(value, ':') {
        assert((a.push(':') + b)[a.len() as int] == ':');
    }
}

/// What directives inside the output do: a valid reply target is taken, and a path is
/// added where its directive ends the line; all else is ordinary text.
pub proof fn law_late_directives(
    key: Seq<char>,
    value: Seq<char>,
    after: Seq<char>,
    d: Directives,
)
    requires
        !key.contains(':'),
    ensures
        ({
            let r = late_directive(key.push(':') + value, after, d);
            let k = trim(key);
            let v = trim(value);
            let ends = after.len() == 0 || after[0] == '\n' || (after.len() >= 2 && after[0] == '\r'
                && after[1] == '\n');
            &&& k == "reply_to"@ && valid_reply_to(v) ==> r == Some(
                Directives { reply_to: Some(v), attachments: d.attachments },
            )
            &&& k == "attach"@ && v.len() > 0 && ends ==> r == Some(
                Directives { reply_to: d.reply_to, attachments: d.attachments.push(v) },
            )
            &&& k == "reply_to"@ && !valid_reply_to(v) ==> r is None
            &&& k == "attach"@ && (v.len() == 0 || !ends) ==> r is None
            &&& k != "reply_to"@ && k != "attach"@ ==> r is None
        }),
        !value.contains(':') ==> late_directive(value, after, d) is None,
{
    reveal_strlit("reply_to");
    reveal_strlit("attach");
    reveal_strlit("\n");
    reveal_strlit("\r\n");
    assert("reply_to"@.len() != "attach"@.len());
    lemma_key_value(key, value);
    crate::text::law_split_once(value, ':');
    if let Some((a, b)) = split_once(value, ':') {
        assert((a.push(':') + b)[a.len() as int] == ':');
    }
    if after.len() > 0 {
        assert(after.subrange(0, 1)[0] == after[0]);
        if after[0] == '\n' {
            assert(after.subrange(0, 1) =~= "\n"@);
        }
    }
    if after.len() >= 2 {
        assert(after.subrange(0, 2)[0] == after[0] && after.subrange(0, 2)[1] == after[1]);
        if after[0] == '\r' && after[1] == '\n' {
            assert(after.subrange(0, 2) =~= "\r\n"@);
        }
    }
}

/// Behind a header directive line breaks, spaces and tabs are passed over, however many,
/// and nothing else.
pub proof fn law_gap_is_passed_over(s: Seq<char>)
    ensures
        skip_gap(seq!['\n'] + s) == skip_gap(s),
        skip_gap(seq![' '] + s) == skip_gap(s),
        skip_gap(seq!['\t'] + s) == skip_gap(s),
        skip_gap(seq!['\r', '\n'] + s) == skip_gap(s),
        s.len() == 0 || (s[0] != '\n' && s[0] != ' ' && s[0] != '\t' && !(s[0] == '\r' && s.len()
            >= 2 && s[1] == '\n')) ==> skip_gap(s) == s,
{
    assert((seq!['\n'] + s).skip(1) =~= s);
    assert((seq![' '] + s).skip(1) =~= s);
    assert((seq!['\t'] + s).skip(1) =~= s);
    assert((seq!['\r', '\n'] + s).skip(2) =~= s);
}

/// The header ends where the output does not go on with a directive: with other text,
/// with brackets that are not closed, or with brackets around something without a colon.
pub proof fn law_header_ends(s: Seq<char>, inner: Seq<char>, d: Directives)
    ensures
        !has_prefix(s, "[["@) ==> parse_header(s, d) == (d, s),
        has_prefix(s, "[["@) && find(s.skip(2), "]]"@) is None ==> parse_header(s, d) == (d, s),
        has_prefix(s, "[["@) && find(s.skip(2), "]]"@) is Some && !s.skip(2).take(
            find(s.skip(2), "]]"@)->0,
        ).contains(':') ==> parse_header(s, d) == (d, s),
{
    if has_prefix(s, "[["@) && find(s.skip(2), "]]"@) is Some {
        let between = s.skip(2).take(find(s.skip(2), "]]"@)->0);
        law_header_directives(Seq::empty(), between, d);
    }
}

/// A path put at the head of a plain body is requested as an attachment exactly as it is
/// written, and the body is delivered without it.
pub proof fn law_attach_header_round_trip(path: Seq<char>, body: Seq<char>)
    requires
        path.len() > 0,
        trim(path) == path,
        find(path, "]]"@) is None,
        path.last() != ']',
        find(body, "[["@) is None,
        skip_gap(body) == body,
    ensures
        output_directives("[["@ + ("attach:"@ + path) + "]]"@ + ("\n"@ + body)) == (
            Directives { reply_to: None, attachments: seq![path] },
            body,
        ),
{
    reveal_strlit("[[");
    reveal_strlit("]]");
    reveal_strlit("\n");
    reveal_strlit("attach:");
    reveal_strlit("attach");
    let inner = "attach:"@ + path;
    crate::text::lemma_find_from(path, "]]"@, 0);
    crate::text::lemma_find_from(inner, "]]"@, 0);
    if let Some(k) = find(inner, "]]"@) {
        assert(inner.subrange(k, k + 2)[0] == ']' && inner.subrange(k, k + 2)[1] == ']');
        assert(inner[k] == ']' && inner[k + 1] == ']');
        assert(k >= 7);
        assert(path.subrange(k - 7, k - 5) =~= "]]"@);
        assert(crate::text::occurs_at(path, "]]"@, k - 7));
    }
    assert(!"attach"@.contains(':'));
    assert(inner =~= "attach"@.push(':') + path);
    assert(trim("attach"@) == "attach"@);
    law_header_directives("attach"@, path, no_directives());
    law_header_directive_removed(inner, "\n"@ + body, no_directives());
    assert(("\n"@ + body) =~= seq!['\n'] + body);
    law_gap_is_passed_over(body);
    crate::text::lemma_find_from(body, "[["@, 0);
    assert(Seq::<char>::empty() + body =~= body);
    assert(no_directives().attachments.push(path) =~= seq![path]);
}

/// What stands around a removed directive: of two line breaks one goes, then one space,
/// and two visible characters that would touch are kept apart by a space. Nothing else
/// is lost or added.
pub proof fn law_text_around_removed_directive(out: Seq<char>, after: Seq<char>)
    ensures
        ({
            let (o, a) = join_around(out, after);
            let brk = out.len() > 0 && out.last() == '\n' && after.len() > 0 && after[0] == '\n';
            let rest = if brk {
                after.skip(1)
            } else {
                after
            };
            let rest2 = if rest.len() > 0 && rest[0] == ' ' {
                rest.skip(1)
            } else {
                rest
            };
            let touch = out.len() > 0 && !is_white(out.last()) && rest2.len() > 0 && !is_white(
                rest2[0],
            );
            a == rest2 && o == (if touch {
                out.push(' ')
            } else {
                out
            })
        }),
{
    reveal_strlit("\n");
    reveal_strlit(" ");
    let n = out.len() as int;
    if n > 0 {
        assert(out.subrange(n - 1, n) =~= seq![out.last()]);
        assert(out.subrange(n - 1, n)[0] == out.last());
        if out.last() == '\n' {
            assert(out.subrange(n - 1, n) =~= "\n"@);
        }
    }
    lemma_first_char(after, '\n', "\n"@);
    let rest = if n > 0 && out.last() == '\n' && after.len() > 0 && after[0] == '\n' {
        after.skip(1)
    } else {
        after
    };
    lemma_first_char(rest, ' ', " "@);
}

proof fn lemma_first_char(s: Seq<char>, c: char, one: Seq<char>)
    requires
        one.len() == 1,
        one[0] == c,
    ensures
        has_prefix(s, one) <==> s.len() > 0 && s[0] == c,
{
    if s.len() > 0 {
        assert(s.subrange(0, 1)[0] == s[0]);
        if s[0] == c {
            assert(s.subrange(0, 1) =~= one);
        }
    }
}

/// A directive inside the output is taken out where it is one, and stays, brackets and
/// all, where it is not; text before it and behind it is kept in order.
pub proof fn law_late_directive_step(
    out: Seq<char>,
    before: Seq<char>,
    inner: Seq<char>,
    after: Seq<char>,
    d: Directives,
)
    requires
        find(before + "[["@ + inner + "]]"@ + after, "[["@) == Some(before.len() as int),
        find(inner + "]]"@ + after, "]]"@) == Some(inner.len() as int),
    ensures
        ({
            let s = before + "[["@ + inner + "]]"@ + after;
            match late_directive(inner, after, d) {
                Some(d2) => strip_late(out, s, d) == strip_late(
                    join_around(out + before, after).0,
                    join_around(out + before, after).1,
                    d2,
                ),
                None => strip_late(out, s, d) == strip_late(
                    out + (before + "[["@ + inner + "]]"@),
                    after,
                    d,
                ),
            }
        }),
{
    reveal_strlit("[[");
    reveal_strlit("]]");
    let s = before + "[["@ + inner + "]]"@ + after;
    let n = before.len() as int;
    let k = inner.len() as int;
    assert(s.skip(n + 2) =~= inner + "]]"@ + after);
    assert(s.skip(n + 2).take(k) =~= inner);
    assert(s.skip(n + 2).skip(k + 2) =~= after);
    assert(s.take(n) =~= before);
    assert(s.take(n + 2 + k + 2) =~= before + "[["@ + inner + "]]"@);
}

/// Brackets that are not closed are ordinary text.
pub proof fn law_open_brackets_are_text(out: Seq<char>, s: Seq<char>, d: Directives)
    requires
        find(s, "[["@) is None || find(s.skip(find(s, "[["@)->0 + 2), "]]"@) is None,
    ensures
        strip_late(out, s, d) == (d, out + s),
{
}

/// The header is read first, and what is left of the output is searched for the others.
pub proof fn law_header_comes_first(s: Seq<char>)
    ensures
        output_directives(s) == strip_late(
            Seq::empty(),
            parse_header(s, Directives { reply_to: None, attachments: Seq::empty() }).1,
            parse_header(s, Directives { reply_to: None, attachments: Seq::empty() }).0,
        ),
{
}

} // verus!
