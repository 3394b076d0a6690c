//! Mentions in chat messages and their propagation to the parts of a split reply.

use vstd::prelude::*;

use crate::text::{
    chars_of, contains, digit, find_char_from, has, has_prefix, index_of_char, is_digit, join,
    joined, occurs_at, skip, starts_with, string_of, take, texts,
};

verus! {

/// The first index, not below `i`, that holds no digit.
pub open spec fn digits_end(s: Seq<char>, i: int) -> int
    decreases s.len() - i,
{
    if 0 <= i < s.len() && is_digit(s[i]) {
        digits_end(s, i + 1)
    } else {
        i
    }
}

/// Where the digits of a mention that opens at `i` begin.
pub open spec fn mention_digits(s: Seq<char>, i: int) -> int {
    if i + 2 < s.len() && (s[i + 2] == '!' || s[i + 2] == '&') {
        i + 3
    } else {
        i + 2
    }
}

/// Whether a mention (`<@123>`, `<@!123>` or `<@&123>`) stands at `i`.
pub open spec fn mention_at(s: Seq<char>, i: int) -> bool {
    let start = mention_digits(s, i);
    let end = digits_end(s, start);
    &&& 0 <= i && i + 2 < s.len() && s[i] == '<' && s[i + 1] == '@'
    &&& start < end < s.len() && s[end] == '>'
}

/// The mention at `i`, with the nickname form `<@!123>` written as `<@123>`.
pub open spec fn mention_text(s: Seq<char>, i: int) -> Seq<char> {
    let start = mention_digits(s, i);
    let id = s.subrange(start, digits_end(s, start));
    if s[i + 2] == '&' {
        "<@&"@ + id + ">"@
    } else {
        "<@"@ + id + ">"@
    }
}

/// `seen` with `m` at its end, unless it holds `m` already.
pub open spec fn with_mention(seen: Seq<Seq<char>>, m: Seq<char>) -> Seq<Seq<char>> {
    if seen.contains(m) {
        seen
    } else {
        seen.push(m)
    }
}

/// `seen` with the mentions of `line` that stand before index `n`.
pub open spec fn line_mentions(line: Seq<char>, n: int, seen: Seq<Seq<char>>) -> Seq<Seq<char>>
    decreases n,
{
    if n <= 0 {
        seen
    } else {
        let before = line_mentions(line, n - 1, seen);
        if mention_at(line, n - 1) {
            with_mention(before, mention_text(line, n - 1))
        } else {
            before
        }
    }
}

/// `seen` with the mentions of the lines of `s` that stand outside fenced code.
pub open spec fn text_mentions(s: Seq<char>, in_fence: bool, seen: Seq<Seq<char>>) -> Seq<Seq<char>>
    decreases s.len(),
    via text_mentions_decreases
{
    let end = match find_char_from(s, '\n', 0) {
        Some(i) => i,
        None => s.len() as int,
    };
    let line = s.take(end);
    let fence = has_prefix(line, "```"@);
    let in_fence2 = if fence {
        !in_fence
    } else {
        in_fence
    };
    let seen2 = if fence || in_fence {
        seen
    } else {
        line_mentions(line, line.len() as int, seen)
    };
    if end < s.len() {
        text_mentions(s.skip(end + 1), in_fence2, seen2)
    } else {
        seen2
    }
}

#[via_fn]
proof fn text_mentions_decreases(s: Seq<char>, in_fence: bool, seen: Seq<Seq<char>>) {
    crate::text::lemma_find_char_from(s, '\n', 0);
}

/// What is put below a part that lacks `mentions`.
pub open spec fn mention_footer(mentions: Seq<Seq<char>>) -> Seq<char> {
    if mentions.len() == 0 {
        Seq::empty()
    } else {
        "\n"@ + join(mentions, " "@)
    }
}

/// The mentions that do not occur in `chunk`.
pub open spec fn missing_mentions(chunk: Seq<char>, mentions: Seq<Seq<char>>) -> Seq<Seq<char>> {
    mentions.filter(|m: Seq<char>| !contains(chunk, m))
}

/// `chunk` with the mentions it lacks, where they fit below `limit`.
pub open spec fn chunk_with_mentions(
    chunk: Seq<char>,
    mentions: Seq<Seq<char>>,
    limit: nat,
) -> Seq<char> {
    let footer = mention_footer(missing_mentions(chunk, mentions));
    if chunk.len() + footer.len() <= limit {
        chunk + footer
    } else {
        chunk
    }
}

/// The parts of a reply with the mentions of the whole reply in each of them.
pub open spec fn chunks_with_mentions(
    chunks: Seq<Seq<char>>,
    mentions: Seq<Seq<char>>,
    limit: nat,
) -> Seq<Seq<char>> {
    if chunks.len() <= 1 {
        chunks
    } else {
        chunks.map_values(|c: Seq<char>| chunk_with_mentions(c, mentions, limit))
    }
}

/// Where the run of digits from `i` on ends.
fn end_of_digits(s: &[char], i: usize) -> (r: usize)
    requires
        i <= s@.len(),
    ensures
        r == digits_end(s@, i as int),
        i <= r <= s@.len(),
{
    let mut k: usize = i;
    while k < s.len() && digit(s[k])
        invariant
            i <= k <= s@.len(),
            digits_end(s@, i as int) == digits_end(s@, k as int),
        decreases s@.len() - k,
    {
        k += 1;
    }
    k
}

/// The digits of the mention at `i`, if one stands there.
fn mention_span(s: &[char], i: usize) -> (r: Option<(usize, usize)>)
    requires
        i < s@.len(),
    ensures
        match r {
            Some((start, end)) => mention_at(s@, i as int) && start == mention_digits(s@, i as int)
                && end == digits_end(s@, start as int) && i + 2 <= start <= end < s@.len(),
            None => !mention_at(s@, i as int),
        },
{
    if s.len() - i <= 2 || s[i] != '<' || s[i + 1] != '@' {
        return None;
    }
    let start: usize = if s[i + 2] == '!' || s[i + 2] == '&' {
        i + 3
    } else {
        i + 2
    };
    let end = end_of_digits(s, start);
    if start < end && end < s.len() && s[end] == '>' {
        Some((start, end))
    } else {
        None
    }
}

/// Whether `list` holds `m`.
fn list_contains(list: &[String], m: &str) -> (r: bool)
    ensures
        r == texts(list@).contains(m@),
{
    let m_chars = chars_of(m);
    let mut i: usize = 0;
    while i < list.len()
        invariant
            i <= list@.len(),
            m_chars@ == m@,
            forall|j: int| 0 <= j < i ==> texts(list@)[j] != m@,
        decreases list@.len() - i,
    {
        if crate::text::is_text(m_chars.as_slice(), list[i].as_str()) {
            assert(texts(list@)[i as int] == m@);
            return true;
        }
        i += 1;
    }
    false
}

/// Adds the mentions of `line` to `mentions`.
fn collect_line(line: &[char], mentions: &mut Vec<String>)
    ensures
        texts(final(mentions)@) == line_mentions(
            line@,
            line@.len() as int,
            texts(old(mentions)@),
        ),
{
    let mut i: usize = 0;
    while i < line.len()
        invariant
            i <= line@.len(),
            texts(mentions@) == line_mentions(line@, i as int, texts(old(mentions)@)),
        decreases line@.len() - i,
    {
        if let Some((start, end)) = mention_span(line, i) {
            let mut m = String::new();
            if line[i + 2] == '&' {
                m.append("<@&");
            } else {
                m.append("<@");
            }
            let id = string_of(vstd::slice::slice_subrange(line, start, end));
            m.append(id.as_str());
            m.append(">");
            assert(m@ =~= mention_text(line@, i as int));
            if !list_contains(mentions.as_slice(), m.as_str()) {
                let ghost before = mentions@;
                let ghost text = m@;
                mentions.push(m);
                assert(texts(mentions@) =~= texts(before).push(text));
            }
        }
        i += 1;
    }
}

/// Extract all Discord mentions (`<@123>`, `<@!123>`, `<@&123>`) from content,
/// skipping mentions inside fenced code blocks (``` ... ```).
/// Normalizes `<@!UID>` to `<@UID>` for deduplication (same user).
/// Returns the deduplicated list in appearance order.
pub fn extract_mentions(content: &str) -> (out: Vec<String>)
    ensures
        texts(out@) == text_mentions(content@, false, Seq::empty()),
{
    let chars = chars_of(content);
    let mut rest = chars.as_slice();
    let mut mentions: Vec<String> = Vec::new();
    let mut in_fence = false;
    assert(texts(mentions@) =~= Seq::<Seq<char>>::empty());
    loop
        invariant
            text_mentions(content@, false, Seq::empty()) == text_mentions(
                rest@,
                in_fence,
                texts(mentions@),
            ),
        decreases rest@.len(),
    {
        let next = index_of_char(rest, '\n', 0);
        let end: usize = match next {
            Some(i) => i,
            None => rest.len(),
        };
        let line = take(rest, end);
        if starts_with(line, "```") {
            in_fence = !in_fence;
        } else if !in_fence {
            collect_line(line, &mut mentions);
        }
        if end == rest.len() {
            return mentions;
        }
        rest = skip(rest, end + 1);
    }
}

/// The footer that carries `mentions`.
fn footer_text(mentions: &[String]) -> (out: String)
    ensures
        out@ == mention_footer(texts(mentions@)),
{
    let mut out = String::new();
    if mentions.len() > 0 {
        out.append("\n");
        let list = joined(mentions, " ");
        out.append(list.as_str());
    }
    assert(out@ =~= mention_footer(texts(mentions@)));
    out
}

/// Compute the char length of the mention footer that will be appended
/// (`"\n" + mentions joined by " "`). Returns 0 if there are no mentions.
pub fn mention_footer_len(mentions: &[String]) -> (n: usize)
    ensures
        n == mention_footer(texts(mentions@)).len(),
{
    footer_text(mentions).as_str().unicode_len()
}

/// Check if a chunk contains an exact mention. Mentions are `<@DIGITS>`
/// terminated by `>`, so a substring search is exact: `<@123>` cannot match
/// inside `<@1234>` because `>` is the boundary delimiter.
pub fn chunk_contains_mention(chunk: &str, mention: &str) -> (r: bool)
    ensures
        r == contains(chunk@, mention@),
{
    let chars = chars_of(chunk);
    has(chars.as_slice(), mention)
}

/// One part of a reply, with the mentions it lacks where they fit.
fn propagate_to_chunk(chunk: String, mentions: &[String], limit: usize) -> (out: String)
    ensures
        out@ == chunk_with_mentions(chunk@, texts(mentions@), limit as nat),
{
    let ghost pred = |m: Seq<char>| !contains(chunk@, m);
    let mut missing: Vec<String> = Vec::new();
    let mut i: usize = 0;
    proof {
        reveal(Seq::filter);
    }
    assert(texts(missing@) =~= texts(mentions@).take(0).filter(pred));
    while i < mentions.len()
        invariant
            i <= mentions@.len(),
            pred == |m: Seq<char>| !contains(chunk@, m),
            texts(missing@) == texts(mentions@).take(i as int).filter(pred),
        decreases mentions@.len() - i,
    {
        let ghost before = missing@;
        if !chunk_contains_mention(chunk.as_str(), mentions[i].as_str()) {
            missing.push(mentions[i].clone());
            assert(texts(missing@) =~= texts(before).push(mentions@[i as int]@));
        }
        proof {
            reveal(Seq::filter);
            let t = texts(mentions@).take(i + 1);
            assert(t.drop_last() =~= texts(mentions@).take(i as int));
            assert(t.last() == mentions@[i as int]@);
        }
        i += 1;
    }
    assert(texts(mentions@).take(i as int) =~= texts(mentions@));
    let footer = footer_text(missing.as_slice());
    let footer_len: usize = footer.as_str().unicode_len();
    if footer_len <= limit && chunk.as_str().unicode_len() <= limit - footer_len {
        let mut out = chunk;
        out.append(footer.as_str());
        out
    } else {
        chunk
    }
}

/// Append every mention to each split chunk that does not already contain it, so
/// receiving bots under a mention gate accept all pieces. `limit` is the hard
/// message-length ceiling; a chunk that would exceed it after appending is left
/// unchanged (deducting the footer length from the split limit guarantees space
/// in normal cases). No-op for a single chunk or no mentions.
pub fn propagate_mentions_to_chunks(chunks: Vec<String>, mentions: &[String], limit: usize) -> (out:
    Vec<String>)
    ensures
        texts(out@) == chunks_with_mentions(texts(chunks@), texts(mentions@), limit as nat),
{
    if chunks.len() <= 1 {
        return chunks;
    }
    let mut out: Vec<String> = Vec::new();
    let mut i: usize = 0;
    let ghost all = chunks_with_mentions(texts(chunks@), texts(mentions@), limit as nat);
    while i < chunks.len()
        invariant
            i <= chunks@.len(),
            chunks@.len() > 1,
            all == chunks_with_mentions(texts(chunks@), texts(mentions@), limit as nat),
            texts(out@) == all.take(i as int),
        decreases chunks@.len() - i,
    {
        let ghost before = out@;
        let part = propagate_to_chunk(chunks[i].clone(), mentions, limit);
        let ghost text = part@;
        out.push(part);
        assert(texts(out@) =~= texts(before).push(text));
        assert(all.take(i + 1) =~= all.take(i as int).push(all[i as int]));
        i += 1;
    }
    assert(all.take(i as int) =~= all);
    out
}

/// Returns true if `content` contains a Discord user mention (`<@123>`,
/// `<@!123>`) or role mention (`<@&123>`). Used by the streaming path to switch
/// from edit (MESSAGE_UPDATE, no mention notification) to delete+send
/// (MESSAGE_CREATE) so a mentioned peer actually wakes.
pub fn contains_bot_mention(content: &str) -> (r: bool)
    ensures
        r == exists|i: int| mention_at(content@, i),
{
    let chars = chars_of(content);
    let s = chars.as_slice();
    let mut i: usize = 0;
    while i < s.len()
        invariant
            s@ == content@,
            i <= s@.len(),
            forall|j: int| j < i ==> !mention_at(content@, j),
        decreases s@.len() - i,
    {
        if mention_span(s, i).is_some() {
            assert(mention_at(content@, i as int));
            return true;
        }
        i += 1;
    }
    false
}

/// A mention in the form in which it is collected: `<@123>` or `<@&123>`.
pub open spec fn is_mention(m: Seq<char>) -> bool {
    mention_at(m, 0) && m[2] != '!' && digits_end(m, mention_digits(m, 0)) == m.len() - 1
}

/// Each collected mention is well formed.
pub open spec fn all_mentions(ms: Seq<Seq<char>>) -> bool {
    forall|i: int| 0 <= i < ms.len() ==> is_mention(#[trigger] ms[i])
}

/// Mentions are collected once each, in their canonical form.
pub proof fn law_mentions_distinct_and_canonical(s: Seq<char>)
    ensures
        text_mentions(s, false, Seq::empty()).no_duplicates(),
        all_mentions(text_mentions(s, false, Seq::empty())),
{
    lemma_text_mentions(s, false, Seq::empty());
}

proof fn lemma_text_mentions(s: Seq<char>, in_fence: bool, seen: Seq<Seq<char>>)
    requires
        seen.no_duplicates(),
        all_mentions(seen),
    ensures
        text_mentions(s, in_fence, seen).no_duplicates(),
        all_mentions(text_mentions(s, in_fence, seen)),
    decreases s.len(),
{
    crate::text::lemma_find_char_from(s, '\n', 0);
    let end = match find_char_from(s, '\n', 0) {
        Some(i) => i,
        None => s.len() as int,
    };
    let line = s.take(end);
    let fence = has_prefix(line, "```"@);
    lemma_line_mentions(line, line.len() as int, seen);
    let seen2 = if fence || in_fence {
        seen
    } else {
        line_mentions(line, line.len() as int, seen)
    };
    if end < s.len() {
        lemma_text_mentions(
            s.skip(end + 1),
            if fence {
                !in_fence
            } else {
                in_fence
            },
            seen2,
        );
    }
}

proof fn lemma_line_mentions(line: Seq<char>, n: int, seen: Seq<Seq<char>>)
    requires
        n <= line.len(),
        seen.no_duplicates(),
        all_mentions(seen),
    ensures
        line_mentions(line, n, seen).no_duplicates(),
        all_mentions(line_mentions(line, n, seen)),
    decreases n,
{
    if n > 0 {
        lemma_line_mentions(line, n - 1, seen);
        if mention_at(line, n - 1) {
            lemma_mention_text(line, n - 1);
        }
    }
}

proof fn lemma_digits_end(s: Seq<char>, i: int)
    requires
        0 <= i <= s.len(),
    ensures
        i <= digits_end(s, i) <= s.len(),
        forall|j: int| i <= j < digits_end(s, i) ==> is_digit(#[trigger] s[j]),
        digits_end(s, i) < s.len() ==> !is_digit(s[digits_end(s, i)]),
    decreases s.len() - i,
{
    if i < s.len() && is_digit(s[i]) {
        lemma_digits_end(s, i + 1);
    }
}

proof fn lemma_digits_run(s: Seq<char>, i: int, k: int)
    requires
        0 <= i <= k < s.len(),
        forall|j: int| i <= j < k ==> is_digit(#[trigger] s[j]),
        !is_digit(s[k]),
    ensures
        digits_end(s, i) == k,
    decreases k - i,
{
    if i < k {
        lemma_digits_run(s, i + 1, k);
    }
}

proof fn lemma_mention_text(line: Seq<char>, i: int)
    requires
        mention_at(line, i),
    ensures
        is_mention(mention_text(line, i)),
{
    reveal_strlit("<@&");
    reveal_strlit("<@");
    reveal_strlit(">");
    let start = mention_digits(line, i);
    let end = digits_end(line, start);
    lemma_digits_end(line, start);
    let m = mention_text(line, i);
    let first = if line[i + 2] == '&' {
        3int
    } else {
        2int
    };
    assert forall|j: int| first <= j < m.len() - 1 implies is_digit(#[trigger] m[j]) by {
        assert(m[j] == line[start + (j - first)]);
    }
    assert(is_digit(m[first]));
    lemma_digits_run(m, first, m.len() - 1);
}

/// A search for a mention is exact: one mention occurs in another only where the
/// two are the same.
pub proof fn law_mention_search_is_exact(a: Seq<char>, b: Seq<char>)
    requires
        is_mention(a),
        is_mention(b),
        contains(b, a),
    ensures
        a == b,
{
    crate::text::lemma_find_from(b, a, 0);
    let k = crate::text::find(b, a)->0;
    lemma_digits_end(a, mention_digits(a, 0));
    lemma_digits_end(b, mention_digits(b, 0));
    assert(b.subrange(k, k + a.len())[0] == '<');
    assert(b[k] == '<');
    assert forall|j: int| 0 < j < b.len() implies b[j] != '<' by {
        if j >= mention_digits(b, 0) && j < b.len() - 1 {
            assert(is_digit(b[j]));
        }
    }
    assert(k == 0);
    assert(b.subrange(0, a.len() as int)[a.len() - 1] == '>');
    assert(b[a.len() - 1] == '>');
    assert forall|j: int| 0 <= j < b.len() - 1 implies b[j] != '>' by {
        if j >= mention_digits(b, 0) {
            assert(is_digit(b[j]));
        }
    }
    assert(a.len() == b.len());
    assert(b.subrange(0, b.len() as int) =~= b);
}

/// Propagation never makes a part longer than the limit.
pub proof fn law_propagation_respects_limit(
    chunk: Seq<char>,
    mentions: Seq<Seq<char>>,
    limit: nat,
)
    requires
        chunk.len() <= limit,
    ensures
        chunk_with_mentions(chunk, mentions, limit).len() <= limit,
{
}

/// The length that mentions take in a footer, with a separator each.
spec fn weight(ms: Seq<Seq<char>>) -> nat
    decreases ms.len(),
{
    if ms.len() == 0 {
        0
    } else {
        weight(ms.drop_last()) + ms.last().len() + 1
    }
}

proof fn lemma_footer_len(ms: Seq<Seq<char>>)
    ensures
        mention_footer(ms).len() == weight(ms),
        ms.len() > 0 ==> join(ms, " "@).len() + 1 == weight(ms),
    decreases ms.len(),
{
    reveal_strlit("\n");
    reveal_strlit(" ");
    if ms.len() > 0 {
        lemma_footer_len(ms.drop_last());
        if ms.len() == 1 {
            assert(weight(ms.drop_last()) == 0);
        }
    }
}

proof fn lemma_filter_weight(ms: Seq<Seq<char>>, pred: spec_fn(Seq<char>) -> bool)
    ensures
        weight(ms.filter(pred)) <= weight(ms),
    decreases ms.len(),
{
    reveal(Seq::filter);
    if ms.len() > 0 {
        lemma_filter_weight(ms.drop_last(), pred);
        let f = ms.drop_last().filter(pred);
        assert(f.push(ms.last()).drop_last() =~= f);
    }
}

proof fn lemma_join_contains(ms: Seq<Seq<char>>, i: int) -> (k: int)
    requires
        0 <= i < ms.len(),
    ensures
        occurs_at(join(ms, " "@), ms[i], k),
    decreases ms.len(),
{
    let all = join(ms, " "@);
    if ms.len() == 1 {
        assert(all.subrange(0, ms[0].len() as int) =~= ms[0]);
        0
    } else if i == ms.len() - 1 {
        let k = all.len() - ms.last().len();
        assert(all.subrange(k, all.len() as int) =~= ms.last());
        k
    } else {
        let k = lemma_join_contains(ms.drop_last(), i);
        let m = ms[i];
        let front = join(ms.drop_last(), " "@);
        assert(ms.drop_last()[i] == m);
        assert(front.subrange(k, k + m.len()) =~= all.subrange(k, k + m.len()));
        k
    }
}

/// Where the footer's length was deducted from the split limit, every part
/// carries every mention of the whole reply and none exceeds the limit.
pub proof fn law_every_chunk_carries_every_mention(
    chunks: Seq<Seq<char>>,
    mentions: Seq<Seq<char>>,
    limit: nat,
    c: int,
    m: int,
)
    requires
        chunks.len() > 1,
        0 <= c < chunks.len(),
        0 <= m < mentions.len(),
        chunks[c].len() + mention_footer(mentions).len() <= limit,
    ensures
        contains(chunks_with_mentions(chunks, mentions, limit)[c], mentions[m]),
        chunks_with_mentions(chunks, mentions, limit)[c].len() <= limit,
{
    let chunk = chunks[c];
    let pred = |x: Seq<char>| !contains(chunk, x);
    let missing = missing_mentions(chunk, mentions);
    lemma_footer_len(mentions);
    lemma_footer_len(missing);
    lemma_filter_weight(mentions, pred);
    let out = chunk_with_mentions(chunk, mentions, limit);
    assert(out == chunk + mention_footer(missing));
    let x = mentions[m];
    if contains(chunk, x) {
        crate::text::lemma_find_from(chunk, x, 0);
        let k = crate::text::find(chunk, x)->0;
        assert(out.subrange(k, k + x.len()) =~= chunk.subrange(k, k + x.len()));
        crate::text::lemma_contains_at(out, x, k);
    } else {
        mentions.lemma_filter_contains(pred, m);
        let i = choose|i: int| 0 <= i < missing.len() && missing[i] == x;
        let k = lemma_join_contains(missing, i);
        let list = join(missing, " "@);
        reveal_strlit("\n");
        let at = chunk.len() + 1 + k;
        assert(out.subrange(at, at + x.len()) =~= list.subrange(k, k + x.len()));
        crate::text::lemma_contains_at(out, x, at);
    }
}

/// Whether a text is a row of digits.
pub open spec fn all_digits(id: Seq<char>) -> bool {
    id.len() > 0 && forall|i: int| 0 <= i < id.len() ==> is_digit(#[trigger] id[i])
}

/// Each form of mention is one wherever it stands, and is collected under its id: users
/// without the mark of a nickname, roles with theirs.
pub proof fn law_mention_forms(a: Seq<char>, id: Seq<char>, b: Seq<char>)
    requires
        all_digits(id),
    ensures
        mention_at(a + ("<@"@ + id + ">"@) + b, a.len() as int),
        mention_text(a + ("<@"@ + id + ">"@) + b, a.len() as int) == "<@"@ + id + ">"@,
        mention_at(a + ("<@!"@ + id + ">"@) + b, a.len() as int),
        mention_text(a + ("<@!"@ + id + ">"@) + b, a.len() as int) == "<@"@ + id + ">"@,
        mention_at(a + ("<@&"@ + id + ">"@) + b, a.len() as int),
        mention_text(a + ("<@&"@ + id + ">"@) + b, a.len() as int) == "<@&"@ + id + ">"@,
{
    reveal_strlit("<@");
    reveal_strlit("<@!");
    reveal_strlit("<@&");
    reveal_strlit(">");
    assert("<@"@ =~= seq!['<', '@']);
    assert("<@!"@ =~= seq!['<', '@', '!']);
    assert("<@&"@ =~= seq!['<', '@', '&']);
    lemma_mention_shape(a, "<@"@, id, b);
    lemma_mention_shape(a, "<@!"@, id, b);
    lemma_mention_shape(a, "<@&"@, id, b);
    assert(is_digit(id[0]));
}

proof fn lemma_mention_shape(a: Seq<char>, open: Seq<char>, id: Seq<char>, b: Seq<char>)
    requires
        all_digits(id),
        open == seq!['<', '@'] || open == seq!['<', '@', '!'] || open == seq!['<', '@', '&'],
    ensures
        ({
            let s = a + (open + id + ">"@) + b;
            let i = a.len() as int;
            &&& mention_at(s, i)
            &&& mention_digits(s, i) == i + open.len()
            &&& s.subrange(mention_digits(s, i), digits_end(s, mention_digits(s, i))) == id
            &&& s[i + 2] == (if open.len() == 3 {
                open[2]
            } else {
                id[0]
            })
        }),
{
    reveal_strlit(">");
    let s = a + (open + id + ">"@) + b;
    let i = a.len() as int;
    let start = i + open.len();
    let end = start + id.len();
    assert(is_digit(id[0]));
    assert(s[start] == id[0]);
    assert forall|j: int| start <= j < end implies is_digit(#[trigger] s[j]) by {
        assert(s[j] == id[j - start]);
        assert(is_digit(id[j - start]));
    }
    assert(s[end] == '>');
    lemma_digits_run(s, start, end);
    assert(s.subrange(start, end) =~= id);
}

/// Nothing else is a mention: where one is found, one of the three forms stands.
pub proof fn law_only_mentions_are_found(s: Seq<char>, i: int)
    requires
        mention_at(s, i),
    ensures
        exists|id: Seq<char>, end: int|
            #![trigger s.subrange(i, end), all_digits(id)]
            {
                &&& all_digits(id)
                &&& i < end <= s.len()
                &&& {
                    ||| s.subrange(i, end) == "<@"@ + id + ">"@
                    ||| s.subrange(i, end) == "<@!"@ + id + ">"@
                    ||| s.subrange(i, end) == "<@&"@ + id + ">"@
                }
            },
{
    reveal_strlit("<@");
    reveal_strlit("<@!");
    reveal_strlit("<@&");
    reveal_strlit(">");
    let start = mention_digits(s, i);
    let end = digits_end(s, start);
    lemma_digits_end(s, start);
    let id = s.subrange(start, end);
    assert(all_digits(id));
    let m = s.subrange(i, end + 1);
    if s[i + 2] == '!' {
        assert(m =~= "<@!"@ + id + ">"@);
    } else if s[i + 2] == '&' {
        assert(m =~= "<@&"@ + id + ">"@);
    } else {
        assert(m =~= "<@"@ + id + ">"@);
    }
}

/// Whether the mention `m` stands in the line before index `n`.
pub open spec fn mentions_before(line: Seq<char>, n: int, m: Seq<char>) -> bool {
    exists|i: int| 0 <= i < n && #[trigger] mention_at(line, i) && mention_text(line, i) == m
}

/// Every mention of a line is collected, behind those that were collected before, and
/// nothing else is.
pub proof fn law_line_mentions(line: Seq<char>, n: int, seen: Seq<Seq<char>>)
    requires
        n <= line.len(),
    ensures
        seen.is_prefix_of(line_mentions(line, n, seen)),
        forall|i: int|
            0 <= i < n && #[trigger] mention_at(line, i) ==> line_mentions(line, n, seen).contains(
                mention_text(line, i),
            ),
        forall|k: int|
            seen.len() <= k < line_mentions(line, n, seen).len() ==> mentions_before(
                line,
                n,
                #[trigger] line_mentions(line, n, seen)[k],
            ),
    decreases n,
{
    if n > 0 {
        law_line_mentions(line, n - 1, seen);
        let before = line_mentions(line, n - 1, seen);
        let after = line_mentions(line, n, seen);
        assert(before.is_prefix_of(after));
        assert forall|i: int| 0 <= i < n && #[trigger] mention_at(line, i) implies after.contains(
            mention_text(line, i),
        ) by {
            let m = mention_text(line, i);
            if i < n - 1 {
                let k = choose|k: int| 0 <= k < before.len() && before[k] == m;
                assert(after[k] == m);
            } else if before.contains(m) {
            } else {
                assert(after.last() == m);
            }
        }
        assert forall|k: int| seen.len() <= k < after.len() implies mentions_before(
            line,
            n,
            #[trigger] after[k],
        ) by {
            if k < before.len() {
                assert(after[k] == before[k]);
                assert(mentions_before(line, n - 1, before[k]));
                let i = choose|i: int|
                    0 <= i < n - 1 && #[trigger] mention_at(line, i) && mention_text(line, i)
                        == before[k];
                assert(0 <= i < n && mention_at(line, i));
            } else {
                assert(mention_at(line, n - 1));
            }
        }
    }
}

/// Lines are looked at one by one. A line that begins with three backticks opens or
/// closes a fence and is not looked at; nor is a line inside a fence.
pub proof fn law_fenced_lines_are_skipped(
    line: Seq<char>,
    rest: Seq<char>,
    in_fence: bool,
    seen: Seq<Seq<char>>,
)
    requires
        !line.contains('\n'),
    ensures
        ({
            let s = line.push('\n') + rest;
            let fence = line.len() >= 3 && line[0] == '`' && line[1] == '`' && line[2] == '`';
            &&& fence ==> text_mentions(s, in_fence, seen) == text_mentions(rest, !in_fence, seen)
                && text_mentions(line, in_fence, seen) == seen
            &&& !fence && in_fence ==> text_mentions(s, in_fence, seen) == text_mentions(
                rest,
                true,
                seen,
            ) && text_mentions(line, in_fence, seen) == seen
            &&& !fence && !in_fence ==> text_mentions(s, in_fence, seen) == text_mentions(
                rest,
                false,
                line_mentions(line, line.len() as int, seen),
            ) && text_mentions(line, in_fence, seen) == line_mentions(
                line,
                line.len() as int,
                seen,
            )
        }),
{
    reveal_strlit("```");
    let s = line.push('\n') + rest;
    let n = line.len() as int;
    crate::text::lemma_find_char_from(s, '\n', 0);
    crate::text::lemma_find_char_from(line, '\n', 0);
    assert(s[n] == '\n');
    assert forall|j: int| 0 <= j < n implies s[j] != '\n' by {
        assert(line.contains(line[j]));
        assert(s[j] == line[j]);
    }
    assert(find_char_from(s, '\n', 0) == Some(n));
    if let Some(k) = find_char_from(line, '\n', 0) {
        assert(line.contains(line[k]));
    }
    assert(s.take(n) =~= line);
    assert(line.take(n) =~= line);
    assert(s.skip(n + 1) =~= rest);
    if line.len() >= 3 {
        if line[0] == '`' && line[1] == '`' && line[2] == '`' {
            assert(line.subrange(0, 3) =~= "```"@);
        }
        if has_prefix(line, "```"@) {
            assert(line.subrange(0, 3)[0] == '`' && line.subrange(0, 3)[1] == '`'
                && line.subrange(0, 3)[2] == '`');
        }
    }
}

proof fn lemma_mention_in_line(s: Seq<char>, i: int, end: int)
    requires
        mention_at(s, i),
        i < end <= s.len(),
        end < s.len() ==> s[end] == '\n',
    ensures
        mention_at(s.take(end), i),
        mention_text(s.take(end), i) == mention_text(s, i),
{
    let line = s.take(end);
    let start = mention_digits(s, i);
    let e = digits_end(s, start);
    lemma_digits_end(s, start);
    assert(e < end) by {
        if e >= end {
            assert(i < end <= e);
            if end >= start {
                if end < e {
                    assert(is_digit(s[end]));
                }
            }
        }
    }
    assert forall|j: int| start <= j < e implies is_digit(#[trigger] line[j]) by {
        assert(is_digit(s[j]));
    }
    lemma_digits_run(line, start, e);
    assert(mention_digits(line, i) == start);
    assert(line.subrange(start, e) =~= s.subrange(start, e));
}

proof fn lemma_mention_behind_line(s: Seq<char>, i: int, n: int)
    requires
        mention_at(s, i),
        0 <= n <= i,
    ensures
        mention_at(s.skip(n), i - n),
        mention_text(s.skip(n), i - n) == mention_text(s, i),
{
    let t = s.skip(n);
    let start = mention_digits(s, i);
    let e = digits_end(s, start);
    lemma_digits_end(s, start);
    assert(mention_digits(t, i - n) == start - n);
    assert forall|j: int| start - n <= j < e - n implies is_digit(#[trigger] t[j]) by {
        assert(is_digit(s[j + n]));
    }
    lemma_digits_run(t, start - n, e - n);
    assert(t.subrange(start - n, e - n) =~= s.subrange(start, e));
}

/// In a reply without fences every mention is collected.
pub proof fn law_every_mention_is_collected(s: Seq<char>, seen: Seq<Seq<char>>, i: int)
    requires
        !contains(s, "```"@),
        mention_at(s, i),
    ensures
        seen.is_prefix_of(text_mentions(s, false, seen)),
        text_mentions(s, false, seen).contains(mention_text(s, i)),
    decreases s.len(),
{
    crate::text::lemma_find_from(s, "```"@, 0);
    crate::text::lemma_find_char_from(s, '\n', 0);
    let end = match find_char_from(s, '\n', 0) {
        Some(k) => k,
        None => s.len() as int,
    };
    let line = s.take(end);
    assert(!has_prefix(line, "```"@)) by {
        if has_prefix(line, "```"@) {
            assert(line.subrange(0, "```"@.len() as int) =~= s.subrange(0, "```"@.len() as int));
            assert(occurs_at(s, "```"@, 0));
        }
    }
    law_line_mentions(line, end, seen);
    let here = line_mentions(line, end, seen);
    if end < s.len() {
        let rest = s.skip(end + 1);
        lemma_no_fence_behind(s, end + 1);
        lemma_collected_grow(rest, false, here);
        if i < end {
            lemma_mention_in_line(s, i, end);
            let k = choose|k: int| 0 <= k < here.len() && here[k] == mention_text(s, i);
            assert(text_mentions(rest, false, here)[k] == mention_text(s, i));
        } else {
            assert(i != end);
            lemma_mention_behind_line(s, i, end + 1);
            law_every_mention_is_collected(rest, here, i - end - 1);
        }
    } else {
        lemma_mention_in_line(s, i, end);
    }
}

proof fn lemma_no_fence_behind(s: Seq<char>, n: int)
    requires
        !contains(s, "```"@),
        0 <= n <= s.len(),
    ensures
        !contains(s.skip(n), "```"@),
{
    let t = s.skip(n);
    crate::text::lemma_find_from(s, "```"@, 0);
    crate::text::lemma_find_from(t, "```"@, 0);
    if let Some(k) = crate::text::find(t, "```"@) {
        assert(t.subrange(k, k + "```"@.len()) =~= s.subrange(n + k, n + k + "```"@.len()));
        assert(occurs_at(s, "```"@, n + k));
    }
}

proof fn lemma_collected_grow(s: Seq<char>, in_fence: bool, seen: Seq<Seq<char>>)
    ensures
        seen.is_prefix_of(text_mentions(s, in_fence, seen)),
    decreases s.len(),
{
    crate::text::lemma_find_char_from(s, '\n', 0);
    let end = match find_char_from(s, '\n', 0) {
        Some(k) => k,
        None => s.len() as int,
    };
    let line = s.take(end);
    let fence = has_prefix(line, "```"@);
    law_line_mentions(line, line.len() as int, seen);
    let seen2 = if fence || in_fence {
        seen
    } else {
        line_mentions(line, line.len() as int, seen)
    };
    if end < s.len() {
        lemma_collected_grow(
            s.skip(end + 1),
            if fence {
                !in_fence
            } else {
                in_fence
            },
            seen2,
        );
    }
}

/// What is put below a part: a line break and the mentions, with a space between each two.
pub proof fn law_mention_footer(ms: Seq<Seq<char>>, m: Seq<char>)
    ensures
        mention_footer(Seq::empty()) == Seq::<char>::empty(),
        mention_footer(seq![m]) == "\n"@ + m,
        ms.len() > 0 ==> mention_footer(ms.push(m)) == mention_footer(ms) + " "@ + m,
{
    assert(ms.push(m).drop_last() =~= ms);
    assert(join(seq![m], " "@) == m);
    if ms.len() > 0 {
        assert(mention_footer(ms.push(m)) =~= mention_footer(ms) + " "@ + m);
    }
}

/// The mentions that a part lacks are those that do not occur in it, in their order.
pub proof fn law_missing_mentions(chunk: Seq<char>, ms: Seq<Seq<char>>, m: Seq<char>)
    ensures
        missing_mentions(chunk, Seq::empty()) == Seq::<Seq<char>>::empty(),
        missing_mentions(chunk, ms.push(m)) == (if contains(chunk, m) {
            missing_mentions(chunk, ms)
        } else {
            missing_mentions(chunk, ms).push(m)
        }),
{
    reveal(Seq::filter);
    assert(ms.push(m).drop_last() =~= ms);
    assert(missing_mentions(chunk, Seq::empty()) =~= Seq::<Seq<char>>::empty());
}

/// A part is kept as it is where the mentions that it lacks do not fit, and otherwise
/// followed by them; a single part is never changed, and each part is treated alike.
pub proof fn law_part_with_mentions(
    chunks: Seq<Seq<char>>,
    mentions: Seq<Seq<char>>,
    limit: nat,
    c: int,
)
    requires
        0 <= c < chunks.len(),
    ensures
        ({
            let out = chunks_with_mentions(chunks, mentions, limit);
            let footer = mention_footer(missing_mentions(chunks[c], mentions));
            &&& out.len() == chunks.len()
            &&& chunks.len() == 1 ==> out == chunks
            &&& chunks.len() > 1 && chunks[c].len() + footer.len() <= limit ==> out[c] == chunks[c]
                + footer
            &&& chunks.len() > 1 && chunks[c].len() + footer.len() > limit ==> out[c] == chunks[c]
        }),
{
}

} // verus!
