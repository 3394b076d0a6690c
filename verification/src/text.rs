//! Text as sequences of characters: searching, trimming, splitting and rendering.

use vstd::prelude::*;

verus! {

/// `String::push` appends one character.
pub assume_specification[ String::push ](s: &mut String, ch: char)
    ensures
        final(s)@ == old(s)@.push(ch),
;

/// The characters that Unicode marks `White_Space`.
pub open spec fn is_white(c: char) -> bool {
    let n = c as u32;
    ||| 0x9 <= n <= 0xd
    ||| n == 0x20
    ||| n == 0x85
    ||| n == 0xa0
    ||| n == 0x1680
    ||| 0x2000 <= n <= 0x200a
    ||| n == 0x2028
    ||| n == 0x2029
    ||| n == 0x202f
    ||| n == 0x205f
    ||| n == 0x3000
}

/// `char::is_whitespace` decides the Unicode property `White_Space`.
pub assume_specification[ char::is_whitespace ](c: char) -> (b: bool)
    ensures
        b == is_white(c),
;

/// The lower-case form of a text.
pub uninterp spec fn lowercase(s: Seq<char>) -> Seq<char>;

/// Whether a text holds ASCII characters only.
pub open spec fn is_ascii_text(s: Seq<char>) -> bool {
    forall|i: int| 0 <= i < s.len() ==> (#[trigger] s[i] as u32) < 128
}

/// An ASCII character in lower case.
pub open spec fn ascii_lower(c: char) -> char {
    if 'A' <= c <= 'Z' {
        (c as u32 + 32) as char
    } else {
        c
    }
}

/// A text with its ASCII letters in lower case.
pub open spec fn ascii_lowered(s: Seq<char>) -> Seq<char> {
    s.map_values(|c: char| ascii_lower(c))
}

/// An ASCII character in upper case.
pub open spec fn ascii_upper(c: char) -> char {
    if 'a' <= c <= 'z' {
        (c as u32 - 32) as char
    } else {
        c
    }
}

/// A text with its ASCII letters in upper case.
pub open spec fn ascii_raised(s: Seq<char>) -> Seq<char> {
    s.map_values(|c: char| ascii_upper(c))
}

/// `str::to_lowercase` maps a text by Unicode's lower-case mapping, which depends
/// on the text alone. On ASCII text it maps each letter. ASCII letters that are in
/// lower case already change nothing. Of all characters outside ASCII only the Kelvin
/// sign becomes one of ASCII, a `k`, and none disappears.
pub assume_specification[ str::to_lowercase ](s: &str) -> (r: String)
    ensures
        r@ == lowercase(s@),
        is_ascii_text(s@) ==> r@ == ascii_lowered(s@),
        r@ == lowercase(ascii_lowered(s@)),
        is_ascii_text(r@) && !r@.contains('k') ==> is_ascii_text(s@),
;

/// The characters of `s`, in order.
pub fn chars_of(s: &str) -> (out: Vec<char>)
    ensures
        out@ == s@,
{
    let mut out: Vec<char> = Vec::new();
    for c in it: s.chars()
        invariant
            out@ == s@.take(it.index() as int),
            it.seq() == s@,
    {
        out.push(c);
        assert(s@.take(it.index() as int + 1) =~= s@.take(it.index() as int).push(c));
    }
    assert(s@.take(s@.len() as int) =~= s@);
    out
}

/// The number of bytes of `s` in UTF-8.
pub fn byte_len(s: &str) -> (n: usize)
    ensures
        n == vstd::utf8::encode_utf8(s@).len(),
{
    s.as_bytes().len()
}

/// The string made of `chars`.
pub fn string_of(chars: &[char]) -> (out: String)
    ensures
        out@ == chars@,
{
    let mut out = String::new();
    let mut i: usize = 0;
    while i < chars.len()
        invariant
            i <= chars@.len(),
            out@ == chars@.take(i as int),
        decreases chars@.len() - i,
    {
        out.push(chars[i]);
        i += 1;
        assert(chars@.take(i as int) =~= chars@.take(i - 1).push(chars@[i - 1]));
    }
    assert(chars@.take(chars@.len() as int) =~= chars@);
    out
}

/// Whether `pat` occurs in `s` at index `i`.
pub open spec fn occurs_at(s: Seq<char>, pat: Seq<char>, i: int) -> bool {
    0 <= i && i + pat.len() <= s.len() && s.subrange(i, i + pat.len()) == pat
}

/// Whether `s` begins with `pat`.
pub open spec fn has_prefix(s: Seq<char>, pat: Seq<char>) -> bool {
    occurs_at(s, pat, 0)
}

/// Whether `s` ends with `pat`.
pub open spec fn has_suffix(s: Seq<char>, pat: Seq<char>) -> bool {
    occurs_at(s, pat, s.len() - pat.len())
}

/// The least index, not below `i`, at which `pat` occurs in `s`.
pub open spec fn find_from(s: Seq<char>, pat: Seq<char>, i: int) -> Option<int>
    decreases s.len() + 1 - i,
{
    if i < 0 || i + pat.len() > s.len() {
        None
    } else if occurs_at(s, pat, i) {
        Some(i)
    } else {
        find_from(s, pat, i + 1)
    }
}

/// The least index at which `pat` occurs in `s`.
pub open spec fn find(s: Seq<char>, pat: Seq<char>) -> Option<int> {
    find_from(s, pat, 0)
}

/// Whether `pat` occurs anywhere in `s`.
pub open spec fn contains(s: Seq<char>, pat: Seq<char>) -> bool {
    find(s, pat) is Some
}

/// The least index, not below `i`, of the character `c` in `s`.
pub open spec fn find_char_from(s: Seq<char>, c: char, i: int) -> Option<int>
    decreases s.len() - i,
{
    if i < 0 || i >= s.len() {
        None
    } else if s[i] == c {
        Some(i)
    } else {
        find_char_from(s, c, i + 1)
    }
}

/// The parts of `s` before and after the first `c`.
pub open spec fn split_once(s: Seq<char>, c: char) -> Option<(Seq<char>, Seq<char>)> {
    match find_char_from(s, c, 0) {
        Some(i) => Some((s.take(i), s.skip(i + 1))),
        None => None,
    }
}

/// `s` without the white space at its start.
pub open spec fn trim_start(s: Seq<char>) -> Seq<char>
    decreases s.len(),
{
    if s.len() > 0 && is_white(s[0]) {
        trim_start(s.skip(1))
    } else {
        s
    }
}

/// `s` without the white space at its end.
pub open spec fn trim_end(s: Seq<char>) -> Seq<char>
    decreases s.len(),
{
    if s.len() > 0 && is_white(s.last()) {
        trim_end(s.drop_last())
    } else {
        s
    }
}

/// `s` without the white space at either end.
pub open spec fn trim(s: Seq<char>) -> Seq<char> {
    trim_end(trim_start(s))
}

/// ASCII digits.
pub open spec fn is_digit(c: char) -> bool {
    '0' <= c <= '9'
}

/// ASCII letters and digits.
pub open spec fn is_alnum(c: char) -> bool {
    is_digit(c) || 'a' <= c <= 'z' || 'A' <= c <= 'Z'
}

/// A found index is the first one at which the pattern occurs.
pub proof fn lemma_find_from(s: Seq<char>, pat: Seq<char>, i: int)
    requires
        0 <= i,
    ensures
        match find_from(s, pat, i) {
            Some(k) => i <= k && occurs_at(s, pat, k) && forall|j: int|
                i <= j < k ==> !occurs_at(s, pat, j),
            None => forall|j: int| i <= j ==> !occurs_at(s, pat, j),
        },
    decreases s.len() + 1 - i,
{
    if i + pat.len() > s.len() {
    } else if occurs_at(s, pat, i) {
    } else {
        lemma_find_from(s, pat, i + 1);
    }
}

/// A text contains a pattern where the pattern occurs at some index.
pub proof fn lemma_contains_at(s: Seq<char>, pat: Seq<char>, k: int)
    requires
        occurs_at(s, pat, k),
    ensures
        contains(s, pat),
{
    lemma_find_from(s, pat, 0);
}

/// Searching may start at any index before which the pattern does not occur.
pub proof fn lemma_find_skip(s: Seq<char>, pat: Seq<char>, i: int, k: int)
    requires
        0 <= i <= k,
        forall|j: int| i <= j < k ==> !occurs_at(s, pat, j),
    ensures
        find_from(s, pat, i) == find_from(s, pat, k),
    decreases k - i,
{
    if i < k {
        if i + pat.len() <= s.len() {
            lemma_find_skip(s, pat, i + 1, k);
        } else {
            lemma_find_from(s, pat, k);
        }
    }
}

/// A found character is the first one.
pub proof fn lemma_find_char_from(s: Seq<char>, c: char, i: int)
    requires
        0 <= i,
    ensures
        match find_char_from(s, c, i) {
            Some(k) => i <= k < s.len() && s[k] == c && forall|j: int| i <= j < k ==> s[j] != c,
            None => forall|j: int| i <= j < s.len() ==> s[j] != c,
        },
    decreases s.len() - i,
{
    if i < s.len() && s[i] != c {
        lemma_find_char_from(s, c, i + 1);
    }
}

/// Trimming gives a part of the text.
pub proof fn lemma_trim_start_len(s: Seq<char>)
    ensures
        trim_start(s).len() <= s.len(),
    decreases s.len(),
{
    if s.len() > 0 && is_white(s[0]) {
        lemma_trim_start_len(s.skip(1));
    }
}

/// A text that trimming leaves alone has no white space at either end.
pub proof fn lemma_trimmed_ends(s: Seq<char>)
    requires
        trim(s) == s,
        s.len() > 0,
    ensures
        !is_white(s[0]),
        !is_white(s.last()),
{
    lemma_trim_start_len(s);
    lemma_trim_end_len(trim_start(s));
    if is_white(s[0]) {
        lemma_trim_start_len(s.skip(1));
    } else if is_white(s.last()) {
        lemma_trim_end_len(s.drop_last());
    }
}

/// Trimming gives a part of the text.
pub proof fn lemma_trim_end_len(s: Seq<char>)
    ensures
        trim_end(s).len() <= s.len(),
    decreases s.len(),
{
    if s.len() > 0 && is_white(s.last()) {
        lemma_trim_end_len(s.drop_last());
    }
}

/// Replacing each space by nothing leaves the other characters.
pub proof fn lemma_replace_space(s: Seq<char>)
    ensures
        replace(s, " "@, ""@) == s.filter(|c: char| c != ' '),
    decreases s.len(),
{
    reveal_strlit(" ");
    reveal_strlit("");
    let pred = |c: char| c != ' ';
    lemma_find_from(s, " "@, 0);
    match find(s, " "@) {
        Some(i) => {
            assert(s.subrange(i, i + 1)[0] == ' ');
            let front = s.take(i);
            let rest = s.skip(i + 1);
            assert forall|j: int| 0 <= j < front.len() implies pred(#[trigger] front[j]) by {
                if s[j] == ' ' {
                    assert(s.subrange(j, j + 1) =~= " "@);
                    assert(occurs_at(s, " "@, j));
                }
            }
            lemma_filter_all(front, pred);
            lemma_replace_space(rest);
            assert(s =~= front + seq![' '] + rest);
            Seq::filter_distributes_over_add(front + seq![' '], rest, pred);
            Seq::filter_distributes_over_add(front, seq![' '], pred);
            assert(seq![' '].filter(pred) =~= Seq::<char>::empty()) by {
                reveal(Seq::filter);
                assert(seq![' '].drop_last() =~= Seq::<char>::empty());
            }
            assert(replace(s, " "@, ""@) =~= s.filter(pred));
        },
        None => {
            assert forall|j: int| 0 <= j < s.len() implies pred(#[trigger] s[j]) by {
                if s[j] == ' ' {
                    assert(s.subrange(j, j + 1) =~= " "@);
                    assert(occurs_at(s, " "@, j));
                }
            }
            lemma_filter_all(s, pred);
        },
    }
}

/// A filter that every character passes changes nothing.
pub proof fn lemma_filter_all(s: Seq<char>, pred: spec_fn(char) -> bool)
    requires
        forall|i: int| 0 <= i < s.len() ==> pred(#[trigger] s[i]),
    ensures
        s.filter(pred) == s,
    decreases s.len(),
{
    reveal(Seq::filter);
    if s.len() > 0 {
        let front = s.drop_last();
        assert forall|i: int| 0 <= i < front.len() implies pred(#[trigger] front[i]) by {
            assert(front[i] == s[i]);
        }
        lemma_filter_all(front, pred);
        assert(pred(s[s.len() - 1]));
        assert(front.push(s.last()) =~= s);
    } else {
        assert(s.filter(pred) =~= s);
    }
}

/// Whether two character slices hold the same text.
pub fn same(a: &[char], b: &[char]) -> (r: bool)
    ensures
        r == (a@ == b@),
{
    if a.len() != b.len() {
        return false;
    }
    let mut i: usize = 0;
    while i < a.len()
        invariant
            i <= a@.len(),
            a@.len() == b@.len(),
            a@.take(i as int) == b@.take(i as int),
        decreases a@.len() - i,
    {
        if a[i] != b[i] {
            assert(a@[i as int] != b@[i as int]);
            return false;
        }
        i += 1;
        assert(a@.take(i as int) =~= a@.take(i - 1).push(a@[i - 1]));
        assert(b@.take(i as int) =~= b@.take(i - 1).push(b@[i - 1]));
    }
    assert(a@.take(i as int) =~= a@);
    assert(b@.take(i as int) =~= b@);
    true
}

/// Whether a character slice holds the text of `b`.
pub fn is_text(a: &[char], b: &str) -> (r: bool)
    ensures
        r == (a@ == b@),
{
    let b = chars_of(b);
    same(a, b.as_slice())
}

/// Whether `pat` occurs in `s` at index `i`.
pub fn is_at(s: &[char], pat: &[char], i: usize) -> (r: bool)
    ensures
        r == occurs_at(s@, pat@, i as int),
{
    if i > s.len() || pat.len() > s.len() - i {
        return false;
    }
    same(vstd::slice::slice_subrange(s, i, i + pat.len()), pat)
}

/// Whether `s` begins with `pat`.
pub fn starts_with(s: &[char], pat: &str) -> (r: bool)
    ensures
        r == has_prefix(s@, pat@),
{
    let pat = chars_of(pat);
    is_at(s, pat.as_slice(), 0)
}

/// Whether `s` ends with `pat`.
pub fn ends_with(s: &[char], pat: &str) -> (r: bool)
    ensures
        r == has_suffix(s@, pat@),
{
    let pat = chars_of(pat);
    if pat.len() > s.len() {
        return false;
    }
    is_at(s, pat.as_slice(), s.len() - pat.len())
}

/// The least index, not below `start`, at which `pat` occurs in `s`.
pub fn index_from(s: &[char], pat: &str, start: usize) -> (r: Option<usize>)
    ensures
        match r {
            Some(k) => find_from(s@, pat@, start as int) == Some(k as int) && start <= k && k
                + pat@.len() <= s@.len() && k + pat@.len() <= usize::MAX,
            None => find_from(s@, pat@, start as int) is None,
        },
{
    let p = chars_of(pat);
    let mut i: usize = start;
    while i <= s.len() && p.len() <= s.len() - i
        invariant
            p@ == pat@,
            start <= i,
            find_from(s@, pat@, start as int) == find_from(s@, pat@, i as int),
        decreases s@.len() + 1 - i,
    {
        if is_at(s, p.as_slice(), i) {
            return Some(i);
        }
        if i == s.len() {
            assert(find_from(s@, pat@, i + 1) is None);
            return None;
        }
        i += 1;
    }
    None
}

/// The least index at which `pat` occurs in `s`.
pub fn index_of(s: &[char], pat: &str) -> (r: Option<usize>)
    ensures
        match r {
            Some(k) => find(s@, pat@) == Some(k as int) && k + pat@.len() <= s@.len() && k
                + pat@.len() <= usize::MAX,
            None => find(s@, pat@) is None,
        },
{
    index_from(s, pat, 0)
}

/// Whether `pat` occurs anywhere in `s`.
pub fn has(s: &[char], pat: &str) -> (r: bool)
    ensures
        r == contains(s@, pat@),
{
    index_of(s, pat).is_some()
}

/// The least index, not below `start`, of the character `c` in `s`.
pub fn index_of_char(s: &[char], c: char, start: usize) -> (r: Option<usize>)
    ensures
        match r {
            Some(k) => find_char_from(s@, c, start as int) == Some(k as int) && start <= k
                < s@.len() && k < usize::MAX,
            None => find_char_from(s@, c, start as int) is None,
        },
{
    let mut i: usize = start;
    while i < s.len()
        invariant
            start <= i,
            find_char_from(s@, c, start as int) == find_char_from(s@, c, i as int),
        decreases s@.len() - i,
    {
        if s[i] == c {
            return Some(i);
        }
        i += 1;
    }
    None
}

/// The first `n` characters.
pub fn take(s: &[char], n: usize) -> (r: &[char])
    requires
        n <= s@.len(),
    ensures
        r@ == s@.take(n as int),
{
    vstd::slice::slice_subrange(s, 0, n)
}

/// All but the first `n` characters.
pub fn skip(s: &[char], n: usize) -> (r: &[char])
    requires
        n <= s@.len(),
    ensures
        r@ == s@.skip(n as int),
{
    vstd::slice::slice_subrange(s, n, s.len())
}

/// The parts of `s` before and after the first `c`.
pub fn cut_once(s: &[char], c: char) -> (r: Option<(&[char], &[char])>)
    ensures
        match r {
            Some((a, b)) => split_once(s@, c) == Some((a@, b@)),
            None => split_once(s@, c) is None,
        },
{
    match index_of_char(s, c, 0) {
        Some(i) => Some((take(s, i), skip(s, i + 1))),
        None => None,
    }
}

/// `s` without the white space at its start.
pub fn trimmed_start(s: &[char]) -> (r: &[char])
    ensures
        r@ == trim_start(s@),
{
    let mut i: usize = 0;
    assert(s@.skip(0) =~= s@);
    while i < s.len() && s[i].is_whitespace()
        invariant
            i <= s@.len(),
            trim_start(s@) == trim_start(s@.skip(i as int)),
        decreases s@.len() - i,
    {
        assert(s@.skip(i as int).skip(1) =~= s@.skip(i + 1));
        i += 1;
    }
    skip(s, i)
}

/// `s` without the white space at its end.
pub fn trimmed_end(s: &[char]) -> (r: &[char])
    ensures
        r@ == trim_end(s@),
{
    let mut i: usize = s.len();
    assert(s@.take(i as int) =~= s@);
    while i > 0 && s[i - 1].is_whitespace()
        invariant
            i <= s@.len(),
            trim_end(s@) == trim_end(s@.take(i as int)),
        decreases i,
    {
        assert(s@.take(i as int).drop_last() =~= s@.take(i - 1));
        i -= 1;
    }
    take(s, i)
}

/// `s` without the white space at either end.
pub fn trimmed(s: &[char]) -> (r: &[char])
    ensures
        r@ == trim(s@),
{
    trimmed_end(trimmed_start(s))
}

/// Whether `c` is an ASCII digit.
pub fn digit(c: char) -> (r: bool)
    ensures
        r == is_digit(c),
{
    '0' <= c && c <= '9'
}

/// Whether `c` is an ASCII letter or digit.
pub fn alnum(c: char) -> (r: bool)
    ensures
        r == is_alnum(c),
{
    digit(c) || ('a' <= c && c <= 'z') || ('A' <= c && c <= 'Z')
}

/// Appends the characters of `more` to `out`.
pub fn extend(out: &mut Vec<char>, more: &[char])
    ensures
        final(out)@ == old(out)@ + more@,
{
    let mut i: usize = 0;
    while i < more.len()
        invariant
            i <= more@.len(),
            out@ == old(out)@ + more@.take(i as int),
        decreases more@.len() - i,
    {
        out.push(more[i]);
        i += 1;
        assert(more@.take(i as int) =~= more@.take(i - 1).push(more@[i - 1]));
    }
    assert(more@.take(i as int) =~= more@);
}

/// The digit `d`, which is below ten.
pub open spec fn digit_char(d: nat) -> char {
    ('0' as u32 + d) as char
}

/// `n` in decimal, without leading zeros.
pub open spec fn decimal(n: nat) -> Seq<char>
    decreases n,
{
    if n < 10 {
        seq![digit_char(n)]
    } else {
        decimal(n / 10).push(digit_char(n % 10))
    }
}

/// `n` in decimal.
pub fn render_u64(n: u64) -> (out: String)
    ensures
        out@ == decimal(n as nat),
    decreases n,
{
    let d: u8 = (n % 10) as u8;
    let c: char = (48u8 + d) as char;
    if n < 10 {
        let mut out = String::new();
        out.push(c);
        assert(out@ =~= decimal(n as nat));
        out
    } else {
        let mut out = render_u64(n / 10);
        out.push(c);
        out
    }
}

/// `n` in decimal.
pub fn render_usize(n: usize) -> (out: String)
    ensures
        out@ == decimal(n as nat),
{
    render_u64(n as u64)
}

/// The texts of a list of strings.
pub open spec fn texts(v: Seq<String>) -> Seq<Seq<char>> {
    v.map_values(|s: String| s@)
}

/// The text of an optional string.
pub open spec fn opt_text(v: Option<String>) -> Option<Seq<char>> {
    match v {
        Some(s) => Some(s@),
        None => None,
    }
}

/// The texts of `parts`, with `sep` between each two neighbours.
pub open spec fn join(parts: Seq<Seq<char>>, sep: Seq<char>) -> Seq<char>
    decreases parts.len(),
{
    if parts.len() == 0 {
        Seq::empty()
    } else if parts.len() == 1 {
        parts[0]
    } else {
        join(parts.drop_last(), sep) + sep + parts.last()
    }
}

/// The texts of `parts`, with `sep` between each two neighbours.
pub fn joined(parts: &[String], sep: &str) -> (out: String)
    ensures
        out@ == join(texts(parts@), sep@),
{
    let mut out = String::new();
    let mut i: usize = 0;
    while i < parts.len()
        invariant
            i <= parts@.len(),
            out@ == join(texts(parts@).take(i as int), sep@),
        decreases parts@.len() - i,
    {
        if i > 0 {
            out.append(sep);
        }
        out.append(parts[i].as_str());
        i += 1;
        let ghost t = texts(parts@).take(i as int);
        assert(t.drop_last() =~= texts(parts@).take(i - 1));
        assert(t.last() == parts@[i - 1]@);
        if i == 1 {
            assert(out@ =~= t[0]);
        }
    }
    assert(texts(parts@).take(i as int) =~= texts(parts@));
    out
}

/// A copy of a list of strings.
pub fn copy_texts(v: &[String]) -> (out: Vec<String>)
    ensures
        texts(out@) == texts(v@),
{
    let mut out: Vec<String> = Vec::new();
    let mut i: usize = 0;
    while i < v.len()
        invariant
            i <= v@.len(),
            texts(out@) == texts(v@).take(i as int),
        decreases v@.len() - i,
    {
        let ghost before = out@;
        out.push(v[i].clone());
        i += 1;
        assert(texts(out@) =~= texts(before).push(v@[i - 1]@));
        assert(texts(v@).take(i as int) =~= texts(v@).take(i - 1).push(v@[i - 1]@));
    }
    assert(texts(v@).take(i as int) =~= texts(v@));
    out
}

/// A copy of an optional string.
pub fn copy_opt(v: &Option<String>) -> (out: Option<String>)
    ensures
        opt_text(out) == opt_text(*v),
{
    match v {
        Some(s) => Some(s.clone()),
        None => None,
    }
}

/// The parts of `s` between the occurrences of `c`.
pub open spec fn split(s: Seq<char>, c: char) -> Seq<Seq<char>>
    decreases s.len(),
    via split_decreases
{
    match find_char_from(s, c, 0) {
        Some(i) => seq![s.take(i)] + split(s.skip(i + 1), c),
        None => seq![s],
    }
}

#[via_fn]
proof fn split_decreases(s: Seq<char>, c: char) {
    lemma_find_char_from(s, c, 0);
}

/// The parts of `s` between the occurrences of `c`.
pub fn split_all(s: &[char], c: char) -> (out: Vec<String>)
    ensures
        texts(out@) == split(s@, c),
{
    let mut out: Vec<String> = Vec::new();
    let mut rest = s;
    assert(texts(out@) + split(s@, c) =~= split(s@, c));
    loop
        invariant
            texts(out@) + split(rest@, c) == split(s@, c),
        decreases rest@.len(),
    {
        let ghost before = out@;
        match index_of_char(rest, c, 0) {
            Some(i) => {
                let ghost old_rest = rest@;
                out.push(string_of(take(rest, i)));
                rest = skip(rest, i + 1);
                assert(texts(out@) =~= texts(before).push(old_rest.take(i as int)));
                assert(texts(out@) + split(rest@, c) =~= texts(before) + split(old_rest, c));
            },
            None => {
                out.push(string_of(rest));
                assert(texts(out@) =~= texts(before) + split(rest@, c));
                return out;
            },
        }
    }
}

/// The number of characters before the first white space.
pub open spec fn word_len(s: Seq<char>) -> int
    decreases s.len(),
{
    if s.len() == 0 || is_white(s[0]) {
        0
    } else {
        1 + word_len(s.skip(1))
    }
}

proof fn lemma_word_len(s: Seq<char>)
    ensures
        0 <= word_len(s) <= s.len(),
        s.len() > 0 && !is_white(s[0]) ==> word_len(s) > 0,
    decreases s.len(),
{
    if s.len() > 0 && !is_white(s[0]) {
        lemma_word_len(s.skip(1));
    }
}

/// After trimming, the text is empty or starts with something visible.
pub proof fn lemma_trim_start_head(s: Seq<char>)
    ensures
        trim_start(s).len() > 0 ==> !is_white(trim_start(s)[0]),
    decreases s.len(),
{
    if s.len() > 0 && is_white(s[0]) {
        lemma_trim_start_head(s.skip(1));
    }
}

/// The words of `s`, which white space separates.
pub open spec fn words(s: Seq<char>) -> Seq<Seq<char>>
    decreases s.len(),
    via words_decreases
{
    let t = trim_start(s);
    if t.len() == 0 {
        Seq::empty()
    } else {
        seq![t.take(word_len(t))] + words(t.skip(word_len(t)))
    }
}

#[via_fn]
proof fn words_decreases(s: Seq<char>) {
    lemma_trim_start_len(s);
    lemma_trim_start_head(s);
    lemma_word_len(trim_start(s));
}

/// The words of `s`, which white space separates.
pub fn split_words(s: &[char]) -> (out: Vec<String>)
    ensures
        texts(out@) == words(s@),
{
    let mut out: Vec<String> = Vec::new();
    let mut rest = s;
    assert(texts(out@) + words(s@) =~= words(s@));
    loop
        invariant
            texts(out@) + words(rest@) == words(s@),
        decreases rest@.len(),
    {
        let ghost old_rest = rest@;
        let t = trimmed_start(rest);
        proof {
            lemma_trim_start_len(rest@);
            lemma_trim_start_head(rest@);
            lemma_word_len(t@);
        }
        if t.len() == 0 {
            assert(texts(out@) + words(rest@) =~= texts(out@));
            return out;
        }
        let mut n: usize = 0;
        assert(t@.skip(0) =~= t@);
        while n < t.len() && !t[n].is_whitespace()
            invariant
                n <= t@.len(),
                word_len(t@) == n + word_len(t@.skip(n as int)),
            decreases t@.len() - n,
        {
            assert(t@.skip(n as int).skip(1) =~= t@.skip(n + 1));
            n += 1;
        }
        let ghost before = out@;
        out.push(string_of(take(t, n)));
        rest = skip(t, n);
        assert(texts(out@) =~= texts(before).push(t@.take(n as int)));
        assert(texts(out@) + words(rest@) =~= texts(before) + words(old_rest));
    }
}

/// The hexadecimal digit `d`, which is below sixteen.
pub open spec fn hex_char(d: nat) -> char {
    if d < 10 {
        digit_char(d)
    } else {
        ('a' as u32 + (d - 10)) as char
    }
}

/// A byte in two hexadecimal digits.
pub open spec fn hex_byte(b: u8) -> Seq<char> {
    seq![hex_char((b / 16) as nat), hex_char((b % 16) as nat)]
}

/// Bytes in hexadecimal, two digits each.
pub open spec fn hex_text(bytes: Seq<u8>) -> Seq<char>
    decreases bytes.len(),
{
    if bytes.len() == 0 {
        Seq::empty()
    } else {
        hex_text(bytes.drop_last()) + hex_byte(bytes.last())
    }
}

/// The hexadecimal digit `d`.
fn hex_digit(d: u8) -> (c: char)
    requires
        d < 16,
    ensures
        c == hex_char(d as nat),
{
    if d < 10 {
        (48u8 + d) as char
    } else {
        (87u8 + d) as char
    }
}

/// Appends a byte in two hexadecimal digits.
pub fn push_hex_byte(out: &mut String, b: u8)
    ensures
        final(out)@ == old(out)@ + hex_byte(b),
{
    out.push(hex_digit(b / 16));
    out.push(hex_digit(b % 16));
    assert(out@ =~= old(out)@ + hex_byte(b));
}

/// Bytes in hexadecimal, two digits each.
pub fn render_hex(bytes: &[u8]) -> (out: String)
    ensures
        out@ == hex_text(bytes@),
{
    let mut out = String::new();
    let mut i: usize = 0;
    while i < bytes.len()
        invariant
            i <= bytes@.len(),
            out@ == hex_text(bytes@.take(i as int)),
        decreases bytes@.len() - i,
    {
        push_hex_byte(&mut out, bytes[i]);
        i += 1;
        let ghost t = bytes@.take(i as int);
        assert(t.drop_last() =~= bytes@.take(i - 1));
        assert(t.last() == bytes@[i - 1]);
    }
    assert(bytes@.take(i as int) =~= bytes@);
    out
}

/// Whether `a` comes before `b` in alphabetical order by character code.
pub open spec fn text_lt(a: Seq<char>, b: Seq<char>) -> bool
    decreases a.len(),
{
    if b.len() == 0 {
        false
    } else if a.len() == 0 {
        true
    } else if a[0] != b[0] {
        a[0] < b[0]
    } else {
        text_lt(a.skip(1), b.skip(1))
    }
}

/// Of two different texts one comes first.
pub proof fn lemma_text_lt_total(a: Seq<char>, b: Seq<char>)
    ensures
        text_lt(a, b) || text_lt(b, a) || a == b,
        !(text_lt(a, b) && text_lt(b, a)),
    decreases a.len(),
{
    if a.len() == 0 || b.len() == 0 {
        if a.len() == b.len() {
            assert(a =~= b);
        }
    } else if a[0] == b[0] {
        lemma_text_lt_total(a.skip(1), b.skip(1));
        if a.skip(1) == b.skip(1) {
            assert(a =~= seq![a[0]] + a.skip(1));
            assert(b =~= seq![b[0]] + b.skip(1));
        }
    }
}

/// Whether `a` comes before `b` in alphabetical order by character code.
pub fn comes_before(a: &[char], b: &[char]) -> (r: bool)
    ensures
        r == text_lt(a@, b@),
{
    let mut i: usize = 0;
    assert(a@.skip(0) =~= a@ && b@.skip(0) =~= b@);
    while i < a.len() && i < b.len()
        invariant
            i <= a@.len(),
            i <= b@.len(),
            text_lt(a@, b@) == text_lt(a@.skip(i as int), b@.skip(i as int)),
        decreases a@.len() - i,
    {
        if a[i] != b[i] {
            return a[i] < b[i];
        }
        assert(a@.skip(i as int).skip(1) =~= a@.skip(i + 1));
        assert(b@.skip(i as int).skip(1) =~= b@.skip(i + 1));
        i += 1;
    }
    i < b.len()
}

/// The part of `s` behind the last `c`; all of it where there is none.
pub open spec fn after_last(s: Seq<char>, c: char) -> Seq<char>
    decreases s.len(),
    via after_last_decreases
{
    match find_char_from(s, c, 0) {
        Some(i) => after_last(s.skip(i + 1), c),
        None => s,
    }
}

#[via_fn]
proof fn after_last_decreases(s: Seq<char>, c: char) {
    lemma_find_char_from(s, c, 0);
}

/// The part of `s` behind the last `c`; all of it where there is none.
pub fn last_part(s: &[char], c: char) -> (r: &[char])
    ensures
        r@ == after_last(s@, c),
{
    let mut rest = s;
    loop
        invariant
            after_last(s@, c) == after_last(rest@, c),
        decreases rest@.len(),
    {
        match index_of_char(rest, c, 0) {
            Some(i) => {
                rest = skip(rest, i + 1);
            },
            None => {
                return rest;
            },
        }
    }
}

/// Lower case leaves apart what a character that is no letter separates.
pub proof fn lemma_lowered_find(s: Seq<char>, c: char, i: int)
    requires
        0 <= i,
        !is_alnum(c),
    ensures
        find_char_from(ascii_lowered(s), c, i) == find_char_from(s, c, i),
    decreases s.len() - i,
{
    if i < s.len() && s[i] != c {
        lemma_lowered_find(s, c, i + 1);
    }
}

/// The last part of a text in lower case is its last part, in lower case.
pub proof fn lemma_lowered_after_last(s: Seq<char>, c: char)
    requires
        !is_alnum(c),
    ensures
        after_last(ascii_lowered(s), c) == ascii_lowered(after_last(s, c)),
    decreases s.len(),
{
    lemma_lowered_find(s, c, 0);
    lemma_find_char_from(s, c, 0);
    if let Some(i) = find_char_from(s, c, 0) {
        assert(ascii_lowered(s).skip(i + 1) =~= ascii_lowered(s.skip(i + 1)));
        lemma_lowered_after_last(s.skip(i + 1), c);
    }
}

/// The last part of an ASCII text is ASCII text.
pub proof fn lemma_ascii_after_last(s: Seq<char>, c: char)
    requires
        is_ascii_text(s),
    ensures
        is_ascii_text(after_last(s, c)),
    decreases s.len(),
{
    lemma_find_char_from(s, c, 0);
    if let Some(i) = find_char_from(s, c, 0) {
        lemma_ascii_after_last(s.skip(i + 1), c);
    }
}

/// Upper case is lost in lower case.
pub proof fn lemma_raised_lowered(s: Seq<char>)
    ensures
        ascii_lowered(ascii_raised(s)) == ascii_lowered(s),
{
    assert forall|i: int| 0 <= i < s.len() implies ascii_lowered(ascii_raised(s))[i]
        == ascii_lowered(s)[i] by {
        let c = s[i];
        if 'a' <= c <= 'z' {
            assert(ascii_upper(c) as u32 == c as u32 - 32);
            assert(ascii_lower(ascii_upper(c)) as u32 == c as u32);
            assert(ascii_lower(ascii_upper(c)) == c);
        }
    }
    assert(ascii_lowered(ascii_raised(s)) =~= ascii_lowered(s));
}

/// The part of `s` before the first `c`; all of it where there is none.
pub open spec fn before_first(s: Seq<char>, c: char) -> Seq<char> {
    match find_char_from(s, c, 0) {
        Some(i) => s.take(i),
        None => s,
    }
}

/// The part of `s` before the first `c`; all of it where there is none.
pub fn first_part(s: &[char], c: char) -> (r: &[char])
    ensures
        r@ == before_first(s@, c),
{
    match index_of_char(s, c, 0) {
        Some(i) => take(s, i),
        None => s,
    }
}

/// `s` with each occurrence of `pat`, from left to right, replaced by `with`.
pub open spec fn replace(s: Seq<char>, pat: Seq<char>, with: Seq<char>) -> Seq<char>
    decreases s.len(),
    via replace_decreases
{
    match find(s, pat) {
        Some(i) => if pat.len() > 0 {
            s.take(i) + with + replace(s.skip(i + pat.len()), pat, with)
        } else {
            s
        },
        None => s,
    }
}

#[via_fn]
proof fn replace_decreases(s: Seq<char>, pat: Seq<char>, with: Seq<char>) {
    lemma_find_from(s, pat, 0);
}

/// `s` with each occurrence of `pat` replaced by `with`.
pub fn replaced(s: &[char], pat: &str, with: &str) -> (out: Vec<char>)
    requires
        pat@.len() > 0,
    ensures
        out@ == replace(s@, pat@, with@),
{
    let n: usize = pat.unicode_len();
    let insert = chars_of(with);
    let mut out: Vec<char> = Vec::new();
    let mut rest = s;
    assert(out@ + replace(s@, pat@, with@) =~= replace(s@, pat@, with@));
    loop
        invariant
            n == pat@.len(),
            n > 0,
            insert@ == with@,
            out@ + replace(rest@, pat@, with@) == replace(s@, pat@, with@),
        decreases rest@.len(),
    {
        let ghost before = out@;
        let ghost old_rest = rest@;
        match index_of(rest, pat) {
            Some(i) => {
                extend(&mut out, take(rest, i));
                extend(&mut out, insert.as_slice());
                rest = skip(rest, i + n);
                assert(out@ + replace(rest@, pat@, with@) =~= before + replace(
                    old_rest,
                    pat@,
                    with@,
                ));
            },
            None => {
                extend(&mut out, rest);
                return out;
            },
        }
    }
}

/// What is trimmed off the start is white space, all of it: what is left is the end of
/// the text and begins with something visible, if it is not empty.
pub proof fn law_trim_start(s: Seq<char>)
    ensures
        ({
            let r = trim_start(s);
            let n = s.len() - r.len();
            &&& 0 <= n
            &&& r == s.skip(n)
            &&& forall|i: int| 0 <= i < n ==> is_white(#[trigger] s[i])
            &&& r.len() > 0 ==> !is_white(r[0])
        }),
    decreases s.len(),
{
    if s.len() > 0 && is_white(s[0]) {
        law_trim_start(s.skip(1));
        let r = trim_start(s);
        let n = s.len() - r.len();
        assert(s.skip(1).skip(n - 1) =~= s.skip(n));
        assert forall|i: int| 0 <= i < n implies is_white(#[trigger] s[i]) by {
            if i > 0 {
                assert(s.skip(1)[i - 1] == s[i]);
            }
        }
    } else {
        assert(s.skip(0) =~= s);
    }
}

/// What is trimmed off the end is white space, all of it: what is left is the start of
/// the text and ends with something visible, if it is not empty.
pub proof fn law_trim_end(s: Seq<char>)
    ensures
        ({
            let r = trim_end(s);
            &&& r.len() <= s.len()
            &&& r == s.take(r.len() as int)
            &&& forall|i: int| r.len() <= i < s.len() ==> is_white(#[trigger] s[i])
            &&& r.len() > 0 ==> !is_white(r.last())
        }),
    decreases s.len(),
{
    if s.len() > 0 && is_white(s.last()) {
        law_trim_end(s.drop_last());
        let r = trim_end(s);
        assert(s.drop_last().take(r.len() as int) =~= s.take(r.len() as int));
        assert forall|i: int| r.len() <= i < s.len() implies is_white(#[trigger] s[i]) by {
            if i < s.len() - 1 {
                assert(s.drop_last()[i] == s[i]);
            }
        }
    } else {
        assert(s.take(s.len() as int) =~= s);
    }
}

/// Trimming takes the white space off both ends and nothing else.
pub proof fn law_trim(s: Seq<char>) -> (a: int)
    ensures
        0 <= a,
        a + trim(s).len() <= s.len(),
        trim(s) == s.subrange(a, a + trim(s).len()),
        forall|i: int| 0 <= i < a || a + trim(s).len() <= i < s.len() ==> is_white(#[trigger] s[i]),
        trim(s).len() > 0 ==> !is_white(trim(s)[0]) && !is_white(trim(s).last()),
{
    let t = trim_start(s);
    let r = trim(s);
    law_trim_start(s);
    law_trim_end(t);
    let a = s.len() - t.len();
    assert(r =~= s.subrange(a, a + r.len()));
    assert forall|i: int| 0 <= i < a || a + r.len() <= i < s.len() implies is_white(
        #[trigger] s[i],
    ) by {
        if i >= a {
            assert(t[i - a] == s[i]);
        }
    }
    a
}

/// A pattern is found at its first occurrence, and not found where it does not occur.
pub proof fn law_find_is_first(s: Seq<char>, pat: Seq<char>)
    ensures
        match find(s, pat) {
            Some(k) => 0 <= k && k + pat.len() <= s.len() && s.subrange(k, k + pat.len()) == pat
                && forall|j: int|
                0 <= j < k ==> !(#[trigger] s.subrange(j, j + pat.len()) == pat),
            None => forall|j: int|
                0 <= j && j + pat.len() <= s.len() ==> !(#[trigger] s.subrange(j, j + pat.len())
                    == pat),
        },
{
    lemma_find_from(s, pat, 0);
    match find(s, pat) {
        Some(k) => {
            assert forall|j: int| 0 <= j < k implies !(#[trigger] s.subrange(j, j + pat.len())
                == pat) by {
                assert(!occurs_at(s, pat, j));
            }
        },
        None => {
            assert forall|j: int| 0 <= j && j + pat.len() <= s.len() implies !(
            #[trigger] s.subrange(j, j + pat.len()) == pat) by {
                assert(!occurs_at(s, pat, j));
            }
        },
    }
}

/// A text begins, or ends, with another where that stands at its start, or at its end.
pub proof fn law_prefix_and_suffix(s: Seq<char>, pat: Seq<char>)
    ensures
        has_prefix(s, pat) <==> pat.len() <= s.len() && s.take(pat.len() as int) == pat,
        has_suffix(s, pat) <==> pat.len() <= s.len() && s.skip(s.len() - pat.len()) == pat,
        has_prefix(pat + s, pat),
        has_suffix(s + pat, pat),
        contains(s, pat) <==> exists|j: int|
            0 <= j && j + pat.len() <= s.len() && #[trigger] s.subrange(j, j + pat.len()) == pat,
{
    assert((pat + s).subrange(0, pat.len() as int) =~= pat);
    assert((s + pat).subrange(s.len() as int, (s + pat).len() as int) =~= pat);
    if pat.len() <= s.len() {
        assert(s.take(pat.len() as int) =~= s.subrange(0, pat.len() as int));
        assert(s.skip(s.len() - pat.len()) =~= s.subrange(s.len() - pat.len(), s.len() as int));
    }
    law_find_is_first(s, pat);
}

/// A text is split at the first separator; the separator stands between the parts.
pub proof fn law_split_once(s: Seq<char>, c: char)
    ensures
        match split_once(s, c) {
            Some((a, b)) => a.push(c) + b == s && !a.contains(c),
            None => !s.contains(c),
        },
{
    lemma_find_char_from(s, c, 0);
    if let Some((a, b)) = split_once(s, c) {
        assert(a.push(c) + b =~= s);
    }
}

/// Texts are joined in order, with the separator between each two.
pub proof fn law_join(parts: Seq<Seq<char>>, x: Seq<char>, sep: Seq<char>)
    ensures
        join(Seq::empty(), sep) == Seq::<char>::empty(),
        join(seq![x], sep) == x,
        parts.len() > 0 ==> join(parts.push(x), sep) == join(parts, sep) + sep + x,
        parts.len() > 0 ==> join(seq![x] + parts, sep) == x + sep + join(parts, sep),
    decreases parts.len(),
{
    assert(parts.push(x).drop_last() =~= parts);
    if parts.len() > 0 {
        lemma_join_cons(x, parts, sep);
    }
}

proof fn lemma_join_cons(x: Seq<char>, parts: Seq<Seq<char>>, sep: Seq<char>)
    requires
        parts.len() > 0,
    ensures
        join(seq![x] + parts, sep) == x + sep + join(parts, sep),
    decreases parts.len(),
{
    let all = seq![x] + parts;
    if parts.len() == 1 {
        assert(all.drop_last() =~= seq![x]);
        assert(join(seq![x], sep) == x);
    } else {
        assert(all.drop_last() =~= seq![x] + parts.drop_last());
        lemma_join_cons(x, parts.drop_last(), sep);
        assert(join(all, sep) =~= x + sep + join(parts, sep));
    }
}

/// Splitting loses nothing: the parts, joined by the separator, are the text again, and
/// no part holds the separator.
pub proof fn law_split(s: Seq<char>, c: char)
    ensures
        split(s, c).len() > 0,
        join(split(s, c), seq![c]) == s,
        forall|i: int| 0 <= i < split(s, c).len() ==> !(#[trigger] split(s, c)[i]).contains(c),
    decreases s.len(),
{
    lemma_find_char_from(s, c, 0);
    match find_char_from(s, c, 0) {
        Some(k) => {
            let rest = s.skip(k + 1);
            law_split(rest, c);
            lemma_join_cons(s.take(k), split(rest, c), seq![c]);
            assert(s.take(k) + seq![c] + rest =~= s);
            assert forall|i: int| 0 <= i < split(s, c).len() implies !(
            #[trigger] split(s, c)[i]).contains(c) by {
                if i > 0 {
                    assert(split(s, c)[i] == split(rest, c)[i - 1]);
                }
            }
        },
        None => {
            assert(join(seq![s], seq![c]) == s);
        },
    }
}

/// Joining and splitting at the same character gives the parts back, where none holds it.
pub proof fn law_join_then_split(parts: Seq<Seq<char>>, c: char)
    requires
        parts.len() > 0,
        forall|i: int| 0 <= i < parts.len() ==> !(#[trigger] parts[i]).contains(c),
    ensures
        split(join(parts, seq![c]), c) == parts,
    decreases parts.len(),
{
    let s = join(parts, seq![c]);
    lemma_find_char_from(s, c, 0);
    assert(!parts[0].contains(c));
    if parts.len() == 1 {
        if let Some(k) = find_char_from(s, c, 0) {
            assert(parts[0].contains(s[k]));
        }
        assert(split(s, c) =~= parts);
    } else {
        let rest = parts.skip(1);
        assert(seq![parts[0]] + rest =~= parts);
        lemma_join_cons(parts[0], rest, seq![c]);
        let n = parts[0].len() as int;
        assert(s[n] == c);
        assert forall|j: int| 0 <= j < n implies s[j] != c by {
            assert(s[j] == parts[0][j]);
            assert(parts[0].contains(parts[0][j]));
        }
        assert(find_char_from(s, c, 0) == Some(n));
        assert(s.take(n) =~= parts[0]);
        assert(s.skip(n + 1) =~= join(rest, seq![c]));
        assert forall|i: int| 0 <= i < rest.len() implies !(#[trigger] rest[i]).contains(c) by {
            assert(rest[i] == parts[i + 1]);
        }
        law_join_then_split(rest, c);
        assert(split(s, c) =~= parts);
    }
}

proof fn lemma_words_trim(s: Seq<char>)
    ensures
        words(s) == words(trim_start(s)),
{
    law_trim_start(s);
    let t = trim_start(s);
    assert(trim_start(t) == t);
}

proof fn lemma_word_len_all(s: Seq<char>)
    requires
        forall|i: int| 0 <= i < s.len() ==> !is_white(#[trigger] s[i]),
    ensures
        word_len(s) == s.len(),
    decreases s.len(),
{
    if s.len() > 0 {
        assert forall|i: int| 0 <= i < s.skip(1).len() implies !is_white(
            #[trigger] s.skip(1)[i],
        ) by {
            assert(s.skip(1)[i] == s[i + 1]);
        }
        lemma_word_len_all(s.skip(1));
    }
}

proof fn lemma_word_len_more(s: Seq<char>, w: char, b: Seq<char>)
    requires
        is_white(w),
    ensures
        word_len(s.push(w) + b) == word_len(s),
    decreases s.len(),
{
    let t = s.push(w) + b;
    assert(t[0] == (if s.len() > 0 {
        s[0]
    } else {
        w
    }));
    if s.len() > 0 && !is_white(s[0]) {
        lemma_word_len_more(s.skip(1), w, b);
        assert(t.skip(1) =~= s.skip(1).push(w) + b);
    }
}

proof fn lemma_trim_start_more(s: Seq<char>, w: char, b: Seq<char>)
    requires
        is_white(w),
    ensures
        trim_start(s).len() > 0 ==> trim_start(s.push(w) + b) == trim_start(s).push(w) + b,
        trim_start(s).len() == 0 ==> trim_start(s.push(w) + b) == trim_start(b),
    decreases s.len(),
{
    let t = s.push(w) + b;
    if s.len() == 0 {
        assert(t.skip(1) =~= b);
        assert(t[0] == w);
    } else if is_white(s[0]) {
        lemma_trim_start_more(s.skip(1), w, b);
        assert(t.skip(1) =~= s.skip(1).push(w) + b);
        assert(t[0] == s[0]);
    } else {
        assert(t[0] == s[0]);
    }
}

/// Words are what white space separates: a text without any is one word, and white space
/// anywhere keeps the words before it apart from those behind it.
pub proof fn law_words(s: Seq<char>, w: char, b: Seq<char>)
    requires
        is_white(w),
    ensures
        words(Seq::empty()) == Seq::<Seq<char>>::empty(),
        s.len() > 0 && (forall|i: int| 0 <= i < s.len() ==> !is_white(#[trigger] s[i])) ==> words(s)
            == seq![s],
        words(s.push(w) + b) == words(s) + words(b),
    decreases s.len(),
{
    assert(words(Seq::empty()) =~= Seq::<Seq<char>>::empty());
    if s.len() > 0 && (forall|i: int| 0 <= i < s.len() ==> !is_white(#[trigger] s[i])) {
        assert(trim_start(s) == s);
        lemma_word_len_all(s);
        assert(s.take(s.len() as int) =~= s);
        assert(s.skip(s.len() as int) =~= Seq::<char>::empty());
        assert(words(s) =~= seq![s]);
    }
    let t = trim_start(s);
    let all = s.push(w) + b;
    lemma_trim_start_more(s, w, b);
    if t.len() == 0 {
        lemma_words_trim(b);
        lemma_words_trim(all);
        assert(words(s) =~= Seq::<Seq<char>>::empty());
        assert(words(s) + words(b) =~= words(b));
    } else {
        let k = word_len(t);
        lemma_word_len(t);
        lemma_trim_start_head(s);
        lemma_trim_start_len(s);
        lemma_word_len_more(t, w, b);
        let u = t.push(w) + b;
        assert(u.take(k) =~= t.take(k));
        assert(u.skip(k) =~= t.skip(k).push(w) + b);
        law_words(t.skip(k), w, b);
        assert(words(all) =~= words(s) + words(b));
    }
}

/// The part behind the last separator holds none, and the text ends with it, behind a
/// separator if there is any.
pub proof fn law_after_last(s: Seq<char>, c: char)
    ensures
        ({
            let r = after_last(s, c);
            &&& r.len() <= s.len()
            &&& r == s.skip(s.len() - r.len())
            &&& !r.contains(c)
            &&& r.len() < s.len() ==> s[s.len() - r.len() - 1] == c
            &&& r.len() == s.len() ==> !s.contains(c)
        }),
    decreases s.len(),
{
    lemma_find_char_from(s, c, 0);
    match find_char_from(s, c, 0) {
        Some(i) => {
            let t = s.skip(i + 1);
            law_after_last(t, c);
            let r = after_last(s, c);
            assert(t.skip(t.len() - r.len()) =~= s.skip(s.len() - r.len()));
            if r.len() < t.len() {
                assert(t[t.len() - r.len() - 1] == s[s.len() - r.len() - 1]);
            }
        },
        None => {
            assert(s.skip(0) =~= s);
        },
    }
}

/// The part before the first separator holds none, and a separator follows it if there
/// is any.
pub proof fn law_before_first(s: Seq<char>, c: char)
    ensures
        ({
            let r = before_first(s, c);
            &&& r.len() <= s.len()
            &&& r == s.take(r.len() as int)
            &&& !r.contains(c)
            &&& r.len() < s.len() ==> s[r.len() as int] == c
        }),
{
    lemma_find_char_from(s, c, 0);
    assert(s.take(s.len() as int) =~= s);
}

/// Replacing goes from left to right: what stands before the first occurrence stays, the
/// occurrence gives way, and the rest is treated alike; a text without the pattern stays.
pub proof fn law_replace(a: Seq<char>, b: Seq<char>, pat: Seq<char>, with: Seq<char>)
    requires
        pat.len() > 0,
    ensures
        !contains(a, pat) ==> replace(a, pat, with) == a,
        find(a + pat + b, pat) == Some(a.len() as int) ==> replace(a + pat + b, pat, with) == a
            + with + replace(b, pat, with),
{
    let s = a + pat + b;
    assert(s.take(a.len() as int) =~= a);
    assert(s.skip(a.len() as int + pat.len() as int) =~= b);
}

/// The alphabet decides at the first difference; a text comes after its own beginnings.
pub proof fn law_text_order(p: Seq<char>, a: Seq<char>, b: Seq<char>, x: char, y: char)
    requires
        x != y,
    ensures
        text_lt(p.push(x) + a, p.push(y) + b) <==> x < y,
        text_lt(p, p.push(x) + a),
        !text_lt(p.push(x) + a, p),
        !text_lt(p, p),
    decreases p.len(),
{
    if p.len() > 0 {
        law_text_order(p.skip(1), a, b, x, y);
        assert((p.push(x) + a).skip(1) =~= p.skip(1).push(x) + a);
        assert((p.push(y) + b).skip(1) =~= p.skip(1).push(y) + b);
    } else {
        assert((p.push(x) + a)[0] == x);
        assert((p.push(y) + b)[0] == y);
    }
}

/// The number that a row of decimal digits stands for.
pub open spec fn decimal_value(s: Seq<char>) -> nat
    decreases s.len(),
{
    if s.len() == 0 {
        0
    } else {
        decimal_value(s.drop_last()) * 10 + (s.last() as u32 - '0' as u32) as nat
    }
}

/// A number in decimal is a row of digits that stands for it, without leading zeros.
pub proof fn law_decimal(n: nat)
    ensures
        decimal(n).len() > 0,
        forall|i: int| 0 <= i < decimal(n).len() ==> '0' <= (#[trigger] decimal(n)[i]) <= '9',
        decimal_value(decimal(n)) == n,
        n > 0 ==> decimal(n)[0] != '0',
        n == 0 ==> decimal(n) == seq!['0'],
    decreases n,
{
    let s = decimal(n);
    if n < 10 {
        assert(s.drop_last() =~= Seq::<char>::empty());
        assert(decimal_value(s.drop_last()) == 0);
        assert(s.last() as u32 - '0' as u32 == n);
        assert(n == 0 ==> s =~= seq!['0']);
    } else {
        law_decimal(n / 10);
        assert(s.drop_last() =~= decimal(n / 10));
        assert(s.last() as u32 - '0' as u32 == n % 10);
    }
}

/// Bytes are written two digits each, in order; the digits stand for the byte.
pub proof fn law_hex(bytes: Seq<u8>, b: u8)
    ensures
        hex_text(Seq::empty()) == Seq::<char>::empty(),
        hex_text(bytes.push(b)) == hex_text(bytes) + seq![
            hex_char((b / 16) as nat),
            hex_char((b % 16) as nat),
        ],
        forall|d: nat|
            d < 16 ==> (#[trigger] hex_char(d)) == "0123456789abcdef"@[d as int],
{
    reveal_strlit("0123456789abcdef");
    assert(bytes.push(b).drop_last() =~= bytes);
    assert forall|d: nat| d < 16 implies (#[trigger] hex_char(d)) == "0123456789abcdef"@[d as int] by {
        assert(hex_char(0) == '0' && hex_char(1) == '1' && hex_char(2) == '2' && hex_char(3) == '3');
        assert(hex_char(4) == '4' && hex_char(5) == '5' && hex_char(6) == '6' && hex_char(7) == '7');
        assert(hex_char(8) == '8' && hex_char(9) == '9' && hex_char(10) == 'a' && hex_char(11) == 'b');
        assert(hex_char(12) == 'c' && hex_char(13) == 'd' && hex_char(14) == 'e' && hex_char(15) == 'f');
    }
}

} // verus!
