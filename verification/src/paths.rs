//! Slash-separated file paths as text.

use vstd::prelude::*;

use crate::text::{
    chars_of, is_text, split, split_all, string_of, take, texts,
};

verus! {

/// Whether a path starts at the root.
pub open spec fn is_absolute(p: Seq<char>) -> bool {
    p.len() > 0 && p[0] == '/'
}

/// `p` taken relative to `base`; an absolute `p` stands for itself.
pub open spec fn path_join(base: Seq<char>, p: Seq<char>) -> Seq<char> {
    if is_absolute(p) {
        p
    } else if base.len() == 0 || base.last() == '/' {
        base + p
    } else {
        base + "/"@ + p
    }
}

/// Whether the part `i` of a split path is a component of it: empty parts and
/// dots are not, but for a dot at the start of a relative path.
pub open spec fn is_component(parts: Seq<Seq<char>>, i: int) -> bool {
    parts[i].len() > 0 && (i == 0 || parts[i] != "."@)
}

/// The first `n` parts of a split path that are components.
pub open spec fn kept_parts(parts: Seq<Seq<char>>, n: int) -> Seq<Seq<char>>
    decreases n,
{
    if n <= 0 {
        Seq::empty()
    } else if is_component(parts, n - 1) {
        kept_parts(parts, n - 1).push(parts[n - 1])
    } else {
        kept_parts(parts, n - 1)
    }
}

/// The components of a path below its root.
pub open spec fn components(p: Seq<char>) -> Seq<Seq<char>> {
    kept_parts(split(p, '/'), split(p, '/').len() as int)
}

/// Whether `p` is `root` or lies below it, component by component; every path lies
/// below an empty one.
pub open spec fn is_under(p: Seq<char>, root: Seq<char>) -> bool {
    root.len() == 0 || (is_absolute(p) == is_absolute(root) && components(root).is_prefix_of(
        components(p),
    ))
}

/// The last component, unless it is a dot or two.
pub open spec fn file_name(p: Seq<char>) -> Option<Seq<char>> {
    let c = components(p);
    if c.len() == 0 || c.last() == "."@ || c.last() == ".."@ {
        None
    } else {
        Some(c.last())
    }
}

/// Whether a path starts at the root.
pub fn absolute(p: &str) -> (r: bool)
    ensures
        r == is_absolute(p@),
{
    let chars = chars_of(p);
    chars.len() > 0 && chars[0] == '/'
}

/// `p` taken relative to `base`.
pub fn joined_path(base: &str, p: &str) -> (out: String)
    ensures
        out@ == path_join(base@, p@),
{
    if absolute(p) {
        return p.to_string();
    }
    let chars = chars_of(base);
    let n: usize = chars.len();
    let mut out = string_of(chars.as_slice());
    if n > 0 && chars[n - 1] != '/' {
        out.append("/");
    }
    out.append(p);
    assert(out@ =~= path_join(base@, p@));
    out
}

/// The components of a path below its root.
pub fn path_components(p: &str) -> (out: Vec<String>)
    ensures
        texts(out@) == components(p@),
{
    let chars = chars_of(p);
    let parts = split_all(chars.as_slice(), '/');
    let ghost ps = texts(parts@);
    let mut out: Vec<String> = Vec::new();
    let mut i: usize = 0;
    assert(texts(out@) =~= kept_parts(ps, 0));
    while i < parts.len()
        invariant
            i <= parts@.len(),
            ps == texts(parts@),
            texts(out@) == kept_parts(ps, i as int),
        decreases parts@.len() - i,
    {
        let part = chars_of(parts[i].as_str());
        assert(ps[i as int] == parts@[i as int]@);
        if part.len() > 0 && (i == 0 || !is_text(part.as_slice(), ".")) {
            let ghost before = out@;
            out.push(parts[i].clone());
            assert(texts(out@) =~= texts(before).push(ps[i as int]));
        }
        i += 1;
    }
    out
}

/// Whether `p` is `root` or lies below it.
pub fn under(p: &str, root: &str) -> (r: bool)
    ensures
        r == is_under(p@, root@),
{
    if root.unicode_len() == 0 {
        return true;
    }
    if absolute(p) != absolute(root) {
        return false;
    }
    let a = path_components(p);
    let b = path_components(root);
    if b.len() > a.len() {
        assert(texts(b@).len() > texts(a@).len());
        return false;
    }
    let mut i: usize = 0;
    while i < b.len()
        invariant
            root@.len() > 0,
            i <= b@.len() <= a@.len(),
            texts(b@) == components(root@),
            texts(a@) == components(p@),
            forall|j: int| 0 <= j < i ==> texts(a@)[j] == texts(b@)[j],
        decreases b@.len() - i,
    {
        if a[i] != b[i] {
            assert(texts(a@)[i as int] != texts(b@)[i as int]);
            return false;
        }
        assert(texts(a@)[i as int] == texts(b@)[i as int]);
        i += 1;
    }
    assert(texts(b@) =~= texts(a@).take(b@.len() as int));
    true
}

/// The last component, unless it is a dot or two.
pub fn path_file_name(p: &str) -> (r: Option<String>)
    ensures
        crate::text::opt_text(r) == file_name(p@),
{
    let c = path_components(p);
    let n: usize = c.len();
    assert(texts(c@).len() == n);
    if n == 0 {
        return None;
    }
    assert(texts(c@).last() == c@.last()@);
    let last = chars_of(c[n - 1].as_str());
    if is_text(last.as_slice(), ".") || is_text(last.as_slice(), "..") {
        None
    } else {
        Some(c[n - 1].clone())
    }
}

/// Where the part `i` of a split path ends in it.
pub open spec fn part_end(parts: Seq<Seq<char>>, i: int) -> int
    decreases i,
{
    if i <= 0 {
        parts[0].len() as int
    } else {
        part_end(parts, i - 1) + 1 + parts[i].len()
    }
}

/// Where those of the first `n` parts of a split path end that are components.
pub open spec fn component_ends(parts: Seq<Seq<char>>, n: int) -> Seq<int>
    decreases n,
{
    if n <= 0 {
        Seq::empty()
    } else if is_component(parts, n - 1) {
        component_ends(parts, n - 1).push(part_end(parts, n - 1))
    } else {
        component_ends(parts, n - 1)
    }
}

/// The directories above a path, from the nearest one up: the path as it is written,
/// up to the end of a component before the last, and at the top its root.
pub open spec fn parents(p: Seq<char>) -> Seq<Seq<char>> {
    let ends = component_ends(split(p, '/'), split(p, '/').len() as int);
    Seq::new(
        ends.len(),
        |i: int|
            if i < ends.len() - 1 {
                p.take(ends[ends.len() - 2 - i])
            } else if is_absolute(p) {
                "/"@
            } else {
                Seq::empty()
            },
    )
}

proof fn lemma_part_end_shift(a: Seq<char>, rest: Seq<Seq<char>>, i: int)
    requires
        0 < i <= rest.len(),
    ensures
        part_end(seq![a] + rest, i) == a.len() + 1 + part_end(rest, i - 1),
    decreases i,
{
    let all = seq![a] + rest;
    assert(all[i] == rest[i - 1]);
    if i > 1 {
        lemma_part_end_shift(a, rest, i - 1);
    } else {
        assert(part_end(all, 0) == a.len());
    }
}

/// The parts of a split path end within it.
proof fn lemma_part_end_bound(s: Seq<char>, c: char, i: int)
    requires
        0 <= i < split(s, c).len(),
    ensures
        0 <= part_end(split(s, c), i) <= s.len(),
    decreases s.len(),
{
    crate::text::lemma_find_char_from(s, c, 0);
    if let Some(k) = crate::text::find_char_from(s, c, 0) {
        let rest = split(s.skip(k + 1), c);
        if i > 0 {
            lemma_part_end_shift(s.take(k), rest, i);
            lemma_part_end_bound(s.skip(k + 1), c, i - 1);
        }
    }
}

/// The directories above a path, from the nearest one up.
pub fn path_parents(p: &str) -> (out: Vec<String>)
    ensures
        texts(out@) == parents(p@),
{
    let chars = chars_of(p);
    let parts = split_all(chars.as_slice(), '/');
    let ghost ps = texts(parts@);
    let mut ends: Vec<usize> = Vec::new();
    let mut pos: usize = 0;
    let mut i: usize = 0;
    while i < parts.len()
        invariant
            i <= parts@.len(),
            chars@ == p@,
            ps == texts(parts@),
            ps == split(p@, '/'),
            i > 0 ==> pos == part_end(ps, i - 1),
            i == 0 ==> pos == 0,
            ends@.map_values(|e: usize| e as int) == component_ends(ps, i as int),
            forall|j: int| 0 <= j < ends@.len() ==> #[trigger] ends@[j] <= chars@.len(),
        decreases parts@.len() - i,
    {
        let part = chars_of(parts[i].as_str());
        assert(ps[i as int] == parts@[i as int]@);
        proof {
            lemma_part_end_bound(p@, '/', i as int);
        }
        assert(part_end(ps, i as int) <= chars.len());
        if i > 0 {
            pos += 1;
        }
        pos += part.len();
        if part.len() > 0 && (i == 0 || !is_text(part.as_slice(), ".")) {
            let ghost before = ends@;
            ends.push(pos);
            assert(ends@.map_values(|e: usize| e as int) =~= before.map_values(
                |e: usize| e as int,
            ).push(part_end(ps, i as int)));
        }
        i += 1;
    }
    let ghost want = component_ends(ps, ps.len() as int);
    assert(want == ends@.map_values(|e: usize| e as int));
    let n: usize = ends.len();
    let mut out: Vec<String> = Vec::new();
    let mut k: usize = 0;
    while k < n
        invariant
            k <= n,
            n == ends@.len(),
            chars@ == p@,
            ps == split(p@, '/'),
            want == component_ends(ps, ps.len() as int),
            want == ends@.map_values(|e: usize| e as int),
            forall|j: int| 0 <= j < ends@.len() ==> #[trigger] ends@[j] <= chars@.len(),
            texts(out@) == parents(p@).take(k as int),
        decreases n - k,
    {
        let dir = if k < n - 1 {
            let end: usize = ends[n - 2 - k];
            assert(want[n - 2 - k] == end);
            string_of(take(chars.as_slice(), end))
        } else if absolute(p) {
            "/".to_string()
        } else {
            String::new()
        };
        assert(dir@ =~= parents(p@)[k as int]);
        let ghost before = out@;
        let ghost text = dir@;
        out.push(dir);
        assert(texts(out@) =~= texts(before).push(text));
        assert(parents(p@).take(k + 1) =~= parents(p@).take(k as int).push(parents(p@)[k as int]));
        k += 1;
    }
    assert(parents(p@).take(n as int) =~= parents(p@));
    out
}

/// A relative path is taken from the base, with one slash between them; an absolute one
/// stands for itself.
pub proof fn law_path_join(base: Seq<char>, p: Seq<char>)
    ensures
        p.len() > 0 && p[0] == '/' ==> path_join(base, p) == p,
        (p.len() == 0 || p[0] != '/') && (base.len() == 0 || base.last() == '/') ==> path_join(
            base,
            p,
        ) == base + p,
        (p.len() == 0 || p[0] != '/') && base.len() > 0 && base.last() != '/' ==> path_join(base, p)
            == base + "/"@ + p,
{
}

/// Of the parts between slashes those are components that are neither empty nor a single
/// dot, but for a dot at the very start.
pub proof fn law_components(parts: Seq<Seq<char>>, n: int, p: Seq<char>)
    requires
        0 <= n < parts.len(),
    ensures
        kept_parts(parts, 0) == Seq::<Seq<char>>::empty(),
        kept_parts(parts, n + 1) == (if parts[n].len() > 0 && (n == 0 || parts[n] != "."@) {
            kept_parts(parts, n).push(parts[n])
        } else {
            kept_parts(parts, n)
        }),
        components(p) == kept_parts(split(p, '/'), split(p, '/').len() as int),
{
}

/// Whether a text can be a component: not empty, without a slash and no single dot.
pub open spec fn plain_component(c: Seq<char>) -> bool {
    c.len() > 0 && !c.contains('/') && c != "."@
}

/// Whether each text can be a component.
pub open spec fn plain_components(cs: Seq<Seq<char>>) -> bool {
    forall|i: int| 0 <= i < cs.len() ==> plain_component(#[trigger] cs[i])
}

proof fn lemma_kept_all(parts: Seq<Seq<char>>, from: int, n: int)
    requires
        0 <= from <= n <= parts.len(),
        forall|i: int| from <= i < n ==> plain_component(#[trigger] parts[i]),
        forall|i: int| 0 <= i < from ==> (#[trigger] parts[i]).len() == 0,
    ensures
        kept_parts(parts, n) == parts.subrange(from, n),
    decreases n,
{
    if n > from {
        lemma_kept_all(parts, from, n - 1);
        assert(plain_component(parts[n - 1]));
        assert(parts.subrange(from, n) =~= parts.subrange(from, n - 1).push(parts[n - 1]));
    } else if n > 0 {
        assert(parts[n - 1].len() == 0);
        lemma_kept_empty(parts, n);
        assert(parts.subrange(from, n) =~= Seq::<Seq<char>>::empty());
    } else {
        assert(parts.subrange(from, n) =~= Seq::<Seq<char>>::empty());
    }
}

proof fn lemma_kept_empty(parts: Seq<Seq<char>>, n: int)
    requires
        0 <= n <= parts.len(),
        forall|i: int| 0 <= i < n ==> (#[trigger] parts[i]).len() == 0,
    ensures
        kept_parts(parts, n) == Seq::<Seq<char>>::empty(),
    decreases n,
{
    if n > 0 {
        assert(parts[n - 1].len() == 0);
        lemma_kept_empty(parts, n - 1);
    }
}

/// A path that is written component by component from the root has these components.
pub proof fn law_absolute_path_components(cs: Seq<Seq<char>>)
    requires
        plain_components(cs),
        cs.len() > 0,
    ensures
        components("/"@ + crate::text::join(cs, "/"@)) == cs,
        is_absolute("/"@ + crate::text::join(cs, "/"@)),
{
    reveal_strlit("/");
    let none = Seq::<char>::empty();
    let parts = seq![none] + cs;
    assert("/"@ =~= seq!['/']);
    crate::text::law_join(cs, none, "/"@);
    assert(crate::text::join(parts, "/"@) =~= "/"@ + crate::text::join(cs, "/"@));
    assert forall|i: int| 0 <= i < parts.len() implies !(#[trigger] parts[i]).contains('/') by {
        if i > 0 {
            assert(parts[i] == cs[i - 1]);
            assert(plain_component(cs[i - 1]));
        }
    }
    crate::text::law_join_then_split(parts, '/');
    assert forall|i: int| 1 <= i < parts.len() implies plain_component(#[trigger] parts[i]) by {
        assert(parts[i] == cs[i - 1]);
        assert(plain_component(cs[i - 1]));
    }
    lemma_kept_all(parts, 1, parts.len() as int);
    assert(parts.subrange(1, parts.len() as int) =~= cs);
}

/// One directory lies at or below another exactly where its components begin with those of
/// the other: a directory whose name merely begins alike does not.
pub proof fn law_below_by_component(a: Seq<Seq<char>>, b: Seq<Seq<char>>)
    requires
        plain_components(a),
        plain_components(b),
        a.len() > 0,
        b.len() > 0,
    ensures
        is_under("/"@ + crate::text::join(a, "/"@), "/"@ + crate::text::join(b, "/"@)) <==> b.len()
            <= a.len() && a.take(b.len() as int) == b,
        !is_under(crate::text::join(a, "/"@), "/"@ + crate::text::join(b, "/"@)),
{
    reveal_strlit("/");
    law_absolute_path_components(a);
    law_absolute_path_components(b);
    if b.len() <= a.len() {
        assert(b.is_prefix_of(a) <==> a.take(b.len() as int) =~= b);
    }
    assert(plain_component(a[0]));
    lemma_join_first(a);
}

proof fn lemma_join_first(a: Seq<Seq<char>>)
    requires
        plain_components(a),
        a.len() > 0,
    ensures
        crate::text::join(a, "/"@).len() > 0,
        crate::text::join(a, "/"@)[0] == a[0][0],
        a[0][0] != '/',
    decreases a.len(),
{
    assert(plain_component(a[0]));
    assert(a[0].contains(a[0][0]));
    if a.len() > 1 {
        let front = a.drop_last();
        assert forall|i: int| 0 <= i < front.len() implies plain_component(#[trigger] front[i]) by {
            assert(front[i] == a[i]);
        }
        lemma_join_first(front);
    }
}

/// Every directory lies below itself, and what lies below a directory lies below every
/// directory above that; the root is above all absolute paths.
pub proof fn law_below_is_an_order(a: Seq<char>, b: Seq<char>, c: Seq<char>)
    ensures
        is_under(a, a),
        is_under(a, b) && is_under(b, c) && b.len() > 0 ==> is_under(a, c),
        a.len() > 0 && a[0] == '/' ==> is_under(a, "/"@),
{
    reveal_strlit("/");
    if is_under(a, b) && is_under(b, c) && b.len() > 0 && c.len() > 0 {
        let x = components(a);
        let y = components(b);
        let z = components(c);
        assert(z =~= x.take(z.len() as int)) by {
            assert(z =~= y.take(z.len() as int));
            assert(y =~= x.take(y.len() as int));
        }
        assert(z.is_prefix_of(x));
    }
    let e = Seq::<char>::empty();
    crate::text::lemma_find_char_from("/"@, '/', 0);
    assert(crate::text::find_char_from("/"@, '/', 0) == Some(0int));
    assert("/"@.take(0) =~= e);
    assert("/"@.skip(1) =~= e);
    assert(crate::text::find_char_from(e, '/', 0) is None);
    assert(split(e, '/') =~= seq![e]);
    assert(split("/"@, '/') =~= seq![e, e]);
    lemma_kept_empty(split("/"@, '/'), 2);
}

/// The name of a path is its last component, unless that is one or two dots.
pub proof fn law_file_name(p: Seq<char>)
    ensures
        ({
            let c = components(p);
            &&& c.len() > 0 && c.last() != "."@ && c.last() != ".."@ ==> file_name(p) == Some(
                c.last(),
            )
            &&& c.len() == 0 || c.last() == "."@ || c.last() == ".."@ ==> file_name(p) is None
        }),
{
}

proof fn lemma_split_take(s: Seq<char>, i: int)
    requires
        0 <= i < split(s, '/').len(),
    ensures
        0 <= part_end(split(s, '/'), i) <= s.len(),
        split(s.take(part_end(split(s, '/'), i)), '/') == split(s, '/').take(i + 1),
    decreases s.len(),
{
    let parts = split(s, '/');
    lemma_part_end_bound(s, '/', i);
    let e = part_end(parts, i);
    let t = s.take(e);
    crate::text::lemma_find_char_from(s, '/', 0);
    crate::text::lemma_find_char_from(t, '/', 0);
    match crate::text::find_char_from(s, '/', 0) {
        Some(k) => {
            let rest = split(s.skip(k + 1), '/');
            assert(parts == seq![s.take(k)] + rest);
            if i == 0 {
                assert(e == k);
                assert(crate::text::find_char_from(t, '/', 0) is None) by {
                    if let Some(j) = crate::text::find_char_from(t, '/', 0) {
                        assert(s[j] == '/');
                    }
                }
                assert(split(t, '/') =~= parts.take(1));
            } else {
                lemma_part_end_shift(s.take(k), rest, i);
                lemma_split_take(s.skip(k + 1), i - 1);
                assert(e > k);
                assert(t[k] == '/');
                assert(crate::text::find_char_from(t, '/', 0) == Some(k));
                assert(t.take(k) =~= s.take(k));
                assert(t.skip(k + 1) =~= s.skip(k + 1).take(e - k - 1));
                assert(split(t, '/') =~= parts.take(i + 1));
            }
        },
        None => {
            assert(parts =~= seq![s]);
            assert(t =~= s);
            assert(parts.take(1) =~= parts);
        },
    }
}

proof fn lemma_kept_take(parts: Seq<Seq<char>>, m: int, n: int)
    requires
        0 <= n <= m <= parts.len(),
    ensures
        kept_parts(parts.take(m), n) == kept_parts(parts, n),
    decreases n,
{
    if n > 0 {
        lemma_kept_take(parts, m, n - 1);
        assert(parts.take(m)[n - 1] == parts[n - 1]);
    }
}

proof fn lemma_end_index(parts: Seq<Seq<char>>, n: int, k: int) -> (i: int)
    requires
        0 <= n <= parts.len(),
        0 <= k < component_ends(parts, n).len(),
    ensures
        0 <= i < n,
        component_ends(parts, n)[k] == part_end(parts, i),
        kept_parts(parts, i + 1) == kept_parts(parts, n).take(k + 1),
        component_ends(parts, n).len() == kept_parts(parts, n).len(),
    decreases n,
{
    lemma_ends_len(parts, n);
    lemma_ends_len(parts, n - 1);
    let before = component_ends(parts, n - 1);
    if k < before.len() {
        let i = lemma_end_index(parts, n - 1, k);
        assert(kept_parts(parts, n).take(k + 1) =~= kept_parts(parts, n - 1).take(k + 1));
        i
    } else {
        assert(kept_parts(parts, n).take(k + 1) =~= kept_parts(parts, n));
        n - 1
    }
}

proof fn lemma_ends_len(parts: Seq<Seq<char>>, n: int)
    requires
        n <= parts.len(),
    ensures
        component_ends(parts, n).len() == kept_parts(parts, n).len(),
    decreases n,
{
    if n > 0 {
        lemma_ends_len(parts, n - 1);
    }
}

/// The directories above a path: each is written as the path begins, and has one component
/// less than the one before; the last is the root, or nothing for a relative path.
pub proof fn law_parents(p: Seq<char>, i: int)
    requires
        0 <= i < components(p).len(),
    ensures
        parents(p).len() == components(p).len(),
        i < components(p).len() - 1 ==> parents(p)[i].len() <= p.len() && parents(p)[i] == p.take(
            parents(p)[i].len() as int,
        ) && components(parents(p)[i]) == components(p).take(components(p).len() - 1 - i),
        i == components(p).len() - 1 ==> parents(p)[i] == (if is_absolute(p) {
            "/"@
        } else {
            Seq::empty()
        }),
{
    let parts = split(p, '/');
    let n = parts.len() as int;
    let ends = component_ends(parts, n);
    lemma_ends_len(parts, n);
    if i < ends.len() - 1 {
        let k = ends.len() - 2 - i;
        let m = lemma_end_index(parts, n, k);
        lemma_split_take(p, m);
        lemma_kept_take(parts, m + 1, m + 1);
        assert(parents(p)[i] == p.take(part_end(parts, m)));
        assert(split(p.take(part_end(parts, m)), '/').len() == m + 1);
    }
}

} // verus!
