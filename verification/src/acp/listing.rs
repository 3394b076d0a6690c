//! The workspaces that a user can choose from.

use vstd::prelude::*;

use crate::acp::pool::SessionPool;
use crate::text::{
    chars_of, comes_before, contains, has, has_prefix, lowercase, starts_with, string_of, text_lt,
    texts, trim, trimmed,
};

verus! {

/// A directory's name, as it is and in lower case.
#[derive(Debug)]
pub struct DirName {
    pub name: String,
    pub lower: String,
}

/// What such a name says.
pub struct Dir {
    pub name: Seq<char>,
    pub lower: Seq<char>,
}

impl View for DirName {
    type V = Dir;

    open spec fn view(&self) -> Dir {
        Dir { name: self.name@, lower: self.lower@ }
    }
}

/// What a list of names says.
pub open spec fn dirs(v: Seq<DirName>) -> Seq<Dir> {
    v.map_values(|d: DirName| d@)
}

/// Whether a directory is offered for the query `q`: it is not hidden, and `q`
/// occurs in its name.
pub open spec fn is_offered(d: Dir, q: Seq<char>) -> bool {
    !(d.name.len() > 0 && d.name[0] == '.') && (q.len() == 0 || contains(d.lower, q))
}

/// Whether `a` is listed before `b`: names that begin with the query come first,
/// then the alphabet decides.
pub open spec fn ranks_before(a: Dir, b: Dir, q: Seq<char>) -> bool {
    if has_prefix(a.lower, q) != has_prefix(b.lower, q) {
        has_prefix(a.lower, q)
    } else {
        text_lt(a.name, b.name)
    }
}

/// Whether the directories are listed in order.
pub open spec fn is_ranked(v: Seq<Dir>, q: Seq<char>) -> bool {
    forall|i: int| 0 < i < v.len() ==> !ranks_before(#[trigger] v[i], v[i - 1], q)
}

/// The names of the directories.
pub open spec fn dir_names(v: Seq<Dir>) -> Seq<Seq<char>> {
    v.map_values(|d: Dir| d.name)
}

/// Whether `out` lists the offered ones among `all`, in order and no more than
/// `limit` of them.
pub open spec fn is_listing(out: Seq<Seq<char>>, all: Seq<Dir>, q: Seq<char>, limit: nat) -> bool {
    exists|ranked: Seq<Dir>|
        {
            &&& #[trigger] is_ranked(ranked, q)
            &&& ranked.to_multiset() == all.filter(|d: Dir| is_offered(d, q)).to_multiset()
            &&& out == dir_names(ranked).take(
                if limit < ranked.len() {
                    limit as int
                } else {
                    ranked.len() as int
                },
            )
        }
}

/// Whether `a` is listed before `b`.
fn dir_before(a: &DirName, b: &DirName, q: &str) -> (r: bool)
    ensures
        r == ranks_before(a@, b@, q@),
{
    let al = chars_of(a.lower.as_str());
    let bl = chars_of(b.lower.as_str());
    let ap = starts_with(al.as_slice(), q);
    let bp = starts_with(bl.as_slice(), q);
    if ap != bp {
        ap
    } else {
        let an = chars_of(a.name.as_str());
        let bn = chars_of(b.name.as_str());
        comes_before(an.as_slice(), bn.as_slice())
    }
}

/// Puts `d` into a ranked list.
fn insert_ranked(v: &mut Vec<DirName>, d: DirName, q: &str)
    requires
        is_ranked(dirs(old(v)@), q@),
    ensures
        is_ranked(dirs(final(v)@), q@),
        dirs(final(v)@).to_multiset() == dirs(old(v)@).to_multiset().insert(d@),
{
    let mut p: usize = 0;
    while p < v.len() && !dir_before(&d, &v[p], q)
        invariant
            p <= v@.len(),
            v@ == old(v)@,
            p > 0 ==> !ranks_before(d@, v@[p - 1]@, q@),
        decreases v@.len() - p,
    {
        p += 1;
    }
    let ghost before = dirs(v@);
    let ghost x = d@;
    proof {
        if p < v@.len() {
            crate::text::lemma_text_lt_total(x.name, v@[p as int]@.name);
        }
    }
    v.insert(p, d);
    let ghost after = dirs(v@);
    proof {
        assert(after =~= before.insert(p as int, x));
        assert forall|i: int| 0 < i < after.len() implies !ranks_before(
            #[trigger] after[i],
            after[i - 1],
            q@,
        ) by {
            if i < p {
                assert(before[i] == after[i] && before[i - 1] == after[i - 1]);
            } else if i > p + 1 {
                assert(before[i - 1] == after[i] && before[i - 2] == after[i - 1]);
            }
        }
        after.to_multiset_ensures();
        assert(after.remove(p as int) =~= before);
        assert(after.contains(x)) by {
            assert(after[p as int] == x);
        }
        assert(after.to_multiset() =~= before.to_multiset().insert(x));
    }
}

/// The names that are offered for the query `q`, which is in lower case.
pub fn rank_workspaces(entries: &[DirName], q: &str, limit: usize) -> (out: Vec<String>)
    ensures
        is_listing(texts(out@), dirs(entries@), q@, limit as nat),
{
    let ghost pred = |d: Dir| is_offered(d, q@);
    let mut ranked: Vec<DirName> = Vec::new();
    let mut i: usize = 0;
    proof {
        reveal(Seq::filter);
        assert(dirs(ranked@) =~= dirs(entries@).take(0).filter(pred));
    }
    while i < entries.len()
        invariant
            i <= entries@.len(),
            pred == |d: Dir| is_offered(d, q@),
            is_ranked(dirs(ranked@), q@),
            dirs(ranked@).to_multiset() == dirs(entries@).take(i as int).filter(
                pred,
            ).to_multiset(),
        decreases entries@.len() - i,
    {
        let name = chars_of(entries[i].name.as_str());
        let lower = chars_of(entries[i].lower.as_str());
        let hidden = name.len() > 0 && name[0] == '.';
        let ghost t = dirs(entries@).take(i + 1);
        proof {
            reveal(Seq::filter);
            assert(t.drop_last() =~= dirs(entries@).take(i as int));
            assert(t.last() == entries@[i as int]@);
            t.drop_last().filter(pred).to_multiset_ensures();
        }
        if !hidden && (q.unicode_len() == 0 || has(lower.as_slice(), q)) {
            let d = DirName { name: entries[i].name.clone(), lower: entries[i].lower.clone() };
            assert(d@ == entries@[i as int]@);
            insert_ranked(&mut ranked, d, q);
        }
        i += 1;
    }
    assert(dirs(entries@).take(i as int) =~= dirs(entries@));
    let n: usize = if limit < ranked.len() {
        limit
    } else {
        ranked.len()
    };
    let mut out: Vec<String> = Vec::new();
    let mut k: usize = 0;
    while k < n
        invariant
            k <= n <= ranked@.len(),
            texts(out@) == dir_names(dirs(ranked@)).take(k as int),
        decreases n - k,
    {
        let ghost before = out@;
        out.push(ranked[k].name.clone());
        assert(texts(out@) =~= texts(before).push(ranked@[k as int].name@));
        let ghost all = dir_names(dirs(ranked@));
        assert(all.take(k + 1) =~= all.take(k as int).push(all[k as int]));
        k += 1;
    }
    assert(is_ranked(dirs(ranked@), q@));
    out
}

impl SessionPool {
    /// List the subdirectories of the workspace root for autocomplete: `entries` are
    /// the names of all of them. Skips hidden entries, filters by case-insensitive
    /// substring, sorts (prefix matches first), and caps at `limit`. Lists nothing
    /// where workspaces are off.
    pub fn list_workspaces(&self, entries: &[String], query: &str, limit: usize) -> (out: Vec<
        String,
    >)
        ensures
            self.settings().root is None ==> out@.len() == 0,
            self.settings().root is Some ==> is_listing(
                texts(out@),
                texts(entries@).map_values(|n: Seq<char>| Dir { name: n, lower: lowercase(n) }),
                lowercase(trim(query@)),
                limit as nat,
            ),
    {
        if !self.workspace_enabled() {
            return Vec::new();
        }
        let chars = chars_of(query);
        let trimmed_query = string_of(trimmed(chars.as_slice()));
        let q = trimmed_query.as_str().to_lowercase();
        let mut all: Vec<DirName> = Vec::new();
        let ghost want = texts(entries@).map_values(
            |n: Seq<char>| Dir { name: n, lower: lowercase(n) },
        );
        let mut i: usize = 0;
        while i < entries.len()
            invariant
                i <= entries@.len(),
                want == texts(entries@).map_values(
                    |n: Seq<char>| Dir { name: n, lower: lowercase(n) },
                ),
                dirs(all@) == want.take(i as int),
            decreases entries@.len() - i,
        {
            let ghost before = all@;
            let d = DirName {
                name: entries[i].clone(),
                lower: entries[i].as_str().to_lowercase(),
            };
            let ghost x = d@;
            assert(x == want[i as int]);
            all.push(d);
            assert(dirs(all@) =~= dirs(before).push(x));
            assert(want.take(i + 1) =~= want.take(i as int).push(want[i as int]));
            i += 1;
        }
        assert(want.take(i as int) =~= want);
        rank_workspaces(all.as_slice(), q.as_str(), limit)
    }
}

/// A directory is offered unless it is hidden or the query does not occur in its name.
pub proof fn law_what_is_offered(d: Dir, q: Seq<char>)
    ensures
        is_offered(d, q) <==> !(d.name.len() > 0 && d.name[0] == '.') && (q.len() == 0 || contains(
            d.lower,
            q,
        )),
{
}

/// Names that begin with the query come before those that do not, and otherwise the
/// alphabet decides.
pub proof fn law_ranking(a: Dir, b: Dir, q: Seq<char>)
    ensures
        has_prefix(a.lower, q) && !has_prefix(b.lower, q) ==> ranks_before(a, b, q)
            && !ranks_before(b, a, q),
        has_prefix(a.lower, q) == has_prefix(b.lower, q) ==> ranks_before(a, b, q) == text_lt(
            a.name,
            b.name,
        ),
{
}

/// What is listed: directories of the root that are offered, no more than the limit, and
/// all of them where the limit allows; none stands before one that ranks before it.
pub proof fn law_listing(out: Seq<Seq<char>>, all: Seq<Dir>, q: Seq<char>, limit: nat)
    requires
        is_listing(out, all, q, limit),
    ensures
        out.len() == (if limit < offered(all, q).len() {
            limit
        } else {
            offered(all, q).len()
        }),
        exists|ranked: Seq<Dir>| #[trigger] lists(ranked, out, all, q),
{
    let ranked = choose|ranked: Seq<Dir>|
        {
            &&& #[trigger] is_ranked(ranked, q)
            &&& ranked.to_multiset() == all.filter(|d: Dir| is_offered(d, q)).to_multiset()
            &&& out == dir_names(ranked).take(
                if limit < ranked.len() {
                    limit as int
                } else {
                    ranked.len() as int
                },
            )
        };
    lemma_offered(all, q);
    let f = offered(all, q);
    ranked.to_multiset_ensures();
    f.to_multiset_ensures();
    assert(ranked.len() == f.len());
    assert forall|d: Dir| #[trigger] ranked.contains(d) <==> all.contains(d) && is_offered(d, q) by {
        assert(ranked.contains(d) <==> ranked.to_multiset().count(d) > 0);
        assert(f.contains(d) <==> f.to_multiset().count(d) > 0);
        lemma_offered_contains(all, q, d);
    }
    assert(lists(ranked, out, all, q));
}

/// Whether `ranked` are all the offered directories in order, and `out` are the names of the
/// first of them.
pub open spec fn lists(ranked: Seq<Dir>, out: Seq<Seq<char>>, all: Seq<Dir>, q: Seq<char>) -> bool {
    &&& ranked.len() == offered(all, q).len()
    &&& forall|d: Dir| #[trigger] ranked.contains(d) <==> all.contains(d) && is_offered(d, q)
    &&& forall|i: int|
        0 < i < ranked.len() ==> !ranks_before(#[trigger] ranked[i], ranked[i - 1], q)
    &&& forall|i: int| 0 <= i < out.len() ==> out[i] == (#[trigger] ranked[i]).name
}

/// Those of the directories that are offered, in their order.
pub open spec fn offered(all: Seq<Dir>, q: Seq<char>) -> Seq<Dir>
    decreases all.len(),
{
    if all.len() == 0 {
        Seq::empty()
    } else if is_offered(all.last(), q) {
        offered(all.drop_last(), q).push(all.last())
    } else {
        offered(all.drop_last(), q)
    }
}

proof fn lemma_offered(all: Seq<Dir>, q: Seq<char>)
    ensures
        offered(all, q) == all.filter(|d: Dir| is_offered(d, q)),
    decreases all.len(),
{
    reveal(Seq::filter);
    if all.len() > 0 {
        lemma_offered(all.drop_last(), q);
    } else {
        assert(offered(all, q) =~= all.filter(|d: Dir| is_offered(d, q)));
    }
}

proof fn lemma_offered_contains(all: Seq<Dir>, q: Seq<char>, d: Dir)
    ensures
        offered(all, q).contains(d) <==> all.contains(d) && is_offered(d, q),
    decreases all.len(),
{
    if all.len() > 0 {
        let front = all.drop_last();
        lemma_offered_contains(front, q, d);
        if all.contains(d) && d != all.last() {
            let i = choose|i: int| 0 <= i < all.len() && all[i] == d;
            assert(front[i] == d);
        }
        if front.contains(d) {
            let i = choose|i: int| 0 <= i < front.len() && front[i] == d;
            assert(all[i] == d);
        }
        assert(all[all.len() - 1] == all.last());
        let before = offered(front, q);
        let after = offered(all, q);
        if is_offered(all.last(), q) {
            assert(after[before.len() as int] == all.last());
            if before.contains(d) {
                let i = choose|i: int| 0 <= i < before.len() && before[i] == d;
                assert(after[i] == d);
            }
            if after.contains(d) && d != all.last() {
                let i = choose|i: int| 0 <= i < after.len() && after[i] == d;
                assert(before[i] == d);
            }
        }
    }
}

} // verus!
