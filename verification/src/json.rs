//! JSON texts, read and written with `serde_json`.

use vstd::prelude::*;

use crate::table::TextTable;
use crate::text::{hex_byte, texts};

verus! {

/// The table that a JSON object of strings holds; nothing for any other text.
pub uninterp spec fn json_map(data: Seq<char>) -> Option<Map<Seq<char>, Seq<char>>>;

/// The table with the given entries; of several values for one key the last counts.
pub open spec fn pairs_map(pairs: Seq<(String, String)>) -> Map<Seq<char>, Seq<char>>
    decreases pairs.len(),
{
    if pairs.len() == 0 {
        Map::empty()
    } else {
        pairs_map(pairs.drop_last()).insert(pairs.last().0@, pairs.last().1@)
    }
}

/// What a character becomes inside a JSON string.
pub open spec fn json_char(c: char) -> Seq<char> {
    if c == '"' {
        "\\\""@
    } else if c == '\\' {
        "\\\\"@
    } else if c as u32 == 0x8 {
        "\\b"@
    } else if c as u32 == 0x9 {
        "\\t"@
    } else if c as u32 == 0xa {
        "\\n"@
    } else if c as u32 == 0xc {
        "\\f"@
    } else if c as u32 == 0xd {
        "\\r"@
    } else if (c as u32) < 0x20 {
        "\\u00"@ + hex_byte(c as u8)
    } else {
        seq![c]
    }
}

/// The contents of a JSON string.
pub open spec fn json_contents(s: Seq<char>) -> Seq<char>
    decreases s.len(),
{
    if s.len() == 0 {
        Seq::empty()
    } else {
        json_contents(s.drop_last()) + json_char(s.last())
    }
}

/// A text as a JSON string.
pub open spec fn json_quoted(s: Seq<char>) -> Seq<char> {
    "\""@ + json_contents(s) + "\""@
}

/// `serde_json::from_str` into a map from strings to strings: the entries of the
/// object that `data` holds, in no particular order, or nothing where `data` is
/// not such an object.
#[verifier::external_body]
fn parse_pairs(data: &str) -> (r: Option<Vec<(String, String)>>)
    ensures
        match r {
            Some(pairs) => json_map(data@) == Some(pairs_map(pairs@)),
            None => json_map(data@) is None,
        },
{
    serde_json::from_str::<std::collections::HashMap<String, String>>(data)
        .ok()
        .map(|map| map.into_iter().collect())
}

/// `serde_json::to_string_pretty` of a map from strings to strings: a text from
/// which the same map is read back. Writing string keys and values to memory does
/// not fail.
#[verifier::external_body]
fn render_pairs(pairs: &[(String, String)]) -> (r: Option<String>)
    ensures
        r is Some,
        json_map(r->0@) == Some(pairs_map(pairs@)),
{
    let map: std::collections::BTreeMap<&str, &str> =
        pairs.iter().map(|(k, v)| (k.as_str(), v.as_str())).collect();
    serde_json::to_string_pretty(&map).ok()
}

/// `serde_json::to_string` of a string: quotes, backslashes and control
/// characters are escaped, all else stands for itself. Writing to memory does not
/// fail.
#[verifier::external_body]
fn quote(s: &str) -> (r: Option<String>)
    ensures
        r is Some,
        r->0@ == json_quoted(s@),
{
    serde_json::to_string(s).ok()
}

/// A text as a JSON string.
pub fn json_string(s: &str) -> (out: String)
    ensures
        out@ == json_quoted(s@),
{
    match quote(s) {
        Some(out) => out,
        None => String::new(),
    }
}

/// The table that a JSON object holds; an empty one where `data` is anything else.
pub fn parse_mapping(data: &str) -> (t: TextTable)
    ensures
        t@ == (match json_map(data@) {
            Some(m) => m,
            None => Map::empty(),
        }),
{
    let mut t = TextTable::new();
    if let Some(pairs) = parse_pairs(data) {
        let mut i: usize = 0;
        while i < pairs.len()
            invariant
                i <= pairs@.len(),
                t@ == pairs_map(pairs@.take(i as int)),
            decreases pairs@.len() - i,
        {
            t.insert(pairs[i].0.as_str(), pairs[i].1.as_str());
            i += 1;
            assert(pairs@.take(i as int).drop_last() =~= pairs@.take(i - 1));
        }
        assert(pairs@.take(i as int) =~= pairs@);
    }
    t
}

/// A JSON object from which the table is read back.
pub fn render_mapping(t: &TextTable) -> (out: String)
    ensures
        json_map(out@) == Some(t@),
{
    let mut pairs: Vec<(String, String)> = Vec::new();
    let n: usize = t.len();
    let mut i: usize = 0;
    while i < n
        invariant
            i <= n,
            n == t.order().len(),
            pairs@.len() == i,
            forall|j: int|
                0 <= j < i ==> (#[trigger] pairs@[j]).0@ == t.order()[j] && pairs@[j].1@
                    == t@[t.order()[j]],
        decreases n - i,
    {
        let (k, v) = t.entry(i);
        pairs.push((k.to_string(), v.to_string()));
        i += 1;
    }
    proof {
        lemma_pairs_map(pairs@, t.order(), t@);
        assert(pairs_map(pairs@) =~= t@) by {
            assert forall|k: Seq<char>| pairs_map(pairs@).contains_key(k) == t@.contains_key(k) by {
                assert(t.order().to_set().contains(k) == t@.dom().contains(k));
            }
        }
    }
    match render_pairs(pairs.as_slice()) {
        Some(out) => out,
        None => String::new(),
    }
}

proof fn lemma_pairs_map(
    pairs: Seq<(String, String)>,
    keys: Seq<Seq<char>>,
    m: Map<Seq<char>, Seq<char>>,
)
    requires
        pairs.len() == keys.len(),
        forall|j: int|
            0 <= j < keys.len() ==> (#[trigger] pairs[j]).0@ == keys[j] && pairs[j].1@
                == m[keys[j]],
    ensures
        forall|k: Seq<char>| #[trigger] pairs_map(pairs).contains_key(k) == keys.contains(k),
        forall|k: Seq<char>|
            pairs_map(pairs).contains_key(k) ==> #[trigger] pairs_map(pairs)[k] == m[k],
    decreases pairs.len(),
{
    if pairs.len() > 0 {
        lemma_pairs_map(pairs.drop_last(), keys.drop_last(), m);
        let last = pairs.last();
        assert(last.0@ == keys.last());
        let before = pairs_map(pairs.drop_last());
        assert(pairs_map(pairs) == before.insert(last.0@, last.1@));
        assert forall|k: Seq<char>| #[trigger] pairs_map(pairs).contains_key(k) == keys.contains(
            k,
        ) by {
            if keys.contains(k) {
                let j = choose|j: int| 0 <= j < keys.len() && keys[j] == k;
                if j < keys.len() - 1 {
                    assert(keys.drop_last()[j] == k);
                }
            }
            if keys.drop_last().contains(k) {
                let j = choose|j: int| 0 <= j < keys.len() - 1 && keys.drop_last()[j] == k;
                assert(keys[j] == k);
            }
            assert(keys[keys.len() - 1] == last.0@);
            assert(before.contains_key(k) == keys.drop_last().contains(k));
        }
        assert forall|k: Seq<char>| pairs_map(pairs).contains_key(k) implies #[trigger] pairs_map(
            pairs,
        )[k] == m[k] by {
            if k != last.0@ {
                assert(before.contains_key(k));
                assert(before[k] == m[k]);
            }
        }
    }
}

} // verus!
