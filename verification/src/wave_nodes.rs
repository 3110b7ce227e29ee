//! The integer structure of a wave graph build: the order in which nodes receive
//! their serving ordinals, and how a piece of edge evidence is classified.
use vstd::prelude::*;
use crate::error::Error;
use crate::text::str_eq;

verus! {

/// Whether node `a` comes before node `b` when nodes are ordered by their serving
/// identifiers, and nodes with equal identifiers keep their given order.
pub open spec fn node_before(ids: Seq<u32>, a: int, b: int) -> bool {
    ids[a] < ids[b] || (ids[a] == ids[b] && a < b)
}

/// Whether `positions` are listed in node order.
pub open spec fn in_node_order(ids: Seq<u32>, positions: Seq<usize>) -> bool {
    forall|k: int, m: int| 0 <= k < m < positions.len() ==> node_before(ids, #[trigger] positions[k] as int, #[trigger] positions[m] as int)
}

/// Whether `order` lists the positions of `ids` sorted by serving identifier, stably:
/// every position, each once, and each before every later one.
pub open spec fn serving_order(ids: Seq<u32>, order: Seq<usize>) -> bool {
    &&& order.len() == ids.len()
    &&& forall|k: int| 0 <= k < order.len() ==> #[trigger] order[k] < ids.len()
    &&& forall|n: usize| (n as int) < ids.len() ==> #[trigger] order.contains(n)
    &&& in_node_order(ids, order)
}

/// Inserts position `i` into a sorted listing of the positions before it.
fn insert_position(ids: &[u32], order: &mut Vec<usize>, i: usize)
    requires
        i < ids@.len(),
        old(order)@.len() == i,
        forall|k: int| 0 <= k < old(order)@.len() ==> #[trigger] old(order)@[k] < i,
        forall|k: int, m: int|
            0 <= k < m < old(order)@.len() ==> node_before(ids@, #[trigger] old(order)@[k] as int, #[trigger] old(order)@[m] as int),
    ensures
        final(order)@.len() == i + 1,
        forall|k: int| 0 <= k < final(order)@.len() ==> #[trigger] final(order)@[k] <= i,
        forall|x: usize| #[trigger] final(order)@.contains(x) <==> (old(order)@.contains(x) || x == i),
        forall|k: int, m: int|
            0 <= k < m < final(order)@.len() ==> node_before(ids@, #[trigger] final(order)@[k] as int, #[trigger] final(order)@[m] as int),
{
    let key = ids[i];
    let mut p: usize = order.len();
    while p > 0 && key < ids[order[p - 1]]
        invariant
            p <= order@.len(),
            order@ == old(order)@,
            i < ids@.len(),
            key == ids@[i as int],
            forall|k: int| 0 <= k < order@.len() ==> #[trigger] order@[k] < i,
            forall|k: int| p <= k < order@.len() ==> key < ids@[#[trigger] order@[k] as int],
        decreases p,
    {
        p = p - 1;
    }
    let ghost before = order@;
    order.insert(p, i);
    proof {
        let after = order@;
        assert(after == before.insert(p as int, i));
        assert forall|k: int, m: int| 0 <= k < m < after.len() implies node_before(
            ids@,
            #[trigger] after[k] as int,
            #[trigger] after[m] as int,
        ) by {
            if m < p {
                assert(after[k] == before[k] && after[m] == before[m]);
            } else if m == p {
                assert(after[k] == before[k]);
                assert(before[k] < i);
                if p > 0 {
                    assert(!(key < ids@[before[p - 1] as int]));
                    if k < p - 1 {
                        assert(node_before(ids@, before[k] as int, before[p - 1] as int));
                    }
                }
            } else if k < p {
                assert(after[k] == before[k] && after[m] == before[m - 1]);
            } else if k == p {
                assert(after[m] == before[m - 1]);
                assert(key < ids@[before[m - 1] as int]);
            } else {
                assert(after[k] == before[k - 1] && after[m] == before[m - 1]);
            }
        }
        assert forall|x: usize| #[trigger] after.contains(x) <==> (before.contains(x) || x == i) by {
            if after.contains(x) {
                let k = choose|k: int| 0 <= k < after.len() && after[k] == x;
                if k < p {
                    assert(before[k] == x);
                } else if k > p {
                    assert(before[k - 1] == x);
                }
            }
            if before.contains(x) {
                let k = choose|k: int| 0 <= k < before.len() && before[k] == x;
                if k < p {
                    assert(after[k] == x);
                } else {
                    assert(after[k + 1] == x);
                }
            }
            if x == i {
                assert(after[p as int] == x);
            }
        }
        assert forall|k: int| 0 <= k < after.len() implies #[trigger] after[k] <= i by {
            if k < p {
                assert(after[k] == before[k]);
            } else if k > p {
                assert(after[k] == before[k - 1]);
            }
        }
    }
}

/// The positions of the nodes with serving identifiers `ids`, in the order in which
/// they receive the ordinals 0, 1, 2, ...: by identifier, equal identifiers in their
/// given order. A graph with more nodes than `u32` ordinals is refused.
pub fn wave_node_order(ids: &[u32]) -> (order: Result<Vec<usize>, Error>)
    ensures
        ids@.len() > 0x1_0000_0000 <==> order is Err,
        order is Err ==> (order matches Err(Error::Invalid(_))),
        order matches Ok(o) ==> serving_order(ids@, o@),
{
    if ids.len() > 0xffff_ffff && ids.len() - 0xffff_ffff > 1 {
        return Err(Error::Invalid("Wave graph has too many nodes".to_owned()));
    }
    let mut order: Vec<usize> = Vec::new();
    let mut i: usize = 0;
    while i < ids.len()
        invariant
            i <= ids@.len(),
            order@.len() == i,
            forall|k: int| 0 <= k < order@.len() ==> #[trigger] order@[k] < i,
            forall|k: int, m: int|
                0 <= k < m < order@.len() ==> node_before(ids@, #[trigger] order@[k] as int, #[trigger] order@[m] as int),
            forall|n: usize| n < i ==> #[trigger] order@.contains(n),
        decreases ids@.len() - i,
    {
        insert_position(ids, &mut order, i);
        i = i + 1;
    }
    Ok(order)
}

/// Order of edge keys: by source ordinal, then by target ordinal.
pub open spec fn key_less(a: (u32, u32), b: (u32, u32)) -> bool {
    a.0 < b.0 || (a.0 == b.0 && a.1 < b.1)
}

/// Whether `keys` is strictly ascending by source, then target.
pub open spec fn keys_ascending(keys: Seq<(u32, u32)>) -> bool {
    forall|i: int, j: int| 0 <= i < j < keys.len() ==> key_less(#[trigger] keys[i], #[trigger] keys[j])
}

/// Adds `key` to an ascending list of edge keys, keeping it ascending.
fn insert_key(keys: &mut Vec<(u32, u32)>, key: (u32, u32))
    requires
        keys_ascending(old(keys)@),
    ensures
        keys_ascending(final(keys)@),
        forall|x: (u32, u32)| #[trigger] final(keys)@.contains(x) <==> (old(keys)@.contains(x) || x == key),
{
    let mut i: usize = 0;
    while i < keys.len() && (keys[i].0 < key.0 || (keys[i].0 == key.0 && keys[i].1 < key.1))
        invariant
            i <= keys@.len(),
            keys@ == old(keys)@,
            keys_ascending(keys@),
            forall|j: int| 0 <= j < i ==> key_less(#[trigger] keys@[j], key),
        decreases keys@.len() - i,
    {
        i = i + 1;
    }
    if i < keys.len() && keys[i].0 == key.0 && keys[i].1 == key.1 {
        assert(keys@[i as int] == key);
        assert(keys@.contains(key));
        return;
    }
    let ghost before = keys@;
    keys.insert(i, key);
    proof {
        let after = keys@;
        assert(after == before.insert(i as int, key));
        if i < before.len() {
            assert(key_less(key, before[i as int]));
        }
        assert forall|a: int, b: int| 0 <= a < b < after.len() implies key_less(#[trigger] after[a], #[trigger] after[b]) by {
            if b < i {
            } else if b == i {
                assert(after[a] == before[a]);
            } else if a < i {
                assert(after[b] == before[b - 1]);
                if i < before.len() {
                    assert(before[i as int] == before[b - 1] || key_less(before[i as int], before[b - 1]));
                }
            } else if a == i {
                assert(after[b] == before[b - 1]);
                assert(before[i as int] == before[b - 1] || key_less(before[i as int], before[b - 1]));
            } else {
                assert(after[a] == before[a - 1]);
                assert(after[b] == before[b - 1]);
            }
        }
        assert forall|x: (u32, u32)| #[trigger] after.contains(x) <==> (before.contains(x) || x == key) by {
            if after.contains(x) {
                let j = choose|j: int| 0 <= j < after.len() && after[j] == x;
                if j < i {
                    assert(before[j] == x);
                } else if j > i {
                    assert(before[j - 1] == x);
                }
            }
            if before.contains(x) {
                let j = choose|j: int| 0 <= j < before.len() && before[j] == x;
                if j < i {
                    assert(after[j] == x);
                } else {
                    assert(after[j + 1] == x);
                }
            }
            if x == key {
                assert(after[i as int] == x);
            }
        }
    }
}

/// The distinct (source, target) ordinal pairs among the edge evidence `pairs`,
/// ascending: the edges a build aggregates evidence into, in the order it emits them.
pub fn wave_edge_keys(pairs: &[(u32, u32)]) -> (keys: Vec<(u32, u32)>)
    ensures
        keys_ascending(keys@),
        forall|x: (u32, u32)| #[trigger] keys@.contains(x) <==> pairs@.contains(x),
{
    let mut keys: Vec<(u32, u32)> = Vec::new();
    let mut i: usize = 0;
    while i < pairs.len()
        invariant
            i <= pairs@.len(),
            keys_ascending(keys@),
            forall|x: (u32, u32)| #[trigger] keys@.contains(x) <==> pairs@.take(i as int).contains(x),
        decreases pairs@.len() - i,
    {
        insert_key(&mut keys, pairs[i]);
        proof {
            let next = pairs@.take(i + 1);
            assert(next =~= pairs@.take(i as int).push(pairs@[i as int]));
            assert forall|x: (u32, u32)| #[trigger] keys@.contains(x) <==> next.contains(x) by {
                if next.contains(x) {
                    let j = choose|j: int| 0 <= j < next.len() && next[j] == x;
                    if j < i {
                        assert(pairs@.take(i as int)[j] == x);
                    }
                }
                if pairs@.take(i as int).contains(x) {
                    let j = choose|j: int| 0 <= j < i && pairs@.take(i as int)[j] == x;
                    assert(next[j] == x);
                }
                if x == pairs@[i as int] {
                    assert(next[i as int] == x);
                }
            }
        }
        i = i + 1;
    }
    assert(pairs@.take(pairs@.len() as int) =~= pairs@);
    keys
}

/// The ASCII lower-case form of a character; other characters are kept.
pub open spec fn ascii_lower(c: char) -> char {
    if 'A' <= c <= 'Z' {
        ((c as u32) + 32) as char
    } else {
        c
    }
}

/// Whether two texts are equal once ASCII letters are lower-cased.
pub open spec fn ascii_case_eq(a: Seq<char>, b: Seq<char>) -> bool {
    a.len() == b.len() && forall|i: int| 0 <= i < a.len() ==> ascii_lower(#[trigger] a[i]) == ascii_lower(b[i])
}

fn lower_char(c: char) -> (lower: char)
    ensures
        lower == ascii_lower(c),
{
    if 'A' <= c && c <= 'Z' {
        ((c as u8) + 32) as char
    } else {
        c
    }
}

fn eq_ignoring_ascii_case(a: &str, b: &str) -> (eq: bool)
    ensures
        eq == ascii_case_eq(a@, b@),
{
    let n = a.unicode_len();
    if n != b.unicode_len() {
        return false;
    }
    let mut i: usize = 0;
    while i < n
        invariant
            n == a@.len(),
            n == b@.len(),
            i <= n,
            forall|k: int| 0 <= k < i ==> ascii_lower(#[trigger] a@[k]) == ascii_lower(b@[k]),
        decreases n - i,
    {
        if lower_char(a.get_char(i)) != lower_char(b.get_char(i)) {
            return false;
        }
        i = i + 1;
    }
    true
}

/// Whether edge evidence of `polarity` counts against the association: a negative
/// polarity, in any ASCII case, or a revoked one.
pub fn negative_polarity(polarity: &str) -> (negative: bool)
    ensures
        negative == (ascii_case_eq(polarity@, "negative"@) || polarity@ == "revoked"@),
{
    proof {
        reveal_strlit("negative");
        reveal_strlit("revoked");
    }
    eq_ignoring_ascii_case(polarity, "negative") || str_eq(polarity, "revoked")
}

/// Whether edge evidence marks a bridge: it carries the bridge hint, or its
/// association kind is `bridge` in any ASCII case.
pub fn bridge_evidence(bridge_hint: bool, association_kind: &str) -> (bridge: bool)
    ensures
        bridge == (bridge_hint || ascii_case_eq(association_kind@, "bridge"@)),
{
    proof {
        reveal_strlit("bridge");
    }
    bridge_hint || eq_ignoring_ascii_case(association_kind, "bridge")
}

/// A serving order lists each position once.
pub proof fn serving_order_lists_each_node_once(ids: Seq<u32>, order: Seq<usize>)
    requires
        serving_order(ids, order),
    ensures
        order.no_duplicates(),
{
    assert forall|k: int, m: int| 0 <= k < order.len() && 0 <= m < order.len() && k != m implies order[k]
        != order[m] by {
        if k < m {
            assert(node_before(ids, order[k] as int, order[m] as int));
        } else {
            assert(node_before(ids, order[m] as int, order[k] as int));
        }
    }
}

proof fn lemma_node_listing_unique(ids: Seq<u32>, a: Seq<usize>, b: Seq<usize>)
    requires
        in_node_order(ids, a),
        in_node_order(ids, b),
        a.to_set() == b.to_set(),
    ensures
        a == b,
    decreases a.len(),
{
    if a.len() == 0 {
        if b.len() > 0 {
            assert(b.to_set().contains(b[0]));
            assert(!a.contains(b[0]));
        }
        assert(a =~= b);
    } else {
        assert(a.to_set().contains(a[0]));
        assert(b.contains(a[0]));
        let j = choose|j: int| 0 <= j < b.len() && b[j] == a[0];
        assert(b.to_set().contains(b[0]));
        assert(a.contains(b[0]));
        let i = choose|i: int| 0 <= i < a.len() && a[i] == b[0];
        if j > 0 {
            assert(node_before(ids, b[0] as int, b[j] as int));
        }
        if i > 0 {
            assert(node_before(ids, a[0] as int, a[i] as int));
        }
        assert(a[0] == b[0]);
        let a1 = a.drop_first();
        let b1 = b.drop_first();
        assert forall|x: usize| a1.to_set().contains(x) <==> b1.to_set().contains(x) by {
            if a1.contains(x) {
                let k = choose|k: int| 0 <= k < a1.len() && a1[k] == x;
                assert(a[k + 1] == x && node_before(ids, a[0] as int, a[k + 1] as int));
                assert(a.to_set().contains(x));
                assert(b.contains(x));
                let m = choose|m: int| 0 <= m < b.len() && b[m] == x;
                assert(m != 0);
                assert(b1[m - 1] == x);
            }
            if b1.contains(x) {
                let k = choose|k: int| 0 <= k < b1.len() && b1[k] == x;
                assert(b[k + 1] == x && node_before(ids, b[0] as int, b[k + 1] as int));
                assert(b.to_set().contains(x));
                assert(a.contains(x));
                let m = choose|m: int| 0 <= m < a.len() && a[m] == x;
                assert(m != 0);
                assert(a1[m - 1] == x);
            }
        }
        assert(a1.to_set() =~= b1.to_set());
        assert(in_node_order(ids, a1)) by {
            assert forall|k: int, m: int| 0 <= k < m < a1.len() implies node_before(ids, #[trigger] a1[k] as int, #[trigger] a1[m] as int) by {
                assert(a1[k] == a[k + 1] && a1[m] == a[m + 1]);
            }
        }
        assert(in_node_order(ids, b1)) by {
            assert forall|k: int, m: int| 0 <= k < m < b1.len() implies node_before(ids, #[trigger] b1[k] as int, #[trigger] b1[m] as int) by {
                assert(b1[k] == b[k + 1] && b1[m] == b[m + 1]);
            }
        }
        lemma_node_listing_unique(ids, a1, b1);
        assert forall|k: int| 0 <= k < a.len() implies a[k] == b[k] by {
            if k > 0 {
                assert(a[k] == a1[k - 1]);
                assert(b[k] == b1[k - 1]);
            }
        }
        assert(a =~= b);
    }
}

/// The ordinals of a build are determined by the serving identifiers: two serving
/// orders of the same nodes are the same.
pub proof fn serving_order_is_unique(ids: Seq<u32>, a: Seq<usize>, b: Seq<usize>)
    requires
        serving_order(ids, a),
        serving_order(ids, b),
    ensures
        a == b,
{
    assert forall|x: usize| a.to_set().contains(x) <==> b.to_set().contains(x) by {
        if a.contains(x) {
            let k = choose|k: int| 0 <= k < a.len() && a[k] == x;
            assert(a[k] < ids.len());
            assert(b.contains(x));
        }
        if b.contains(x) {
            let k = choose|k: int| 0 <= k < b.len() && b[k] == x;
            assert(b[k] < ids.len());
            assert(a.contains(x));
        }
    }
    assert(a.to_set() =~= b.to_set());
    lemma_node_listing_unique(ids, a, b);
}

} // verus!
