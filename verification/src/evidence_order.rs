//! The order in which lexically retrieved evidence joins a query's results: by
//! lexical rank, then by identifier, as many as the result limit leaves room for.
use vstd::prelude::*;
use crate::candidates::{CandidateAccumulator, LaneView};
use crate::refs::{CognitiveRef, RefView};

verus! {

/// The kinds of evidence that lexical hits contribute directly.
#[derive(Debug, Clone, Copy, PartialEq, Eq, Structural)]
pub enum EvidenceKind {
    DerivedRepresentation,
    Occurrence,
}

/// The reference to evidence of `kind` with identifier `id`.
pub open spec fn evidence_ref(kind: EvidenceKind, id: u128) -> RefView {
    match kind {
        EvidenceKind::DerivedRepresentation => RefView::DerivedRepresentation(id),
        EvidenceKind::Occurrence => RefView::Occurrence(id),
    }
}

/// Order of (rank, identifier) pairs: by rank, then by identifier.
pub open spec fn pair_less(a: (usize, u128), b: (usize, u128)) -> bool {
    a.0 < b.0 || (a.0 == b.0 && a.1 < b.1)
}

/// Whether `pairs` is strictly ascending by rank, then identifier.
pub open spec fn pairs_ascending(pairs: Seq<(usize, u128)>) -> bool {
    forall|i: int, j: int| 0 <= i < j < pairs.len() ==> pair_less(#[trigger] pairs[i], #[trigger] pairs[j])
}

/// The (rank, identifier) pairs of the evidence of `kind` that a lexical lane hit.
pub open spec fn lexical_evidence(lanes: Map<RefView, LaneView>, kind: EvidenceKind) -> Set<(usize, u128)> {
    Set::new(
        |p: (usize, u128)|
            lanes.contains_key(evidence_ref(kind, p.1)) && lanes[evidence_ref(kind, p.1)].lexical == Some(
                p.0,
            ),
    )
}

/// The pairs of `pairs`, ascending and each once.
pub open spec fn sorted_pairs(pairs: Set<(usize, u128)>) -> Seq<(usize, u128)> {
    choose|listing: Seq<(usize, u128)>| pairs_ascending(listing) && listing.to_set() == pairs
}

/// The first `n` entries of `s`, or all of them when there are fewer.
pub open spec fn first_n<A>(s: Seq<A>, n: nat) -> Seq<A> {
    if s.len() <= n {
        s
    } else {
        s.take(n as int)
    }
}

/// A set of pairs has exactly one ascending listing.
pub proof fn pair_listing_is_unique(a: Seq<(usize, u128)>, b: Seq<(usize, u128)>)
    requires
        pairs_ascending(a),
        pairs_ascending(b),
        a.to_set() == b.to_set(),
    ensures
        a == b,
    decreases a.len(),
{
    if a.len() == 0 {
        if b.len() > 0 {
            assert(b.to_set().contains(b[0]));
            assert(!a.contains(b[0]));
        }
        assert(a =~= b);
    } else {
        assert(a.to_set().contains(a[0]));
        assert(b.to_set().contains(a[0]));
        assert(b.contains(a[0]));
        let j = choose|j: int| 0 <= j < b.len() && b[j] == a[0];
        assert(b.to_set().contains(b[0]));
        assert(a.to_set().contains(b[0]));
        assert(a.contains(b[0]));
        let i = choose|i: int| 0 <= i < a.len() && a[i] == b[0];
        if j > 0 {
            assert(pair_less(b[0], b[j]));
        }
        if i > 0 {
            assert(pair_less(a[0], a[i]));
        }
        assert(a[0] == b[0]);
        let a1 = a.drop_first();
        let b1 = b.drop_first();
        assert forall|x: (usize, u128)| a1.to_set().contains(x) <==> b1.to_set().contains(x) by {
            if a1.contains(x) {
                let k = choose|k: int| 0 <= k < a1.len() && a1[k] == x;
                assert(a[k + 1] == x && pair_less(a[0], a[k + 1]));
                assert(a.contains(x));
                assert(a.to_set().contains(x));
                assert(b.to_set().contains(x));
                assert(b.contains(x));
                let m = choose|m: int| 0 <= m < b.len() && b[m] == x;
                assert(m != 0);
                assert(b1[m - 1] == x);
            }
            if b1.contains(x) {
                let k = choose|k: int| 0 <= k < b1.len() && b1[k] == x;
                assert(b[k + 1] == x && pair_less(b[0], b[k + 1]));
                assert(b.contains(x));
                assert(b.to_set().contains(x));
                assert(a.to_set().contains(x));
                assert(a.contains(x));
                let m = choose|m: int| 0 <= m < a.len() && a[m] == x;
                assert(m != 0);
                assert(a1[m - 1] == x);
            }
        }
        assert(a1.to_set() =~= b1.to_set());
        pair_listing_is_unique(a1, b1);
        assert(a.len() == b.len());
        assert forall|k: int| 0 <= k < a.len() implies a[k] == b[k] by {
            if k > 0 {
                assert(a[k] == a1[k - 1]);
                assert(b[k] == b1[k - 1]);
            }
        }
        assert(a =~= b);
    }
}

/// Adds `pair` to an ascending list of pairs, keeping it ascending.
fn insert_pair(pairs: &mut Vec<(usize, u128)>, pair: (usize, u128))
    requires
        pairs_ascending(old(pairs)@),
    ensures
        pairs_ascending(final(pairs)@),
        forall|x: (usize, u128)| #[trigger] final(pairs)@.contains(x) <==> (old(pairs)@.contains(x) || x == pair),
{
    let mut i: usize = 0;
    while i < pairs.len() && (pairs[i].0 < pair.0 || (pairs[i].0 == pair.0 && pairs[i].1 < pair.1))
        invariant
            i <= pairs@.len(),
            pairs@ == old(pairs)@,
            pairs_ascending(pairs@),
            forall|j: int| 0 <= j < i ==> pair_less(#[trigger] pairs@[j], pair),
        decreases pairs@.len() - i,
    {
        i = i + 1;
    }
    if i < pairs.len() && pairs[i].0 == pair.0 && pairs[i].1 == pair.1 {
        assert(pairs@[i as int] == pair);
        assert(pairs@.contains(pair));
        return;
    }
    let ghost before = pairs@;
    pairs.insert(i, pair);
    proof {
        let after = pairs@;
        assert(after == before.insert(i as int, pair));
        if i < before.len() {
            assert(pair_less(pair, before[i as int]));
        }
        assert forall|a: int, b: int| 0 <= a < b < after.len() implies pair_less(#[trigger] after[a], #[trigger] after[b]) by {
            if b < i {
            } else if b == i {
                assert(after[a] == before[a]);
            } else if a < i {
                assert(after[b] == before[b - 1]);
                if i < before.len() {
                    assert(pair_less(before[a], pair));
                    assert(before[i as int] == before[b - 1] || pair_less(before[i as int], before[b - 1]));
                }
            } else if a == i {
                assert(after[b] == before[b - 1]);
                assert(before[i as int] == before[b - 1] || pair_less(before[i as int], before[b - 1]));
            } else {
                assert(after[a] == before[a - 1]);
                assert(after[b] == before[b - 1]);
            }
        }
        assert forall|x: (usize, u128)| #[trigger] after.contains(x) <==> (before.contains(x) || x == pair) by {
            if after.contains(x) {
                let j = choose|j: int| 0 <= j < after.len() && after[j] == x;
                if j < i {
                    assert(before[j] == x);
                } else if j > i {
                    assert(before[j - 1] == x);
                }
            }
            if before.contains(x) {
                let j = choose|j: int| 0 <= j < before.len() && before[j] == x;
                if j < i {
                    assert(after[j] == x);
                } else {
                    assert(after[j + 1] == x);
                }
            }
            if x == pair {
                assert(after[i as int] == x);
            }
        }
    }
}

/// Whether `r` is evidence of `kind`, and its identifier if so.
fn evidence_id(r: &CognitiveRef, kind: EvidenceKind) -> (id: Option<u128>)
    ensures
        match id {
            Some(x) => r@ == evidence_ref(kind, x),
            None => forall|x: u128| r@ != evidence_ref(kind, x),
        },
{
    match (kind, r) {
        (EvidenceKind::DerivedRepresentation, CognitiveRef::DerivedRepresentation(x)) => Some(*x),
        (EvidenceKind::Occurrence, CognitiveRef::Occurrence(x)) => Some(*x),
        _ => None,
    }
}

/// The lexically hit evidence of `kind`, by rank then identifier, at most `room` of it.
pub fn ranked_lexical_evidence(candidates: &CandidateAccumulator, kind: EvidenceKind, room: usize) -> (ranked:
    Vec<(usize, u128)>)
    requires
        candidates.wf(),
    ensures
        ranked@ == first_n(sorted_pairs(lexical_evidence(candidates.view(), kind)), room as nat),
{
    let ranks = candidates.lexical_ranks();
    let ghost lanes = candidates.view();
    let mut sorted: Vec<(usize, u128)> = Vec::new();
    let mut i: usize = 0;
    while i < ranks.len()
        invariant
            i <= ranks@.len(),
            lanes == candidates.view(),
            forall|a: int| 0 <= a < ranks@.len() ==> lanes.contains_key(#[trigger] ranks@[a].0@)
                && lanes[ranks@[a].0@].lexical == Some(ranks@[a].1),
            pairs_ascending(sorted@),
            forall|p: (usize, u128)| #[trigger] sorted@.contains(p) <==> exists|a: int|
                0 <= a < i && #[trigger] ranks@[a].0@ == evidence_ref(kind, p.1) && ranks@[a].1 == p.0,
        decreases ranks@.len() - i,
    {
        let rank = ranks[i].1;
        match evidence_id(&ranks[i].0, kind) {
            Some(id) => {
                insert_pair(&mut sorted, (rank, id));
                proof {
                    assert forall|p: (usize, u128)| #[trigger] sorted@.contains(p) <==> exists|a: int|
                        0 <= a < i + 1 && #[trigger] ranks@[a].0@ == evidence_ref(kind, p.1) && ranks@[a].1
                            == p.0 by {
                        if p == (rank, id) {
                            assert(ranks@[i as int].0@ == evidence_ref(kind, p.1));
                        }
                    }
                }
            },
            None => {
                proof {
                    assert forall|p: (usize, u128)| #[trigger] sorted@.contains(p) <==> exists|a: int|
                        0 <= a < i + 1 && #[trigger] ranks@[a].0@ == evidence_ref(kind, p.1) && ranks@[a].1
                            == p.0 by {
                        if exists|a: int|
                            0 <= a < i + 1 && #[trigger] ranks@[a].0@ == evidence_ref(kind, p.1) && ranks@[a].1
                                == p.0 {
                            let a = choose|a: int|
                                0 <= a < i + 1 && #[trigger] ranks@[a].0@ == evidence_ref(kind, p.1)
                                    && ranks@[a].1 == p.0;
                            if a == i {
                                assert(ranks@[i as int].0@ != evidence_ref(kind, p.1));
                            }
                        }
                    }
                }
            },
        }
        i = i + 1;
    }
    proof {
        let s = lexical_evidence(lanes, kind);
        assert forall|p: (usize, u128)| #[trigger] sorted@.to_set().contains(p) <==> s.contains(p) by {
            if sorted@.contains(p) {
                let a = choose|a: int|
                    0 <= a < ranks@.len() && #[trigger] ranks@[a].0@ == evidence_ref(kind, p.1) && ranks@[a].1
                        == p.0;
                assert(lanes.contains_key(ranks@[a].0@));
            }
            if s.contains(p) {
                let r = evidence_ref(kind, p.1);
                assert(lanes.contains_key(r) && lanes[r].lexical is Some);
                let a = choose|a: int| 0 <= a < ranks@.len() && #[trigger] ranks@[a].0@ == r;
                assert(lanes[ranks@[a].0@].lexical == Some(ranks@[a].1));
                assert(sorted@.contains(p));
            }
        }
        assert(sorted@.to_set() =~= s);
        let listing = sorted_pairs(s);
        assert(pairs_ascending(listing) && listing.to_set() == s);
        pair_listing_is_unique(sorted@, listing);
    }
    sorted.truncate(room);
    sorted
}

} // verus!
