//! Peer lists and outstanding-request lists: the small sequences a
//! table record is made of, with their membership reasoning.

use vstd::prelude::*;

use crate::ids::PeerId;

verus! {

/// An outstanding request to one peer, with the deadline at which the peer
/// counts as unresponsive.
#[derive(Clone, Copy, PartialEq, Eq, Debug, Structural)]
pub struct InFlight {
    pub peer: PeerId,
    pub deadline: u64,
}

/// No peer identifier occurs twice.
pub open spec fn no_dup(s: Seq<PeerId>) -> bool {
    forall|i: int, j: int| 0 <= i < j < s.len() ==> s[i] != s[j]
}

/// No peer occurs in both sequences.
pub open spec fn disjoint(a: Seq<PeerId>, b: Seq<PeerId>) -> bool {
    forall|p: PeerId| !(a.contains(p) && b.contains(p))
}

/// The peers of a sequence of outstanding requests.
pub open spec fn in_flight_peers(s: Seq<InFlight>) -> Seq<PeerId> {
    s.map_values(|f: InFlight| f.peer)
}

/// Some request in `s` is addressed to `p`.
pub open spec fn in_flight_has(s: Seq<InFlight>, p: PeerId) -> bool {
    exists|i: int| 0 <= i < s.len() && s[i].peer == p
}

/// Membership in a peer list after appending.
pub broadcast proof fn lemma_peer_push(s: Seq<PeerId>, p: PeerId, q: PeerId)
    ensures
        #[trigger] s.push(p).contains(q) <==> (s.contains(q) || p == q),
        no_dup(s) && !s.contains(p) ==> no_dup(s.push(p)),
{
    if s.push(p).contains(q) {
        let i = choose|i: int| 0 <= i < s.push(p).len() && s.push(p)[i] == q;
        if i < s.len() {
            assert(s[i] == q);
        }
    }
    if s.contains(q) {
        let i = choose|i: int| 0 <= i < s.len() && s[i] == q;
        assert(s.push(p)[i] == q);
    }
    if p == q {
        assert(s.push(p)[s.len() as int] == q);
    }
    if no_dup(s) && !s.contains(p) {
        assert forall|a: int, b: int| 0 <= a < b < s.push(p).len() implies s.push(p)[a] != s.push(
            p,
        )[b] by {
            if b == s.len() {
                assert(s.push(p)[a] == s[a]);
                if s[a] == p {
                    assert(s.contains(p));
                }
            } else {
                assert(s.push(p)[a] == s[a] && s.push(p)[b] == s[b]);
            }
        }
    }
}

/// Membership and duplicate-freedom in a peer list after removing one index.
pub broadcast proof fn lemma_peer_remove(s: Seq<PeerId>, i: int, q: PeerId)
    requires
        0 <= i < s.len(),
    ensures
        #[trigger] s.remove(i).contains(q) ==> s.contains(q),
        s.contains(q) && s[i] != q ==> s.remove(i).contains(q),
        no_dup(s) ==> no_dup(s.remove(i)),
        no_dup(s) && s[i] == q ==> !s.remove(i).contains(q),
{
    let r = s.remove(i);
    if r.contains(q) {
        let a = choose|a: int| 0 <= a < r.len() && r[a] == q;
        let a0 = if a < i { a } else { a + 1 };
        assert(s[a0] == q);
    }
    if s.contains(q) && s[i] != q {
        let a = choose|a: int| 0 <= a < s.len() && s[a] == q;
        let a1 = if a < i { a } else { a - 1 };
        assert(r[a1] == q);
    }
    if no_dup(s) {
        assert forall|a: int, b: int| 0 <= a < b < r.len() implies r[a] != r[b] by {
            let a0 = if a < i { a } else { a + 1 };
            let b0 = if b < i { b } else { b + 1 };
            assert(r[a] == s[a0] && r[b] == s[b0]);
        }
        if s[i] == q && r.contains(q) {
            let a = choose|a: int| 0 <= a < r.len() && r[a] == q;
            let a0 = if a < i { a } else { a + 1 };
            assert(s[a0] == q && a0 != i);
        }
    }
}

/// Membership in the outstanding-request list after appending.
pub broadcast proof fn lemma_in_flight_push(s: Seq<InFlight>, f: InFlight, q: PeerId)
    ensures
        #[trigger] in_flight_has(s.push(f), q) <==> (in_flight_has(s, q) || f.peer == q),
        no_dup(in_flight_peers(s)) && !in_flight_has(s, f.peer) ==> no_dup(
            in_flight_peers(s.push(f)),
        ),
{
    let s2 = s.push(f);
    if in_flight_has(s2, q) {
        let i = choose|i: int| 0 <= i < s2.len() && s2[i].peer == q;
        if i < s.len() {
            assert(s[i].peer == q);
        }
    }
    if in_flight_has(s, q) {
        let i = choose|i: int| 0 <= i < s.len() && s[i].peer == q;
        assert(s2[i].peer == q);
    }
    assert(s2[s.len() as int] == f);
    if no_dup(in_flight_peers(s)) && !in_flight_has(s, f.peer) {
        assert forall|a: int, b: int|
            0 <= a < b < in_flight_peers(s2).len() implies in_flight_peers(s2)[a]
            != in_flight_peers(s2)[b] by {
            assert(in_flight_peers(s2)[a] == s2[a].peer);
            assert(in_flight_peers(s2)[b] == s2[b].peer);
            if b < s.len() {
                assert(in_flight_peers(s)[a] == s[a].peer);
                assert(in_flight_peers(s)[b] == s[b].peer);
            } else {
                if s2[a].peer == f.peer {
                    assert(s[a].peer == f.peer);
                }
            }
        }
    }
}

/// Membership and duplicate-freedom in the outstanding-request list after
/// removing one index.
pub broadcast proof fn lemma_in_flight_remove(s: Seq<InFlight>, i: int, q: PeerId)
    requires
        0 <= i < s.len(),
    ensures
        #[trigger] in_flight_has(s.remove(i), q) ==> in_flight_has(s, q),
        in_flight_has(s, q) && s[i].peer != q ==> in_flight_has(s.remove(i), q),
        no_dup(in_flight_peers(s)) ==> no_dup(in_flight_peers(s.remove(i))),
        no_dup(in_flight_peers(s)) && s[i].peer == q ==> !in_flight_has(s.remove(i), q),
{
    let r = s.remove(i);
    if in_flight_has(r, q) {
        let a = choose|a: int| 0 <= a < r.len() && r[a].peer == q;
        let a0 = if a < i { a } else { a + 1 };
        assert(s[a0].peer == q);
    }
    if in_flight_has(s, q) && s[i].peer != q {
        let a = choose|a: int| 0 <= a < s.len() && s[a].peer == q;
        let a1 = if a < i { a } else { a - 1 };
        assert(r[a1].peer == q);
    }
    if no_dup(in_flight_peers(s)) {
        assert forall|a: int, b: int|
            0 <= a < b < in_flight_peers(r).len() implies in_flight_peers(r)[a]
            != in_flight_peers(r)[b] by {
            let a0 = if a < i { a } else { a + 1 };
            let b0 = if b < i { b } else { b + 1 };
            assert(in_flight_peers(r)[a] == s[a0].peer);
            assert(in_flight_peers(r)[b] == s[b0].peer);
            assert(in_flight_peers(s)[a0] == s[a0].peer);
            assert(in_flight_peers(s)[b0] == s[b0].peer);
        }
        if s[i].peer == q && in_flight_has(r, q) {
            let a = choose|a: int| 0 <= a < r.len() && r[a].peer == q;
            let a0 = if a < i { a } else { a + 1 };
            assert(in_flight_peers(s)[a0] == s[a0].peer);
            assert(in_flight_peers(s)[i] == s[i].peer);
        }
    }
}


/// Whether a peer list contains a peer.
pub fn contains_peer(v: &Vec<PeerId>, p: PeerId) -> (r: bool)
    ensures
        r == v@.contains(p),
{
    let mut i: usize = 0;
    while i < v.len()
        invariant
            0 <= i <= v@.len(),
            forall|k: int| 0 <= k < i ==> v@[k] != p,
        decreases v@.len() - i,
    {
        if v[i] == p {
            assert(v@.contains(p));
            return true;
        }
        i += 1;
    }
    false
}

/// The position of `p` in a peer list, if any.
pub fn find_peer(v: &Vec<PeerId>, p: PeerId) -> (r: Option<usize>)
    ensures
        match r {
            Some(i) => i < v@.len() && v@[i as int] == p,
            None => !v@.contains(p),
        },
{
    let mut i: usize = 0;
    while i < v.len()
        invariant
            0 <= i <= v@.len(),
            forall|k: int| 0 <= k < i ==> v@[k] != p,
        decreases v@.len() - i,
    {
        if v[i] == p {
            return Some(i);
        }
        i += 1;
    }
    None
}

/// The position of the outstanding request addressed to `p`, if any.
pub fn find_in_flight(v: &Vec<InFlight>, p: PeerId) -> (r: Option<usize>)
    ensures
        match r {
            Some(i) => i < v@.len() && v@[i as int].peer == p,
            None => !in_flight_has(v@, p),
        },
{
    let mut i: usize = 0;
    while i < v.len()
        invariant
            0 <= i <= v@.len(),
            forall|k: int| 0 <= k < i ==> v@[k].peer != p,
        decreases v@.len() - i,
    {
        if v[i].peer == p {
            return Some(i);
        }
        i += 1;
    }
    None
}

/// A peer stands in the projected peer list exactly when some request is
/// addressed to it.
pub broadcast proof fn lemma_in_flight_peers_contains(s: Seq<InFlight>, p: PeerId)
    ensures
        #[trigger] in_flight_peers(s).contains(p) <==> in_flight_has(s, p),
{
    if in_flight_peers(s).contains(p) {
        let i = choose|i: int|
            0 <= i < in_flight_peers(s).len() && in_flight_peers(s)[i] == p;
        assert(s[i].peer == p);
    }
    if in_flight_has(s, p) {
        let i = choose|i: int| 0 <= i < s.len() && s[i].peer == p;
        assert(in_flight_peers(s)[i] == p);
    }
}

/// The position of the outstanding request addressed to `p` (meaningful only
/// when `in_flight_has`).
pub open spec fn if_index_of(s: Seq<InFlight>, p: PeerId) -> int {
    choose|i: int| 0 <= i < s.len() && s[i].peer == p
}

/// The position of `p` in a peer list (meaningful only when it contains `p`).
pub open spec fn peer_index_of(s: Seq<PeerId>, p: PeerId) -> int {
    choose|i: int| 0 <= i < s.len() && s[i] == p
}

/// In a duplicate-free request list, any position holding `p` is the one
/// that lookup finds.
pub proof fn lemma_unique_in_flight(s: Seq<InFlight>, i: int, p: PeerId)
    requires
        no_dup(in_flight_peers(s)),
        0 <= i < s.len(),
        s[i].peer == p,
    ensures
        in_flight_has(s, p),
        if_index_of(s, p) == i,
{
    assert(in_flight_has(s, p));
    let j = if_index_of(s, p);
    assert(0 <= j < s.len() && s[j].peer == p);
    if i != j {
        assert(in_flight_peers(s)[i] == s[i].peer);
        assert(in_flight_peers(s)[j] == s[j].peer);
    }
}

/// In a duplicate-free peer list, any position holding `p` is the one that
/// lookup finds.
pub proof fn lemma_unique_peer(s: Seq<PeerId>, i: int, p: PeerId)
    requires
        no_dup(s),
        0 <= i < s.len(),
        s[i] == p,
    ensures
        s.contains(p),
        peer_index_of(s, p) == i,
{
    assert(s.contains(p));
    let j = peer_index_of(s, p);
    assert(0 <= j < s.len() && s[j] == p);
}

} // verus!
