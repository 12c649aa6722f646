//! The collector's side: the ports that workers reported, in whatever order
//! they arrived, become one ascending listing without repeats.
use vstd::prelude::*;
use crate::partition::{in_class, is_port, lemma_classes_partition};

verus! {

/// Each entry is smaller than the next: ascending, with no repeats.
pub open spec fn strictly_ascending(s: Seq<u16>) -> bool {
    forall|i: int, j: int| 0 <= i < j < s.len() ==> s[i] < s[j]
}

/// `listing` is the final output for the reports `received`: ascending,
/// without repeats, and holding exactly the ports that were received.
pub open spec fn is_listing_of(listing: Seq<u16>, received: Seq<u16>) -> bool {
    &&& strictly_ascending(listing)
    &&& forall|p: u16| listing.contains(p) <==> received.contains(p)
}

/// Puts `port` into the ascending list `v` unless it is there already.
fn insert_ascending(v: &mut Vec<u16>, port: u16)
    requires
        strictly_ascending(old(v)@),
    ensures
        strictly_ascending(final(v)@),
        forall|p: u16| final(v)@.contains(p) <==> (old(v)@.contains(p) || p == port),
{
    let mut i: usize = 0;
    while i < v.len() && v[i] < port
        invariant
            0 <= i <= v@.len(),
            v@ == old(v)@,
            strictly_ascending(v@),
            forall|k: int| 0 <= k < i ==> v@[k] < port,
        decreases v@.len() - i,
    {
        i = i + 1;
    }
    if i < v.len() && v[i] == port {
        assert(v@[i as int] == port);
        assert(v@.contains(port));
        return;
    }
    let ghost before = v@;
    proof {
        before.insert_ensures(i as int, port);
    }
    v.insert(i, port);
    assert forall|a: int, b: int| 0 <= a < b < v@.len() implies v@[a] < v@[b] by {
        if b < i {
            assert(v@[a] == before[a] && v@[b] == before[b]);
        } else if b == i {
            assert(v@[a] == before[a]);
        } else if a < i {
            assert(v@[b] == before[b - 1]);
            assert(v@[a] == before[a]);
        } else if a == i {
            assert(v@[b] == before[b - 1]);
            assert(port <= before[i as int]);
        } else {
            assert(v@[a] == before[a - 1] && v@[b] == before[b - 1]);
        }
    }
    assert forall|p: u16| #[trigger] v@.contains(p) implies before.contains(p) || p == port by {
        let k = choose|k: int| 0 <= k < v@.len() && v@[k] == p;
        if k < i {
            assert(before[k] == p);
        } else if k > i {
            assert(before[k - 1] == p);
        }
    }
    assert forall|p: u16| #[trigger] before.contains(p) implies v@.contains(p) by {
        let k = choose|k: int| 0 <= k < before.len() && before[k] == p;
        if k < i {
            assert(v@[k] == p);
        } else {
            assert(v@[k + 1] == p);
        }
    }
    assert(v@[i as int] == port);
}

/// The collector's final listing of the ports that workers reported: sorted
/// ascending, each port once, whatever the order and repeats of `received`.
pub fn finalize_ports(received: &Vec<u16>) -> (listing: Vec<u16>)
    ensures
        is_listing_of(listing@, received@),
        listing@.no_duplicates(),
{
    let mut listing: Vec<u16> = Vec::new();
    let mut i: usize = 0;
    while i < received.len()
        invariant
            0 <= i <= received@.len(),
            strictly_ascending(listing@),
            forall|p: u16| listing@.contains(p) <==> received@.take(i as int).contains(p),
        decreases received@.len() - i,
    {
        proof {
            assert(received@.take(i + 1) == received@.take(i as int).push(received@[i as int]));
        }
        insert_ascending(&mut listing, received[i]);
        proof {
            assert forall|p: u16| listing@.contains(p) <==> received@.take(i + 1).contains(p) by {
                let t = received@.take(i as int);
                if t.contains(p) {
                    let k = choose|k: int| 0 <= k < t.len() && t[k] == p;
                    assert(t.push(received@[i as int])[k] == p);
                }
                if p == received@[i as int] {
                    assert(t.push(received@[i as int])[i as int] == p);
                }
                if t.push(received@[i as int]).contains(p) {
                    let k = choose|k: int| 0 <= k < t.len() + 1 && t.push(received@[i as int])[k] == p;
                    if k < t.len() {
                        assert(t[k] == p);
                    }
                }
            }
        }
        i = i + 1;
    }
    assert(received@.take(received@.len() as int) == received@);
    assert forall|a: int, b: int| 0 <= a < listing@.len() && 0 <= b < listing@.len() && a != b
        implies listing@[a] != listing@[b] by {
        if a < b {
            assert(listing@[a] < listing@[b]);
        } else {
            assert(listing@[b] < listing@[a]);
        }
    }
    listing
}

/// The ports that worker `offset` of `stride` reports when the target
/// accepts connections on exactly the ports of `listening`.
pub open spec fn worker_reports(offset: int, stride: int, listening: Set<int>) -> Set<int> {
    Set::new(|p: int| in_class(p, offset, stride) && listening.contains(p))
}

/// `received` holds, in any order and with any repeats, the ports that the
/// `w` workers reported, and nothing else.
pub open spec fn received_from_workers(received: Seq<u16>, w: int, listening: Set<int>) -> bool {
    forall|p: u16|
        received.contains(p) <==> exists|o: int|
            0 <= o < w && #[trigger] worker_reports(o, w, listening).contains(p as int)
}

/// Completeness of the scan: for every worker count in `[1, 65535]`, whatever
/// order the workers' reports arrive in, the final listing holds exactly the
/// ports on which the target listens.
pub proof fn lemma_listing_is_listening_set(
    w: int,
    listening: Set<int>,
    received: Seq<u16>,
    listing: Seq<u16>,
)
    requires
        1 <= w <= 65535,
        forall|p: int| #[trigger] listening.contains(p) ==> is_port(p),
        received_from_workers(received, w, listening),
        is_listing_of(listing, received),
    ensures
        forall|p: u16| listing.contains(p) <==> listening.contains(p as int),
{
    lemma_classes_partition(w);
    assert forall|p: u16| listing.contains(p) <==> listening.contains(p as int) by {
        if listening.contains(p as int) {
            let o = (p as int - 1) % w;
            assert(in_class(p as int, o, w));
            assert(worker_reports(o, w, listening).contains(p as int));
        }
    }
}

/// A scan of a target that listens on no port gives an empty listing.
pub proof fn lemma_no_listeners_empty_listing(
    w: int,
    received: Seq<u16>,
    listing: Seq<u16>,
)
    requires
        1 <= w <= 65535,
        received_from_workers(received, w, Set::empty()),
        is_listing_of(listing, received),
    ensures
        listing.len() == 0,
{
    lemma_listing_is_listening_set(w, Set::empty(), received, listing);
    if listing.len() > 0 {
        assert(listing.contains(listing[0]));
    }
}

/// Two ascending sequences without repeats that hold the same ports are equal.
pub proof fn lemma_ascending_unique(a: Seq<u16>, b: Seq<u16>)
    requires
        strictly_ascending(a),
        strictly_ascending(b),
        forall|p: u16| a.contains(p) <==> b.contains(p),
    ensures
        a == b,
    decreases a.len(),
{
    if a.len() == 0 {
        if b.len() > 0 {
            assert(b.contains(b[0]));
        }
        assert(a =~= b);
    } else if b.len() == 0 {
        assert(a.contains(a[0]));
    } else {
        assert(a.contains(a[0]));
        assert(b.contains(b[0]));
        let ka = choose|k: int| 0 <= k < b.len() && b[k] == a[0];
        let kb = choose|k: int| 0 <= k < a.len() && a[k] == b[0];
        if ka > 0 {
            assert(b[0] < b[ka]);
        }
        if kb > 0 {
            assert(a[0] < a[kb]);
        }
        assert(a[0] == b[0]);
        let a1 = a.drop_first();
        let b1 = b.drop_first();
        assert forall|p: u16| a1.contains(p) <==> b1.contains(p) by {
            if a1.contains(p) {
                let k = choose|k: int| 0 <= k < a1.len() && a1[k] == p;
                assert(a[k + 1] == p && a[0] < a[k + 1]);
                assert(b.contains(p));
                let j = choose|j: int| 0 <= j < b.len() && b[j] == p;
                assert(j != 0);
                assert(b1[j - 1] == p);
            }
            if b1.contains(p) {
                let k = choose|k: int| 0 <= k < b1.len() && b1[k] == p;
                assert(b[k + 1] == p && b[0] < b[k + 1]);
                assert(a.contains(p));
                let j = choose|j: int| 0 <= j < a.len() && a[j] == p;
                assert(j != 0);
                assert(a1[j - 1] == p);
            }
        }
        lemma_ascending_unique(a1, b1);
        assert(a =~= b) by {
            assert forall|i: int| 0 <= i < a.len() implies a[i] == b[i] by {
                if i > 0 {
                    assert(a[i] == a1[i - 1]);
                    assert(b[i] == b1[i - 1]);
                }
            }
        }
    }
}

/// Determinism of the outcome: for the same listening ports, scans with any
/// two worker counts give the same listing, in the same order.
pub proof fn lemma_listing_independent_of_worker_count(
    w1: int,
    w2: int,
    listening: Set<int>,
    received1: Seq<u16>,
    received2: Seq<u16>,
    listing1: Seq<u16>,
    listing2: Seq<u16>,
)
    requires
        1 <= w1 <= 65535,
        1 <= w2 <= 65535,
        forall|p: int| #[trigger] listening.contains(p) ==> is_port(p),
        received_from_workers(received1, w1, listening),
        received_from_workers(received2, w2, listening),
        is_listing_of(listing1, received1),
        is_listing_of(listing2, received2),
    ensures
        listing1 == listing2,
{
    lemma_listing_is_listening_set(w1, listening, received1, listing1);
    lemma_listing_is_listening_set(w2, listening, received2, listing2);
    lemma_ascending_unique(listing1, listing2);
}

} // verus!
