//! Laws of the table of pending requests: each entry leaves it once.

use crate::chunk::MessageChunkWithChunkInfo;
use vstd::prelude::*;

verus! {

/// Abstract state of one pending request.
pub ghost struct MessageStateView {
    pub request_id: u32,
    pub chunks: Seq<MessageChunkWithChunkInfo>,
    pub deadline: u64,
}

/// The request ids of the entries, in table order.
pub open spec fn spec_ids(s: Seq<MessageStateView>) -> Seq<u32> {
    s.map_values(|e: MessageStateView| e.request_id)
}

/// No two entries share a request id.
pub open spec fn spec_unique_ids(s: Seq<MessageStateView>) -> bool {
    forall|a: int, b: int|
        0 <= a < s.len() && 0 <= b < s.len() && a != b ==> #[trigger] s[a].request_id
            != #[trigger] s[b].request_id
}

/// Some entry has this request id.
pub open spec fn spec_is_pending(s: Seq<MessageStateView>, id: u32) -> bool {
    exists|i: int| 0 <= i < s.len() && #[trigger] s[i].request_id == id
}

/// Entries for the request `id`.
pub open spec fn spec_for_request(id: u32) -> spec_fn(MessageStateView) -> bool {
    |e: MessageStateView| e.request_id == id
}

/// Entries whose deadline is not after `now`.
pub open spec fn spec_expired_at(now: u64) -> spec_fn(MessageStateView) -> bool {
    |e: MessageStateView| e.deadline <= now
}

/// Entries that do not match `p`.
pub open spec fn spec_not(p: spec_fn(MessageStateView) -> bool) -> spec_fn(MessageStateView) -> bool {
    |e: MessageStateView| !p(e)
}

/// Filtering a sequence with one more element at its end.
pub proof fn lemma_filter_push<A>(s: Seq<A>, x: A, p: spec_fn(A) -> bool)
    ensures
        s.push(x).filter(p) == (if p(x) { s.filter(p).push(x) } else { s.filter(p) }),
{
    reveal(Seq::filter);
    assert(s.push(x).drop_last() =~= s);
}

/// Every element of a filtered sequence is an element of the sequence.
pub proof fn lemma_filter_subset<A>(s: Seq<A>, p: spec_fn(A) -> bool)
    ensures
        forall|i: int|
            0 <= i < s.filter(p).len() ==> s.contains(#[trigger] s.filter(p)[i]) && p(
                s.filter(p)[i],
            ),
    decreases s.len(),
{
    reveal(Seq::filter);
    if s.len() > 0 {
        let t = s.drop_last();
        lemma_filter_subset(t, p);
        assert(s =~= t.push(s.last()));
        lemma_filter_push(t, s.last(), p);
        assert forall|i: int| 0 <= i < s.filter(p).len() implies s.contains(
            #[trigger] s.filter(p)[i],
        ) && p(s.filter(p)[i]) by {
            if i < t.filter(p).len() {
                assert(s.filter(p)[i] == t.filter(p)[i]);
                let k = choose|k: int| 0 <= k < t.len() && t[k] == t.filter(p)[i];
                assert(s[k] == t[k]);
            } else {
                assert(s.filter(p)[i] == s[s.len() - 1]);
            }
        }
    }
}

/// Filtering keeps a sequence whose elements all match.
pub proof fn lemma_filter_all<A>(s: Seq<A>, p: spec_fn(A) -> bool)
    requires
        forall|i: int| 0 <= i < s.len() ==> p(#[trigger] s[i]),
    ensures
        s.filter(p) == s,
    decreases s.len(),
{
    reveal(Seq::filter);
    if s.len() > 0 {
        let t = s.drop_last();
        assert forall|i: int| 0 <= i < t.len() implies p(#[trigger] t[i]) by {
            assert(t[i] == s[i]);
        }
        lemma_filter_all(t, p);
        assert(s =~= t.push(s.last()));
    }
}

/// Filtering drops a sequence whose elements all fail.
pub proof fn lemma_filter_none<A>(s: Seq<A>, p: spec_fn(A) -> bool)
    requires
        forall|i: int| 0 <= i < s.len() ==> !p(#[trigger] s[i]),
    ensures
        s.filter(p) == Seq::<A>::empty(),
    decreases s.len(),
{
    reveal(Seq::filter);
    if s.len() > 0 {
        let t = s.drop_last();
        assert forall|i: int| 0 <= i < t.len() implies !p(#[trigger] t[i]) by {
            assert(t[i] == s[i]);
        }
        lemma_filter_none(t, p);
    }
}

/// Taking out the one entry of a request, in a table without repeated ids,
/// is removing it at its index.
pub proof fn lemma_remove_request(s: Seq<MessageStateView>, i: int)
    requires
        spec_unique_ids(s),
        0 <= i < s.len(),
    ensures
        s.filter(spec_not(spec_for_request(s[i].request_id))) == s.remove(i),
        s.filter(spec_for_request(s[i].request_id)) == seq![s[i]],
{
    let id = s[i].request_id;
    let p = spec_for_request(id);
    let q = spec_not(p);
    let a = s.take(i);
    let b = s.skip(i + 1);
    assert(s =~= a + seq![s[i]] + b);
    assert forall|k: int| 0 <= k < a.len() implies q(#[trigger] a[k]) && !p(a[k]) by {
        assert(a[k] == s[k]);
    }
    assert forall|k: int| 0 <= k < b.len() implies q(#[trigger] b[k]) && !p(b[k]) by {
        assert(b[k] == s[i + 1 + k]);
    }
    lemma_filter_all(a, q);
    lemma_filter_all(b, q);
    lemma_filter_none(a, p);
    lemma_filter_none(b, p);
    Seq::filter_distributes_over_add(a + seq![s[i]], b, q);
    Seq::filter_distributes_over_add(a, seq![s[i]], q);
    Seq::filter_distributes_over_add(a + seq![s[i]], b, p);
    Seq::filter_distributes_over_add(a, seq![s[i]], p);
    lemma_filter_push(Seq::<MessageStateView>::empty(), s[i], q);
    lemma_filter_push(Seq::<MessageStateView>::empty(), s[i], p);
    assert(Seq::<MessageStateView>::empty().push(s[i]) =~= seq![s[i]]);
    reveal(Seq::filter);
    assert(Seq::<MessageStateView>::empty().filter(q) =~= Seq::<MessageStateView>::empty());
    assert(Seq::<MessageStateView>::empty().filter(p) =~= Seq::<MessageStateView>::empty());
    assert(s.remove(i) =~= a + b);
}

/// Each request is delivered at most once. An operation on the table takes
/// out the entries that match some predicate and delivers each of them; in a
/// table without repeated ids, the delivered ids are distinct, none of them
/// is still pending afterwards, every id that was pending is either
/// delivered or still pending, and the table stays without repeated ids.
pub proof fn lemma_delivered_once(s: Seq<MessageStateView>, p: spec_fn(MessageStateView) -> bool)
    requires
        spec_unique_ids(s),
    ensures
        spec_unique_ids(s.filter(p)),
        spec_unique_ids(s.filter(spec_not(p))),
        forall|id: u32|
            #[trigger] spec_is_pending(s.filter(p), id) ==> !spec_is_pending(
                s.filter(spec_not(p)),
                id,
            ),
        forall|id: u32|
            #[trigger] spec_is_pending(s, id) <==> spec_is_pending(s.filter(p), id)
                || spec_is_pending(s.filter(spec_not(p)), id),
    decreases s.len(),
{
    let q = spec_not(p);
    if s.len() == 0 {
        reveal(Seq::filter);
    } else {
        let t = s.drop_last();
        let x = s.last();
        assert(s =~= t.push(x));
        assert forall|a: int, b: int|
            0 <= a < t.len() && 0 <= b < t.len() && a != b implies #[trigger] t[a].request_id
            != #[trigger] t[b].request_id by {
            assert(t[a] == s[a] && t[b] == s[b]);
        }
        lemma_delivered_once(t, p);
        lemma_filter_push(t, x, p);
        lemma_filter_push(t, x, q);
        lemma_filter_subset(t, p);
        lemma_filter_subset(t, q);
        // `x` has an id that no entry of `t`, nor of its filterings, has.
        assert forall|i: int| 0 <= i < t.len() implies #[trigger] t[i].request_id != x.request_id by {
            assert(t[i] == s[i]);
            assert(x == s[s.len() - 1]);
        }
        assert forall|i: int| 0 <= i < t.filter(p).len() implies #[trigger] t.filter(p)[i].request_id
            != x.request_id by {
            let k = choose|k: int| 0 <= k < t.len() && t[k] == t.filter(p)[i];
            assert(t[k].request_id != x.request_id);
        }
        assert forall|i: int| 0 <= i < t.filter(q).len() implies #[trigger] t.filter(q)[i].request_id
            != x.request_id by {
            let k = choose|k: int| 0 <= k < t.len() && t[k] == t.filter(q)[i];
            assert(t[k].request_id != x.request_id);
        }
        assert forall|id: u32| #[trigger] spec_is_pending(s, id) <==> spec_is_pending(s.filter(p), id)
            || spec_is_pending(s.filter(q), id) by {
            if spec_is_pending(s, id) {
                let i = choose|i: int| 0 <= i < s.len() && #[trigger] s[i].request_id == id;
                if i < t.len() {
                    assert(t[i].request_id == id);
                    assert(spec_is_pending(t, id));
                    if spec_is_pending(t.filter(p), id) {
                        let k = choose|k: int| 0 <= k < t.filter(p).len() && #[trigger] t.filter(p)[k].request_id == id;
                        assert(s.filter(p)[k] == t.filter(p)[k]);
                    } else {
                        let k = choose|k: int| 0 <= k < t.filter(q).len() && #[trigger] t.filter(q)[k].request_id == id;
                        assert(s.filter(q)[k] == t.filter(q)[k]);
                    }
                } else if p(x) {
                    assert(s.filter(p)[s.filter(p).len() - 1] == x);
                } else {
                    assert(s.filter(q)[s.filter(q).len() - 1] == x);
                }
            }
            if spec_is_pending(s.filter(p), id) {
                let k = choose|k: int| 0 <= k < s.filter(p).len() && #[trigger] s.filter(p)[k].request_id == id;
                if k < t.filter(p).len() {
                    assert(s.filter(p)[k] == t.filter(p)[k]);
                    assert(spec_is_pending(t.filter(p), id));
                    let i = choose|i: int| 0 <= i < t.len() && #[trigger] t[i].request_id == id;
                    assert(s[i] == t[i]);
                } else {
                    assert(s[s.len() - 1].request_id == id);
                }
            }
            if spec_is_pending(s.filter(q), id) {
                let k = choose|k: int| 0 <= k < s.filter(q).len() && #[trigger] s.filter(q)[k].request_id == id;
                if k < t.filter(q).len() {
                    assert(s.filter(q)[k] == t.filter(q)[k]);
                    assert(spec_is_pending(t.filter(q), id));
                    let i = choose|i: int| 0 <= i < t.len() && #[trigger] t[i].request_id == id;
                    assert(s[i] == t[i]);
                } else {
                    assert(s[s.len() - 1].request_id == id);
                }
            }
        }
        assert forall|id: u32| #[trigger] spec_is_pending(s.filter(p), id) implies !spec_is_pending(
            s.filter(q),
            id,
        ) by {
            let k = choose|k: int| 0 <= k < s.filter(p).len() && #[trigger] s.filter(p)[k].request_id == id;
            if spec_is_pending(s.filter(q), id) {
                let m = choose|m: int| 0 <= m < s.filter(q).len() && #[trigger] s.filter(q)[m].request_id == id;
                if k < t.filter(p).len() {
                    assert(s.filter(p)[k] == t.filter(p)[k]);
                    assert(spec_is_pending(t.filter(p), id));
                    if m < t.filter(q).len() {
                        assert(s.filter(q)[m] == t.filter(q)[m]);
                        assert(spec_is_pending(t.filter(q), id));
                    } else {
                        assert(s.filter(q)[m] == x);
                    }
                } else {
                    assert(s.filter(p)[k] == x);
                    if m < t.filter(q).len() {
                        assert(s.filter(q)[m] == t.filter(q)[m]);
                    } else {
                        assert(p(x) && q(x));
                    }
                }
            }
        }
        assert forall|a: int, b: int|
            0 <= a < s.filter(p).len() && 0 <= b < s.filter(p).len() && a != b implies #[trigger] s.filter(p)[a].request_id
            != #[trigger] s.filter(p)[b].request_id by {
            if a < t.filter(p).len() && b < t.filter(p).len() {
                assert(s.filter(p)[a] == t.filter(p)[a]);
                assert(s.filter(p)[b] == t.filter(p)[b]);
            } else if a < t.filter(p).len() {
                assert(s.filter(p)[a] == t.filter(p)[a]);
                assert(s.filter(p)[b] == x);
            } else {
                assert(s.filter(p)[a] == x);
                assert(s.filter(p)[b] == t.filter(p)[b]);
            }
        }
        assert forall|a: int, b: int|
            0 <= a < s.filter(q).len() && 0 <= b < s.filter(q).len() && a != b implies #[trigger] s.filter(q)[a].request_id
            != #[trigger] s.filter(q)[b].request_id by {
            if a < t.filter(q).len() && b < t.filter(q).len() {
                assert(s.filter(q)[a] == t.filter(q)[a]);
                assert(s.filter(q)[b] == t.filter(q)[b]);
            } else if a < t.filter(q).len() {
                assert(s.filter(q)[a] == t.filter(q)[a]);
                assert(s.filter(q)[b] == x);
            } else {
                assert(s.filter(q)[a] == x);
                assert(s.filter(q)[b] == t.filter(q)[b]);
            }
        }
    }
}

} // verus!
