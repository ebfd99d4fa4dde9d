//! Reassembly of the chunks of one inbound message.

use crate::chunk::{MessageChunk, MessageChunkWithChunkInfo};
use crate::status::StatusCode;
use vstd::prelude::*;
use vstd::seq_lib::group_to_multiset_ensures;

verus! {

/// The lowest sequence number among the chunks.
pub open spec fn spec_lowest_sequence_number(s: Seq<MessageChunkWithChunkInfo>) -> int
    decreases s.len(),
{
    if s.len() <= 1 {
        s[0].header.sequence_number as int
    } else {
        let m = spec_lowest_sequence_number(s.drop_last());
        let x = s.last().header.sequence_number as int;
        if x < m { x } else { m }
    }
}

/// `j` is the first position in `s` of a chunk with sequence number `seq`.
pub open spec fn spec_first_numbered(s: Seq<MessageChunkWithChunkInfo>, seq: int, j: int) -> bool {
    &&& 0 <= j < s.len()
    &&& s[j].header.sequence_number == seq
    &&& forall|i: int| 0 <= i < j ==> #[trigger] s[i].header.sequence_number != seq
}

/// The first chunk of `s` (in order) with sequence number `seq` holds `data`.
pub open spec fn spec_has_chunk(s: Seq<MessageChunkWithChunkInfo>, seq: int, data: Seq<u8>) -> bool {
    exists|j: int| #[trigger] spec_first_numbered(s, seq, j) && s[j].data_with_header@ == data
}

/// `after` is `before` rearranged by `perm` (`after[i] == before[perm[i]]`,
/// each position used once), and chunks with equal sequence numbers keep
/// their relative order.
pub open spec fn spec_stable_arrangement(
    before: Seq<MessageChunkWithChunkInfo>,
    after: Seq<MessageChunkWithChunkInfo>,
    perm: Seq<int>,
) -> bool {
    &&& perm.len() == before.len() == after.len()
    &&& forall|i: int|
        0 <= i < after.len() ==> 0 <= #[trigger] perm[i] < before.len() && after[i] == before[perm[i]]
    &&& forall|k: int|
        #![trigger before[k]]
        0 <= k < before.len() ==> exists|i: int| 0 <= i < after.len() && #[trigger] perm[i] == k
    &&& forall|i: int, j: int|
        0 <= i < j < after.len() && after[i].header.sequence_number
            == after[j].header.sequence_number ==> #[trigger] perm[i] < #[trigger] perm[j]
}

/// `out` is a merge of `input`: starting at the lowest sequence number, it
/// holds one chunk for each number of the unbroken run `low, low + 1, ...`
/// found in `input`, in that order, and stops where the run stops. Of
/// several chunks with one number, the first in `input` is kept.
pub open spec fn spec_merged(input: Seq<MessageChunkWithChunkInfo>, out: Seq<MessageChunk>) -> bool {
    let low = spec_lowest_sequence_number(input);
    &&& out.len() >= 1
    &&& forall|k: int|
        0 <= k < out.len() ==> #[trigger] spec_has_chunk(input, low + k, out[k].data@)
    &&& forall|j: int|
        #![trigger input[j]]
        0 <= j < input.len() ==> input[j].header.sequence_number != low + out.len()
}

proof fn lemma_lowest(s: Seq<MessageChunkWithChunkInfo>)
    requires
        s.len() >= 1,
    ensures
        exists|j: int|
            0 <= j < s.len() && #[trigger] s[j].header.sequence_number
                == spec_lowest_sequence_number(s),
        forall|j: int|
            0 <= j < s.len() ==> #[trigger] s[j].header.sequence_number
                >= spec_lowest_sequence_number(s),
    decreases s.len(),
{
    if s.len() == 1 {
        assert(s[0].header.sequence_number == spec_lowest_sequence_number(s));
    } else {
        let t = s.drop_last();
        lemma_lowest(t);
        let m = spec_lowest_sequence_number(t);
        let x = s.last().header.sequence_number as int;
        assert(spec_lowest_sequence_number(s) == if x < m { x } else { m });
        let j0 = choose|j: int|
            0 <= j < t.len() && #[trigger] t[j].header.sequence_number
                == spec_lowest_sequence_number(t);
        assert(s[j0] == t[j0]);
        assert forall|j: int| 0 <= j < s.len() implies #[trigger] s[j].header.sequence_number
            >= spec_lowest_sequence_number(s) by {
            if j < s.len() - 1 {
                assert(s[j] == t[j]);
            }
        }
        if s.last().header.sequence_number < spec_lowest_sequence_number(t) {
            assert(s[s.len() - 1].header.sequence_number == spec_lowest_sequence_number(s));
        } else {
            assert(s[j0].header.sequence_number == spec_lowest_sequence_number(s));
        }
    }
}

proof fn lemma_same_elements(a: Seq<MessageChunkWithChunkInfo>, b: Seq<MessageChunkWithChunkInfo>)
    requires
        a.to_multiset() == b.to_multiset(),
    ensures
        forall|x: MessageChunkWithChunkInfo| #[trigger] a.contains(x) <==> b.contains(x),
{
    broadcast use group_to_multiset_ensures;

    assert forall|x: MessageChunkWithChunkInfo| #[trigger] a.contains(x) <==> b.contains(x) by {
        assert(a.contains(x) <==> a.to_multiset().count(x) > 0);
        assert(b.contains(x) <==> b.to_multiset().count(x) > 0);
    }
}

/// Relies on `slice::sort_by_key`: it orders the chunks by ascending
/// sequence number and keeps every chunk; the sort is stable, so chunks with
/// equal numbers keep their order.
#[verifier::external_body]
fn sort_by_sequence_number(chunks: &mut Vec<MessageChunkWithChunkInfo>)
    ensures
        final(chunks)@.to_multiset() == old(chunks)@.to_multiset(),
        forall|i: int, j: int|
            0 <= i < j < final(chunks)@.len() ==> #[trigger] final(chunks)@[i].header.sequence_number
                <= #[trigger] final(chunks)@[j].header.sequence_number,
        exists|perm: Seq<int>| spec_stable_arrangement(old(chunks)@, final(chunks)@, perm),
{
    chunks.sort_by_key(|c| c.header.sequence_number);
}

/// The walk over the stably sorted chunks yields a merge of the input.
proof fn lemma_merge_walk(
    input: Seq<MessageChunkWithChunkInfo>,
    sorted: Seq<MessageChunkWithChunkInfo>,
    perm: Seq<int>,
    taken: Seq<int>,
    out: Seq<MessageChunk>,
    first: int,
)
    requires
        input.len() >= 1,
        sorted.to_multiset() == input.to_multiset(),
        spec_stable_arrangement(input, sorted, perm),
        first == sorted[0].header.sequence_number,
        out.len() >= 1,
        taken.len() == out.len(),
        forall|k: int|
            #![trigger taken[k]]
            0 <= k < taken.len() ==> 0 <= taken[k] < sorted.len() && sorted[taken[k]].header.sequence_number
                == first + k && out[k].data == sorted[taken[k]].data_with_header,
        forall|k: int, j: int|
            0 <= k < taken.len() && 0 <= j < #[trigger] taken[k] ==> #[trigger] sorted[j].header.sequence_number
                != first + k,
        forall|j: int|
            #![trigger sorted[j]]
            0 <= j < sorted.len() ==> sorted[j].header.sequence_number != first + out.len(),
        forall|a: int, b: int|
            0 <= a < b < sorted.len() ==> #[trigger] sorted[a].header.sequence_number
                <= #[trigger] sorted[b].header.sequence_number,
    ensures
        spec_merged(input, out),
{
    let n = sorted.len() as int;
    lemma_lowest(input);
    let low = spec_lowest_sequence_number(input);
    lemma_same_elements(sorted, input);
    assert(sorted.contains(sorted[0]));
    assert(input.contains(sorted[0]));
    let j0 = choose|j: int|
        0 <= j < input.len() && #[trigger] input[j].header.sequence_number == low;
    assert(input.contains(input[j0]));
    assert(sorted.contains(input[j0]));
    assert(first == low);
    assert forall|k: int| 0 <= k < out.len() implies #[trigger] spec_has_chunk(
        input,
        low + k,
        out[k].data@,
    ) by {
        let t = taken[k];
        let jj = perm[t];
        assert(input[jj] == sorted[t]);
        assert forall|i: int| 0 <= i < jj implies #[trigger] input[i].header.sequence_number
            != low + k by {
            if input[i].header.sequence_number == low + k {
                let p = choose|p: int| 0 <= p < n && #[trigger] perm[p] == i;
                assert(sorted[p] == input[i]);
                if p < t {
                    assert(sorted[p].header.sequence_number != first + k);
                } else if p > t {
                    assert(perm[t] < perm[p]);
                }
            }
        }
        assert(spec_first_numbered(input, low + k, jj));
    }
    assert forall|j: int| #![trigger input[j]] 0 <= j < input.len() implies input[j].header.sequence_number
        != low + out.len() by {
        assert(input.contains(input[j]));
        assert(sorted.contains(input[j]));
    }
}

/// Merge the chunks of one message into sequence-number order. A lone chunk
/// passes through. Otherwise the chunks are sorted, and walked from the
/// lowest number on, each expected number in turn: a chunk that repeats a
/// number already taken is dropped as a duplicate (the first one received
/// is kept), and the walk takes nothing
/// after the first missing number.
pub fn merge_chunks(chunks: Vec<MessageChunkWithChunkInfo>) -> (r: Result<
    Vec<MessageChunk>,
    StatusCode,
>)
    requires
        chunks@.len() >= 1,
    ensures
        r is Ok,
        spec_merged(chunks@, r->Ok_0@),
{
    broadcast use group_to_multiset_ensures;

    let ghost input = chunks@;
    let mut chunks = chunks;
    if chunks.len() == 1 {
        let c = chunks.pop().unwrap();
        let mut ret: Vec<MessageChunk> = Vec::new();
        ret.push(MessageChunk { data: c.data_with_header });
        proof {
            assert(input[0] == c);
            let low = spec_lowest_sequence_number(input);
            assert(input.len() == 1);
            assert(low == input[0].header.sequence_number);
            assert(spec_first_numbered(input, low, 0));
            assert(spec_has_chunk(input, low, ret@[0].data@));
        }
        return Ok(ret);
    }
    sort_by_sequence_number(&mut chunks);
    let ghost sorted = chunks@;
    let ghost perm = choose|perm: Seq<int>| spec_stable_arrangement(input, sorted, perm);
    assert(spec_stable_arrangement(input, sorted, perm));
    assert(sorted.len() == sorted.to_multiset().len());
    assert(input.len() == input.to_multiset().len());
    let n = chunks.len();
    let first = chunks[0].header.sequence_number;
    let mut ret: Vec<MessageChunk> = Vec::new();
    let mut expect: u64 = first as u64;
    let mut i: usize = 0;
    // For each merged chunk, the position in `sorted` it was taken from.
    let ghost mut taken: Seq<int> = Seq::empty();
    assert(sorted.skip(0) =~= sorted);
    while chunks.len() > 0
        invariant
            sorted.len() == n,
            n >= 1,
            i <= n,
            chunks@ == sorted.skip(i as int),
            first == sorted[0].header.sequence_number,
            forall|a: int, b: int|
                0 <= a < b < n ==> #[trigger] sorted[a].header.sequence_number
                    <= #[trigger] sorted[b].header.sequence_number,
            first <= expect <= u32::MAX as u64 + 1,
            i == 0 ==> expect == first,
            ret@.len() == expect - first,
            i > 0 ==> ret@.len() >= 1,
            taken.len() == ret@.len(),
            forall|k: int|
                #![trigger taken[k]]
                0 <= k < taken.len() ==> 0 <= taken[k] < i && sorted[taken[k]].header.sequence_number
                    == first + k && ret@[k].data == sorted[taken[k]].data_with_header,
            forall|k: int, j: int|
                0 <= k < taken.len() && 0 <= j < #[trigger] taken[k] ==> #[trigger] sorted[j].header.sequence_number
                    != first + k,
            forall|j: int|
                #![trigger sorted[j]]
                0 <= j < i ==> sorted[j].header.sequence_number != expect,
        decreases chunks@.len(),
    {
        let c = chunks.remove(0);
        assert(c == sorted[i as int]);
        if c.header.sequence_number as u64 == expect {
            ret.push(MessageChunk { data: c.data_with_header });
            proof {
                taken = taken.push(i as int);
                assert forall|j: int| #![trigger sorted[j]] 0 <= j < i + 1 implies sorted[j].header.sequence_number
                    != expect + 1 by {
                    if j < i {
                        assert(sorted[j].header.sequence_number <= sorted[i as int].header.sequence_number);
                    }
                }
            }
            expect = expect + 1;
        }
        i = i + 1;
        assert(chunks@ =~= sorted.skip(i as int));
    }
    proof {
        lemma_merge_walk(input, sorted, perm, taken, ret@, first as int);
    }
    Ok(ret)
}

} // verus!
