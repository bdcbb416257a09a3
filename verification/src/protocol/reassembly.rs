//! What reassembly means, apart from the parser that does it: the chunks
//! held for every call in progress, what feeding a chunk does to them, and
//! the laws of that.
//!
//! The chunks of a call are kept in the order of their index. A chunk whose
//! index is already held for its call is a duplicate: it is dropped, and the
//! chunk that came first stays. A call is complete when it holds as many
//! chunks as the chunk just fed announces. The payload of a call is the
//! payloads of its chunks in index order, whatever the order of arrival.

use vstd::prelude::*;

use crate::protocol::wire::lemma_envelope_is_bounded;
use crate::protocol::wire::parse_envelope;
use crate::protocol::types::CallId;
use crate::protocol::types::EnvelopeView;
use crate::protocol::types::PackageChunkView;
use crate::protocol::types::RpcError;

verus! {

/// The chunks held for the calls in progress, by call id.
pub type Pending = Map<CallId, Seq<PackageChunkView>>;

/// The chunks stand in strictly rising order of their index.
pub open spec fn ordered_by_index(chunks: Seq<PackageChunkView>) -> bool {
    forall|i: int, j: int|
        0 <= i < j < chunks.len() ==> (#[trigger] chunks[i]).header.index < (
        #[trigger] chunks[j]).header.index
}

/// How many chunks at the front have an index below `index`. Among chunks
/// ordered by index this is where a chunk with that index belongs.
pub open spec fn place_of(chunks: Seq<PackageChunkView>, index: u16) -> int
    decreases chunks.len(),
{
    if chunks.len() > 0 && chunks.first().header.index < index {
        1 + place_of(chunks.drop_first(), index)
    } else {
        0
    }
}

/// The chunks of a call after `chunk` has arrived: it takes its place by
/// index, unless a chunk with its index is already there.
pub open spec fn with_chunk(chunks: Seq<PackageChunkView>, chunk: PackageChunkView) -> Seq<
    PackageChunkView,
> {
    let at = place_of(chunks, chunk.header.index);
    if at < chunks.len() && chunks[at].header.index == chunk.header.index {
        chunks
    } else {
        chunks.insert(at, chunk)
    }
}

/// The chunks held for a call; none for a call that is not in progress.
pub open spec fn chunks_of(pending: Pending, call_id: CallId) -> Seq<PackageChunkView> {
    if pending.contains_key(call_id) {
        pending[call_id]
    } else {
        Seq::empty()
    }
}

/// What is held after `chunk` has been fed.
pub open spec fn after_feed(pending: Pending, chunk: PackageChunkView) -> Pending {
    pending.insert(
        chunk.header.call_id,
        with_chunk(chunks_of(pending, chunk.header.call_id), chunk),
    )
}

/// Feeding `chunk` completes its call: the call then holds as many chunks
/// as `chunk` announces.
pub open spec fn completes(pending: Pending, chunk: PackageChunkView) -> bool {
    with_chunk(chunks_of(pending, chunk.header.call_id), chunk).len() == chunk.header.total
}

/// The payloads of the chunks, one after the other.
pub open spec fn joined_payloads(chunks: Seq<PackageChunkView>) -> Seq<u8>
    decreases chunks.len(),
{
    if chunks.len() == 0 {
        Seq::empty()
    } else {
        joined_payloads(chunks.drop_last()) + chunks.last().payload
    }
}

/// The chunks belong to the call `call_id`, and each carries as many payload
/// bytes as its header says.
pub open spec fn chunks_of_call(chunks: Seq<PackageChunkView>, call_id: CallId) -> bool {
    forall|i: int|
        0 <= i < chunks.len() ==> (#[trigger] chunks[i]).header.call_id == call_id
            && chunks[i].is_consistent()
}

/// `place_of` is the one position with only lower indices before it and no
/// lower index at it.
pub proof fn lemma_place_of(chunks: Seq<PackageChunkView>, index: u16, at: int)
    requires
        0 <= at <= chunks.len(),
        forall|i: int| 0 <= i < at ==> (#[trigger] chunks[i]).header.index < index,
        at == chunks.len() || chunks[at].header.index >= index,
    ensures
        place_of(chunks, index) == at,
    decreases chunks.len(),
{
    if at > 0 {
        let rest = chunks.drop_first();
        assert(chunks.first() == chunks[0]);
        assert forall|i: int| 0 <= i < at - 1 implies (#[trigger] rest[i]).header.index
            < index by {
            assert(rest[i] == chunks[i + 1]);
        }
        if at < chunks.len() {
            assert(rest[at - 1] == chunks[at]);
        }
        lemma_place_of(rest, index, at - 1);
    } else if chunks.len() > 0 {
        assert(chunks.first() == chunks[0]);
    }
}

/// Before `place_of` stand only lower indices, and at it none.
pub proof fn lemma_place_of_bounds(chunks: Seq<PackageChunkView>, index: u16)
    ensures
        0 <= place_of(chunks, index) <= chunks.len(),
        forall|i: int|
            0 <= i < place_of(chunks, index) ==> (#[trigger] chunks[i]).header.index < index,
        place_of(chunks, index) < chunks.len() ==> chunks[place_of(chunks, index)].header.index
            >= index,
    decreases chunks.len(),
{
    if chunks.len() > 0 && chunks.first().header.index < index {
        let rest = chunks.drop_first();
        lemma_place_of_bounds(rest, index);
        let at = place_of(rest, index);
        assert forall|i: int| 0 <= i < at + 1 implies (#[trigger] chunks[i]).header.index
            < index by {
            if i > 0 {
                assert(chunks[i] == rest[i - 1]);
            }
        }
        if at < rest.len() {
            assert(chunks[at + 1] == rest[at]);
        }
    }
}

/// Taking a chunk in keeps the order by index and the call, and holds the
/// chunk's index afterwards.
pub proof fn lemma_with_chunk_keeps_order(
    chunks: Seq<PackageChunkView>,
    chunk: PackageChunkView,
)
    requires
        ordered_by_index(chunks),
    ensures
        ordered_by_index(with_chunk(chunks, chunk)),
        chunks_of_call(chunks, chunk.header.call_id) && chunk.is_consistent() ==> chunks_of_call(
            with_chunk(chunks, chunk),
            chunk.header.call_id,
        ),
{
    let index = chunk.header.index;
    let at = place_of(chunks, index);
    let after = with_chunk(chunks, chunk);
    lemma_place_of_bounds(chunks, index);
    if !(at < chunks.len() && chunks[at].header.index == index) {
        assert forall|i: int, j: int| 0 <= i < j < after.len() implies (
        #[trigger] after[i]).header.index < (#[trigger] after[j]).header.index by {
            let a = if i < at {
                chunks[i]
            } else if i == at {
                chunk
            } else {
                chunks[i - 1]
            };
            let b = if j < at {
                chunks[j]
            } else if j == at {
                chunk
            } else {
                chunks[j - 1]
            };
            assert(after[i] == a);
            assert(after[j] == b);
            if j > at {
                assert(chunks[at].header.index <= chunks[j - 1].header.index);
            }
        }
        if chunks_of_call(chunks, chunk.header.call_id) && chunk.is_consistent() {
            assert forall|i: int| 0 <= i < after.len() implies (
            #[trigger] after[i]).header.call_id == chunk.header.call_id
                && after[i].is_consistent() by {
                if i < at {
                    assert(after[i] == chunks[i]);
                } else if i > at {
                    assert(after[i] == chunks[i - 1]);
                }
            }
        }
    }
}

/// One more chunk adds its payload at the end.
pub proof fn lemma_joined_payloads_push(chunks: Seq<PackageChunkView>, chunk: PackageChunkView)
    ensures
        joined_payloads(chunks.push(chunk)) == joined_payloads(chunks) + chunk.payload,
{
    assert(chunks.push(chunk).drop_last() =~= chunks);
}

/// The payloads of the first `n` chunks are no longer than those of all.
pub proof fn lemma_joined_payloads_prefix(chunks: Seq<PackageChunkView>, n: int)
    requires
        0 <= n <= chunks.len(),
    ensures
        joined_payloads(chunks.take(n)).len() <= joined_payloads(chunks).len(),
    decreases chunks.len() - n,
{
    if n < chunks.len() {
        lemma_joined_payloads_prefix(chunks, n + 1);
        assert(chunks.take(n + 1).drop_last() =~= chunks.take(n));
    } else {
        assert(chunks.take(n) =~= chunks);
    }
}

/// What the payload of a complete call means. A payload longer than any
/// buffer can hold is refused like other undecodable bytes; no envelope is as
/// long as that, by far (`lemma_envelope_is_bounded`).
pub open spec fn parse_package(payload: Seq<u8>) -> Result<EnvelopeView, RpcError> {
    if payload.len() > isize::MAX {
        Err(RpcError::Decode)
    } else {
        parse_envelope(payload)
    }
}

/// What is held after the chunks have been fed one after the other.
pub open spec fn after_feeding(pending: Pending, arrivals: Seq<PackageChunkView>) -> Pending
    decreases arrivals.len(),
{
    if arrivals.len() == 0 {
        pending
    } else {
        after_feed(after_feeding(pending, arrivals.drop_last()), arrivals.last())
    }
}

/// The chunks are one whole call in index order: chunk `i` has index `i`,
/// and every chunk names the call and announces the number of its chunks.
pub open spec fn is_whole_call(call: Seq<PackageChunkView>, call_id: CallId) -> bool {
    &&& 0 < call.len() <= u16::MAX
    &&& forall|i: int|
        0 <= i < call.len() ==> {
            &&& (#[trigger] call[i]).header.call_id == call_id
            &&& call[i].header.index == i
            &&& call[i].header.total == call.len()
        }
}

/// What holds of the chunks of every call in progress: they belong to the
/// call, they stand in the order of their index, and each carries as many
/// payload bytes as its header says.
pub open spec fn in_order(pending: Pending) -> bool {
    forall|call_id: CallId| #[trigger]
        pending.contains_key(call_id) ==> ordered_by_index(pending[call_id]) && chunks_of_call(
            pending[call_id],
            call_id,
        )
}

/// Every chunk of `inner` is one of `outer`.
pub open spec fn all_among(inner: Seq<PackageChunkView>, outer: Seq<PackageChunkView>) -> bool {
    forall|i: int| 0 <= i < inner.len() ==> outer.contains(#[trigger] inner[i])
}

/// One of the chunks has the index `index`.
pub open spec fn holds_index(chunks: Seq<PackageChunkView>, index: u16) -> bool {
    exists|i: int| 0 <= i < chunks.len() && (#[trigger] chunks[i]).header.index == index
}

/// The chunks of a call after the chunks `arrivals` have arrived one after
/// the other, `held` being held before.
spec fn gathered(held: Seq<PackageChunkView>, arrivals: Seq<PackageChunkView>) -> Seq<
    PackageChunkView,
>
    decreases arrivals.len(),
{
    if arrivals.len() == 0 {
        held
    } else {
        with_chunk(gathered(held, arrivals.drop_last()), arrivals.last())
    }
}

/// No two of the chunks have the same index.
spec fn distinct_indices(chunks: Seq<PackageChunkView>) -> bool {
    forall|i: int, j: int|
        0 <= i < j < chunks.len() ==> (#[trigger] chunks[i]).header.index != (
        #[trigger] chunks[j]).header.index
}

/// The chunk is one of `arrivals` and finds its index free among `held`.
spec fn arrives_new(
    chunk: PackageChunkView,
    held: Seq<PackageChunkView>,
    arrivals: Seq<PackageChunkView>,
) -> bool {
    arrivals.contains(chunk) && !holds_index(held, chunk.header.index)
}

/// A chunk whose index is held already is dropped: the chunks stay as they
/// are, and the chunk that came first stays among them.
pub proof fn lemma_duplicate_is_dropped(chunks: Seq<PackageChunkView>, chunk: PackageChunkView)
    requires
        ordered_by_index(chunks),
        exists|i: int|
            0 <= i < chunks.len() && (#[trigger] chunks[i]).header.index == chunk.header.index,
    ensures
        with_chunk(chunks, chunk) == chunks,
{
    let i = choose|i: int|
        0 <= i < chunks.len() && (#[trigger] chunks[i]).header.index == chunk.header.index;
    let at = place_of(chunks, chunk.header.index);
    lemma_place_of_bounds(chunks, chunk.header.index);
    if i < at {
        assert(chunks[i].header.index < chunk.header.index);
    } else if i > at {
        assert(chunks[at].header.index < chunks[i].header.index);
    }
}

/// A chunk with a new index is taken in: the chunks are one more, and they
/// are the chunks held before and the new one.
pub proof fn lemma_new_chunk_is_taken(chunks: Seq<PackageChunkView>, chunk: PackageChunkView)
    requires
        forall|i: int|
            0 <= i < chunks.len() ==> (#[trigger] chunks[i]).header.index != chunk.header.index,
    ensures
        with_chunk(chunks, chunk).len() == chunks.len() + 1,
        with_chunk(chunks, chunk).contains(chunk),
        all_among(chunks, with_chunk(chunks, chunk)),
        all_among(with_chunk(chunks, chunk), chunks.push(chunk)),
{
    let at = place_of(chunks, chunk.header.index);
    let after = with_chunk(chunks, chunk);
    lemma_place_of_bounds(chunks, chunk.header.index);
    assert(after == chunks.insert(at, chunk));
    assert(after[at] == chunk);
    assert forall|i: int| 0 <= i < chunks.len() implies after.contains(#[trigger] chunks[i]) by {
        if i < at {
            assert(after[i] == chunks[i]);
        } else {
            assert(after[i + 1] == chunks[i]);
        }
    }
    assert forall|i: int| 0 <= i < after.len() implies chunks.push(chunk).contains(
        #[trigger] after[i],
    ) by {
        if i < at {
            assert(chunks.push(chunk)[i] == after[i]);
        } else if i == at {
            assert(chunks.push(chunk)[chunks.len() as int] == after[i]);
        } else {
            assert(chunks.push(chunk)[i - 1] == after[i]);
        }
    }
}

/// What chunks with distinct indices gather to: the chunks held before and
/// the arrivals that found their index free, in index order.
proof fn lemma_gathered(held: Seq<PackageChunkView>, arrivals: Seq<PackageChunkView>)
    requires
        ordered_by_index(held),
        distinct_indices(arrivals),
    ensures
        ordered_by_index(gathered(held, arrivals)),
        all_among(held, gathered(held, arrivals)),
        forall|i: int|
            0 <= i < arrivals.len() && !holds_index(held, (#[trigger] arrivals[i]).header.index)
                ==> gathered(held, arrivals).contains(arrivals[i]),
        forall|k: int|
            0 <= k < gathered(held, arrivals).len() ==> held.contains(
                #[trigger] gathered(held, arrivals)[k],
            ) || arrives_new(gathered(held, arrivals)[k], held, arrivals),
    decreases arrivals.len(),
{
    if arrivals.len() > 0 {
        let before = arrivals.drop_last();
        let last = arrivals.last();
        let so_far = gathered(held, before);
        let after = gathered(held, arrivals);
        assert(last == arrivals[arrivals.len() - 1]);
        assert forall|i: int, j: int| 0 <= i < j < before.len() implies (
        #[trigger] before[i]).header.index != (#[trigger] before[j]).header.index by {
            assert(before[i] == arrivals[i]);
            assert(before[j] == arrivals[j]);
        }
        lemma_gathered(held, before);
        lemma_with_chunk_keeps_order(so_far, last);
        if holds_index(so_far, last.header.index) {
            lemma_duplicate_is_dropped(so_far, last);
            let k = choose|k: int|
                0 <= k < so_far.len() && (#[trigger] so_far[k]).header.index == last.header.index;
            if !held.contains(so_far[k]) {
                assert(arrives_new(so_far[k], held, before));
                let j = choose|j: int| 0 <= j < before.len() && before[j] == so_far[k];
                assert(before[j] == arrivals[j]);
                assert(arrivals[j].header.index != arrivals[arrivals.len() - 1].header.index);
            }
            let m = choose|m: int| 0 <= m < held.len() && held[m] == so_far[k];
            assert(held[m].header.index == last.header.index);
            assert(holds_index(held, last.header.index));
        } else {
            lemma_new_chunk_is_taken(so_far, last);
            if holds_index(held, last.header.index) {
                let m = choose|m: int|
                    0 <= m < held.len() && (#[trigger] held[m]).header.index == last.header.index;
                assert(so_far.contains(held[m]));
                let k = choose|k: int| 0 <= k < so_far.len() && so_far[k] == held[m];
                assert(so_far[k].header.index == last.header.index);
            }
        }
        assert forall|i: int| 0 <= i < held.len() implies after.contains(#[trigger] held[i]) by {
            assert(so_far.contains(held[i]));
            if after != so_far {
                let k = choose|k: int| 0 <= k < so_far.len() && so_far[k] == held[i];
                assert(after.contains(so_far[k]));
            }
        }
        assert forall|i: int|
            0 <= i < arrivals.len() && !holds_index(
                held,
                (#[trigger] arrivals[i]).header.index,
            ) implies after.contains(arrivals[i]) by {
            if i < before.len() {
                assert(before[i] == arrivals[i]);
                assert(so_far.contains(before[i]));
                if after != so_far {
                    let k = choose|k: int| 0 <= k < so_far.len() && so_far[k] == before[i];
                    assert(after.contains(so_far[k]));
                }
            }
        }
        assert forall|k: int| 0 <= k < after.len() implies held.contains(#[trigger] after[k])
            || arrives_new(after[k], held, arrivals) by {
            if after == so_far {
                if !held.contains(so_far[k]) {
                    assert(arrives_new(so_far[k], held, before));
                    let j = choose|j: int| 0 <= j < before.len() && before[j] == so_far[k];
                    assert(arrivals[j] == before[j]);
                }
            } else {
                assert(so_far.push(last).contains(after[k]));
                let j = choose|j: int|
                    0 <= j < so_far.push(last).len() && so_far.push(last)[j] == after[k];
                if j < so_far.len() {
                    assert(so_far.push(last)[j] == so_far[j]);
                    if !held.contains(so_far[j]) {
                        assert(arrives_new(so_far[j], held, before));
                        let i = choose|i: int| 0 <= i < before.len() && before[i] == so_far[j];
                        assert(arrivals[i] == before[i]);
                    }
                } else {
                    assert(after[k] == last);
                }
            }
        }
    }
}

/// With nothing held before, chunks with distinct indices are all gathered.
proof fn lemma_gathered_from_nothing(arrivals: Seq<PackageChunkView>)
    requires
        distinct_indices(arrivals),
    ensures
        gathered(Seq::empty(), arrivals).len() == arrivals.len(),
    decreases arrivals.len(),
{
    if arrivals.len() > 0 {
        let held = Seq::<PackageChunkView>::empty();
        let before = arrivals.drop_last();
        let last = arrivals.last();
        let so_far = gathered(held, before);
        assert forall|i: int, j: int| 0 <= i < j < before.len() implies (
        #[trigger] before[i]).header.index != (#[trigger] before[j]).header.index by {
            assert(before[i] == arrivals[i]);
            assert(before[j] == arrivals[j]);
        }
        lemma_gathered_from_nothing(before);
        lemma_gathered(held, before);
        assert forall|k: int| 0 <= k < so_far.len() implies (#[trigger] so_far[k]).header.index
            != last.header.index by {
            assert(arrives_new(so_far[k], held, before));
            let j = choose|j: int| 0 <= j < before.len() && before[j] == so_far[k];
            assert(before[j] == arrivals[j]);
            assert(arrivals[j].header.index != arrivals[arrivals.len() - 1].header.index);
        }
        lemma_new_chunk_is_taken(so_far, last);
    }
}

/// Chunks in index order are known by what they are: two such sequences of
/// the same chunks are the same sequence.
pub proof fn lemma_ordered_same_chunks(a: Seq<PackageChunkView>, b: Seq<PackageChunkView>)
    requires
        ordered_by_index(a),
        ordered_by_index(b),
        all_among(a, b),
        all_among(b, a),
    ensures
        a == b,
    decreases a.len(),
{
    if a.len() == 0 {
        if b.len() > 0 {
            assert(a.contains(b[0]));
        }
        assert(a =~= b);
    } else {
        assert(b.contains(a[0]));
        let last_a = a.last();
        let last_b = b.last();
        assert(b.contains(a[a.len() - 1]));
        assert(a.contains(b[b.len() - 1]));
        let j = choose|j: int| 0 <= j < b.len() && b[j] == last_a;
        let k = choose|k: int| 0 <= k < a.len() && a[k] == last_b;
        if j < b.len() - 1 {
            assert(b[j].header.index < b[b.len() - 1].header.index);
        }
        if k < a.len() - 1 {
            assert(a[k].header.index < a[a.len() - 1].header.index);
        }
        assert(last_a == last_b);
        let front_a = a.drop_last();
        let front_b = b.drop_last();
        assert forall|i: int| 0 <= i < front_a.len() implies front_b.contains(
            #[trigger] front_a[i],
        ) by {
            assert(front_a[i] == a[i]);
            assert(b.contains(a[i]));
            let m = choose|m: int| 0 <= m < b.len() && b[m] == a[i];
            assert(a[i].header.index < a[a.len() - 1].header.index);
            assert(front_b[m] == b[m]);
        }
        assert forall|i: int| 0 <= i < front_b.len() implies front_a.contains(
            #[trigger] front_b[i],
        ) by {
            assert(front_b[i] == b[i]);
            assert(a.contains(b[i]));
            let m = choose|m: int| 0 <= m < a.len() && a[m] == b[i];
            assert(b[i].header.index < b[b.len() - 1].header.index);
            assert(front_a[m] == a[m]);
        }
        lemma_ordered_same_chunks(front_a, front_b);
        assert(a =~= front_a.push(last_a));
        assert(b =~= front_b.push(last_b));
    }
}

/// Feeding chunks of one call gathers them to the chunks held for that
/// call, and leaves every other call as it was.
proof fn lemma_after_feeding_one_call(
    pending: Pending,
    call_id: CallId,
    arrivals: Seq<PackageChunkView>,
)
    requires
        forall|i: int| 0 <= i < arrivals.len() ==> (#[trigger] arrivals[i]).header.call_id == call_id,
    ensures
        chunks_of(after_feeding(pending, arrivals), call_id) == gathered(
            chunks_of(pending, call_id),
            arrivals,
        ),
        arrivals.len() > 0 ==> after_feeding(pending, arrivals) == pending.insert(
            call_id,
            gathered(chunks_of(pending, call_id), arrivals),
        ),
    decreases arrivals.len(),
{
    if arrivals.len() > 0 {
        let before = arrivals.drop_last();
        assert forall|i: int| 0 <= i < before.len() implies (
        #[trigger] before[i]).header.call_id == call_id by {
            assert(before[i] == arrivals[i]);
        }
        lemma_after_feeding_one_call(pending, call_id, before);
        assert(arrivals.last() == arrivals[arrivals.len() - 1]);
        assert(after_feeding(pending, arrivals) =~= pending.insert(
            call_id,
            gathered(chunks_of(pending, call_id), arrivals),
        ));
    }
}

/// What a rearrangement of a whole call is made of: as many chunks, each
/// one of the call, no index twice.
proof fn lemma_permutation_of_whole_call(
    call_id: CallId,
    call: Seq<PackageChunkView>,
    arrivals: Seq<PackageChunkView>,
)
    requires
        is_whole_call(call, call_id),
        arrivals.to_multiset() == call.to_multiset(),
    ensures
        arrivals.len() == call.len(),
        all_among(arrivals, call),
        all_among(call, arrivals),
        distinct_indices(arrivals),
        forall|i: int|
            0 <= i < arrivals.len() ==> {
                &&& (#[trigger] arrivals[i]).header.call_id == call_id
                &&& arrivals[i].header.total == call.len()
            },
{
    broadcast use vstd::seq_lib::group_to_multiset_ensures;

    assert(call.no_duplicates()) by {
        assert forall|i: int, j: int| 0 <= i < call.len() && 0 <= j < call.len() && i != j implies call[i]
            != call[j] by {
            assert(call[i].header.index == i);
            assert(call[j].header.index == j);
        }
    }
    call.lemma_multiset_has_no_duplicates();
    arrivals.lemma_multiset_has_no_duplicates_conv();
    vstd::seq_lib::to_multiset_len(arrivals);
    vstd::seq_lib::to_multiset_len(call);
    assert forall|i: int| 0 <= i < arrivals.len() implies call.contains(#[trigger] arrivals[i]) by {
        assert(arrivals.contains(arrivals[i]));
        assert(arrivals.to_multiset().count(arrivals[i]) > 0);
    }
    assert forall|i: int| 0 <= i < call.len() implies arrivals.contains(#[trigger] call[i]) by {
        assert(call.contains(call[i]));
        assert(call.to_multiset().count(call[i]) > 0);
    }
    assert forall|i: int| 0 <= i < arrivals.len() implies {
        &&& (#[trigger] arrivals[i]).header.call_id == call_id
        &&& arrivals[i].header.total == call.len()
    } by {
        assert(call.contains(arrivals[i]));
        let j = choose|j: int| 0 <= j < call.len() && call[j] == arrivals[i];
        assert(call[j].header.call_id == call_id);
    }
    assert forall|i: int, j: int| 0 <= i < j < arrivals.len() implies (
    #[trigger] arrivals[i]).header.index != (#[trigger] arrivals[j]).header.index by {
        assert(call.contains(arrivals[i]));
        assert(call.contains(arrivals[j]));
        let a = choose|a: int| 0 <= a < call.len() && call[a] == arrivals[i];
        let b = choose|b: int| 0 <= b < call.len() && call[b] == arrivals[j];
        assert(call[a].header.index == a);
        assert(call[b].header.index == b);
        assert(arrivals[i] != arrivals[j]);
    }
}

/// The order in which the chunks of a call arrive does not matter. Let
/// `call` be the chunks of one call in index order and `arrivals` the same
/// chunks in any order. Whatever is held, feeding `arrivals` holds exactly
/// what feeding `call` holds, so the payload that is built is the same.
pub proof fn lemma_arrival_order_is_irrelevant(
    pending: Pending,
    call_id: CallId,
    call: Seq<PackageChunkView>,
    arrivals: Seq<PackageChunkView>,
)
    requires
        in_order(pending),
        is_whole_call(call, call_id),
        arrivals.to_multiset() == call.to_multiset(),
    ensures
        after_feeding(pending, arrivals) == after_feeding(pending, call),
        joined_payloads(after_feeding(pending, arrivals)[call_id]) == joined_payloads(
            after_feeding(pending, call)[call_id],
        ),
{
    let held = chunks_of(pending, call_id);
    if pending.contains_key(call_id) {
        assert(ordered_by_index(held));
    }
    lemma_permutation_of_whole_call(call_id, call, arrivals);
    lemma_permutation_of_whole_call(call_id, call, call);
    lemma_after_feeding_one_call(pending, call_id, arrivals);
    lemma_after_feeding_one_call(pending, call_id, call);
    lemma_gathered(held, arrivals);
    lemma_gathered(held, call);
    let one = gathered(held, arrivals);
    let other = gathered(held, call);
    assert forall|k: int| 0 <= k < one.len() implies other.contains(#[trigger] one[k]) by {
        if !held.contains(one[k]) {
            assert(arrives_new(one[k], held, arrivals));
            let i = choose|i: int| 0 <= i < arrivals.len() && arrivals[i] == one[k];
            assert(call.contains(arrivals[i]));
            let j = choose|j: int| 0 <= j < call.len() && call[j] == arrivals[i];
            assert(other.contains(call[j]));
        } else {
            let m = choose|m: int| 0 <= m < held.len() && held[m] == one[k];
            assert(other.contains(held[m]));
        }
    }
    assert forall|k: int| 0 <= k < other.len() implies one.contains(#[trigger] other[k]) by {
        if !held.contains(other[k]) {
            assert(arrives_new(other[k], held, call));
            let i = choose|i: int| 0 <= i < call.len() && call[i] == other[k];
            assert(arrivals.contains(call[i]));
            let j = choose|j: int| 0 <= j < arrivals.len() && arrivals[j] == call[i];
            assert(one.contains(arrivals[j]));
        } else {
            let m = choose|m: int| 0 <= m < held.len() && held[m] == other[k];
            assert(one.contains(held[m]));
        }
    }
    lemma_ordered_same_chunks(one, other);
}

/// A call of which nothing is held yet is reassembled whole, in whatever
/// order its chunks arrive: what is held after the last of them is the call
/// in index order, and the call is complete with the chunk that arrives
/// last, and with none before it.
pub proof fn lemma_whole_call_is_reassembled(
    pending: Pending,
    call_id: CallId,
    call: Seq<PackageChunkView>,
    arrivals: Seq<PackageChunkView>,
)
    requires
        is_whole_call(call, call_id),
        !pending.contains_key(call_id),
        arrivals.to_multiset() == call.to_multiset(),
    ensures
        after_feeding(pending, arrivals)[call_id] == call,
        forall|k: int|
            0 <= k < arrivals.len() ==> (#[trigger] completes(
                after_feeding(pending, arrivals.take(k)),
                arrivals[k],
            ) <==> k == arrivals.len() - 1),
{
    let held = Seq::<PackageChunkView>::empty();
    lemma_permutation_of_whole_call(call_id, call, arrivals);
    lemma_after_feeding_one_call(pending, call_id, arrivals);
    lemma_gathered(held, arrivals);
    lemma_gathered_from_nothing(arrivals);
    let all = gathered(held, arrivals);
    assert forall|k: int| 0 <= k < all.len() implies call.contains(#[trigger] all[k]) by {
        assert(arrives_new(all[k], held, arrivals));
        let i = choose|i: int| 0 <= i < arrivals.len() && arrivals[i] == all[k];
        assert(call.contains(arrivals[i]));
    }
    assert forall|k: int| 0 <= k < call.len() implies all.contains(#[trigger] call[k]) by {
        assert(arrivals.contains(call[k]));
        let i = choose|i: int| 0 <= i < arrivals.len() && arrivals[i] == call[k];
        assert(!holds_index(held, arrivals[i].header.index));
    }
    assert(ordered_by_index(call)) by {
        assert forall|i: int, j: int| 0 <= i < j < call.len() implies (
        #[trigger] call[i]).header.index < (#[trigger] call[j]).header.index by {
            assert(call[i].header.index == i);
            assert(call[j].header.index == j);
        }
    }
    lemma_ordered_same_chunks(all, call);
    assert forall|k: int| 0 <= k < arrivals.len() implies (#[trigger] completes(
        after_feeding(pending, arrivals.take(k)),
        arrivals[k],
    ) <==> k == arrivals.len() - 1) by {
        let before = arrivals.take(k);
        let upto = arrivals.take(k + 1);
        assert(upto.drop_last() =~= before);
        assert(upto.last() == arrivals[k]);
        assert forall|i: int, j: int| 0 <= i < j < upto.len() implies (
        #[trigger] upto[i]).header.index != (#[trigger] upto[j]).header.index by {
            assert(upto[i] == arrivals[i]);
            assert(upto[j] == arrivals[j]);
        }
        assert forall|i: int| 0 <= i < before.len() implies (
        #[trigger] before[i]).header.call_id == call_id by {
            assert(before[i] == arrivals[i]);
        }
        lemma_after_feeding_one_call(pending, call_id, before);
        lemma_gathered_from_nothing(upto);
        assert(call.contains(arrivals[k]));
    }
}

/// Refusing a payload that no buffer can hold refuses no envelope: what
/// parses as an envelope parses as a package, to the same envelope.
pub proof fn lemma_parse_package(payload: Seq<u8>)
    ensures
        parse_package(payload) is Ok <==> parse_envelope(payload) is Ok,
        parse_envelope(payload) is Ok ==> parse_package(payload) == parse_envelope(payload),
{
    if parse_envelope(payload) is Ok {
        lemma_envelope_is_bounded(payload);
    }
}

/// Feeding a chunk keeps what is held in order.
pub proof fn lemma_after_feed_in_order(pending: Pending, chunk: PackageChunkView)
    requires
        in_order(pending),
        chunk.is_consistent(),
    ensures
        in_order(after_feed(pending, chunk)),
{
    let call_id = chunk.header.call_id;
    let held = chunks_of(pending, call_id);
    if pending.contains_key(call_id) {
        assert(ordered_by_index(held) && chunks_of_call(held, call_id));
    }
    lemma_with_chunk_keeps_order(held, chunk);
    assert forall|other: CallId| #[trigger]
        after_feed(pending, chunk).contains_key(other) implies ordered_by_index(
        after_feed(pending, chunk)[other],
    ) && chunks_of_call(after_feed(pending, chunk)[other], other) by {
        if other != call_id {
            assert(pending.contains_key(other));
        }
    }
}

/// Feeding a chunk touches the call it names and no other.
pub proof fn lemma_feed_touches_one_call(pending: Pending, chunk: PackageChunkView, other: CallId)
    requires
        other != chunk.header.call_id,
    ensures
        after_feed(pending, chunk).contains_key(other) == pending.contains_key(other),
        chunks_of(after_feed(pending, chunk), other) == chunks_of(pending, other),
        after_feed(pending, chunk).remove(chunk.header.call_id).contains_key(other)
            == pending.contains_key(other),
        chunks_of(after_feed(pending, chunk).remove(chunk.header.call_id), other) == chunks_of(
            pending,
            other,
        ),
{
}

} // verus!
