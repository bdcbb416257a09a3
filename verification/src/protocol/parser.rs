//! The parser: it collects the chunks of each call as they arrive, in any
//! order, and hands the call over once all of them are there. What that
//! means is said in `reassembly`; here it is done.

use bytes::Bytes;
use bytes::BytesMut;
use std::collections::HashMap;
use vstd::prelude::*;

use crate::buffer::bytes_content;
use crate::buffer::bytes_mut_content;
use crate::buffer::bytes_mut_room;
use crate::protocol::wire::parse_chunk;
use crate::protocol::codec::EnvelopeCodec;
use crate::protocol::codec::PackageChunkCodec;
use crate::protocol::reassembly::after_feed;
use crate::protocol::reassembly::chunks_of;
use crate::protocol::reassembly::chunks_of_call;
use crate::protocol::reassembly::completes;
use crate::protocol::reassembly::in_order;
use crate::protocol::reassembly::joined_payloads;
use crate::protocol::reassembly::lemma_joined_payloads_prefix;
use crate::protocol::reassembly::lemma_joined_payloads_push;
use crate::protocol::reassembly::lemma_place_of;
use crate::protocol::reassembly::lemma_with_chunk_keeps_order;
use crate::protocol::reassembly::ordered_by_index;
use crate::protocol::reassembly::parse_package;
use crate::protocol::reassembly::with_chunk;
use crate::protocol::reassembly::Pending;
use crate::protocol::types::CallId;
use crate::protocol::types::PackageChunk;
use crate::protocol::types::PackageChunkView;
use crate::protocol::types::RpcCall;
use crate::protocol::types::RpcCallView;
use crate::protocol::types::RpcError;

verus! {

/// The views of a sequence of chunks, in order.
pub open spec fn views_of(chunks: Seq<PackageChunk>) -> Seq<PackageChunkView> {
    chunks.map_values(|c: PackageChunk| c@)
}

/// The chunks held in a map of the parser, as plain records.
spec fn views_in(chunks: Map<CallId, Vec<PackageChunk>>) -> Pending {
    Map::new(
        |call_id: CallId| chunks.contains_key(call_id),
        |call_id: CallId| views_of(chunks[call_id]@),
    )
}

/// The reassembly state: the chunks of every call in progress.
pub struct Parser {
    chunks: HashMap<CallId, Vec<PackageChunk>>,
    chunk_codec: PackageChunkCodec,
    envelope_codec: EnvelopeCodec,
}

impl View for Parser {
    type V = Pending;

    closed spec fn view(&self) -> Pending {
        views_in(self.chunks@)
    }
}

impl Parser {
    /// Whatever a parser holds is in order, at all times.
    #[verifier::type_invariant]
    spec fn well_formed(self) -> bool {
        in_order(self@)
    }

    /// A parser that holds nothing.
    pub fn new() -> (r: Self)
        ensures
            r@ == Map::<CallId, Seq<PackageChunkView>>::empty(),
    {
        let chunks: HashMap<CallId, Vec<PackageChunk>> = HashMap::new();
        assert(views_in(chunks@) =~= Map::<CallId, Seq<PackageChunkView>>::empty());
        Parser { chunks, chunk_codec: PackageChunkCodec, envelope_codec: EnvelopeCodec }
    }

    /// Takes the map of chunks out, leaving the parser empty. The map is
    /// changed outside the parser and put back with `put_chunks`, so that
    /// the parser is in order whenever it can be seen.
    fn take_chunks(&mut self) -> (chunks: HashMap<CallId, Vec<PackageChunk>>)
        ensures
            views_in(chunks@) == old(self)@,
            in_order(old(self)@),
            final(self)@ == Map::<CallId, Seq<PackageChunkView>>::empty(),
    {
        proof {
            use_type_invariant(&*self);
        }
        let mut chunks: HashMap<CallId, Vec<PackageChunk>> = HashMap::new();
        assert(views_in(chunks@) =~= Map::<CallId, Seq<PackageChunkView>>::empty());
        core::mem::swap(&mut self.chunks, &mut chunks);
        chunks
    }

    /// Puts a map of chunks back that was taken out with `take_chunks`.
    fn put_chunks(&mut self, chunks: HashMap<CallId, Vec<PackageChunk>>)
        requires
            in_order(views_in(chunks@)),
        ensures
            final(self)@ == views_in(chunks@),
    {
        let mut chunks = chunks;
        core::mem::swap(&mut self.chunks, &mut chunks);
    }

    /// Takes one datagram in. A datagram that is no chunk is refused and
    /// changes nothing. Otherwise the chunk joins the chunks of its call, and
    /// the call's id is returned if that completes the call.
    pub fn feed(&mut self, data: &[u8]) -> (r: Result<Option<CallId>, RpcError>)
        ensures
            in_order(old(self)@),
            in_order(final(self)@),
            match parse_chunk(data@) {
                Err(e) => r == Err::<Option<CallId>, RpcError>(e) && final(self)@ == old(self)@,
                Ok(chunk) => {
                    &&& final(self)@ == after_feed(old(self)@, chunk)
                    &&& r == Ok::<Option<CallId>, RpcError>(
                        if completes(old(self)@, chunk) {
                            Some(chunk.header.call_id)
                        } else {
                            None
                        },
                    )
                },
            },
    {
        proof {
            use_type_invariant(&*self);
        }
        let chunk = match self.chunk_codec.decode(data) {
            Ok(chunk) => chunk,
            Err(e) => {
                return Err(e);
            },
        };
        let total = chunk.header().total() as usize;
        let call_id = chunk.header().call_id();
        let index = chunk.header().index();
        let mut chunks = self.take_chunks();
        let mut package_chunks = match chunks.remove(&call_id) {
            Some(package_chunks) => package_chunks,
            None => Vec::with_capacity(total),
        };
        let ghost held = views_of(package_chunks@);
        assert(held == chunks_of(old(self)@, call_id));
        assert(ordered_by_index(held)) by {
            if old(self)@.contains_key(call_id) {
                assert(ordered_by_index(old(self)@[call_id]));
            }
        }
        // Chunks mostly arrive in order, so the place is sought from the end.
        let mut at: usize = package_chunks.len();
        while at > 0 && package_chunks[at - 1].header().index() >= index
            invariant
                at <= package_chunks@.len(),
                held == views_of(package_chunks@),
                forall|i: int| at <= i < held.len() ==> (#[trigger] held[i]).header.index >= index,
            decreases at,
        {
            at -= 1;
        }
        proof {
            assert forall|i: int| 0 <= i < at implies (#[trigger] held[i]).header.index
                < index by {
                assert(held[i].header.index <= held[at - 1].header.index);
            }
            lemma_place_of(held, index, at as int);
            lemma_with_chunk_keeps_order(held, chunk@);
        }
        if at == package_chunks.len() || package_chunks[at].header().index() != index {
            package_chunks.insert(at, chunk);
            assert(views_of(package_chunks@) =~= held.insert(at as int, chunk@));
        }
        assert(views_of(package_chunks@) == with_chunk(held, chunk@));
        let complete = total == package_chunks.len();
        chunks.insert(call_id, package_chunks);
        assert(views_in(chunks@) =~= after_feed(old(self)@, chunk@));
        self.put_chunks(chunks);
        if complete {
            return Ok(Some(call_id));
        }
        Ok(None)
    }

    /// The length of the payload that the chunks held for `call_id` add up
    /// to, if the call is in progress and one buffer can hold that payload.
    pub fn package_len(&self, call_id: CallId) -> (r: Option<usize>)
        ensures
            in_order(self@),
            r == if self@.contains_key(call_id) && joined_payloads(self@[call_id]).len()
                <= isize::MAX {
                Some(joined_payloads(self@[call_id]).len() as usize)
            } else {
                None
            },
    {
        proof {
            use_type_invariant(self);
        }
        let package_chunks = match self.chunks.get(&call_id) {
            Some(package_chunks) => package_chunks,
            None => {
                return None;
            },
        };
        let ghost held = views_of(package_chunks@);
        assert(self@.contains_key(call_id));
        assert(held == self@[call_id]);
        let mut len: u64 = 0;
        let mut i: usize = 0;
        while i < package_chunks.len()
            invariant
                i <= package_chunks@.len(),
                held == views_of(package_chunks@),
                in_order(self@),
                self@.contains_key(call_id),
                held == self@[call_id],
                chunks_of_call(held, call_id),
                len == joined_payloads(held.take(i as int)).len(),
                len <= isize::MAX,
            decreases package_chunks@.len() - i,
        {
            proof {
                assert(held.take(i + 1) =~= held.take(i as int).push(held[i as int]));
                lemma_joined_payloads_push(held.take(i as int), held[i as int]);
                lemma_joined_payloads_prefix(held, i + 1);
            }
            len += package_chunks[i].payload().len() as u64;
            if len > isize::MAX as u64 {
                return None;
            }
            i += 1;
        }
        assert(held.take(i as int) =~= held);
        Some(len as usize)
    }

    /// Forgets the call `call_id`, whatever is held for it.
    fn drop_package(&mut self, call_id: CallId)
        ensures
            final(self)@ == old(self)@.remove(call_id),
    {
        let mut chunks = self.take_chunks();
        chunks.remove(&call_id);
        assert(views_in(chunks@) =~= old(self)@.remove(call_id));
        self.put_chunks(chunks);
    }

    /// Takes the chunks of `call_id` out and joins their payloads in index
    /// order. To be called once for each call that `feed` reports complete.
    /// The payload must fit one buffer, which holds at most `isize::MAX`
    /// bytes: `package_len` tells.
    pub fn build_package(&mut self, call_id: CallId) -> (r: Bytes)
        requires
            old(self)@.contains_key(call_id),
            joined_payloads(old(self)@[call_id]).len() <= isize::MAX,
        ensures
            in_order(final(self)@),
            final(self)@ == old(self)@.remove(call_id),
            bytes_content(r) == joined_payloads(old(self)@[call_id]),
    {
        let mut chunks = self.take_chunks();
        let package_chunks = chunks.remove(&call_id).unwrap();
        assert(views_in(chunks@) =~= old(self)@.remove(call_id));
        self.put_chunks(chunks);
        let ghost held = views_of(package_chunks@);
        let mut len: usize = 0;
        let mut counted: usize = 0;
        while counted < package_chunks.len()
            invariant
                counted <= package_chunks@.len(),
                held == views_of(package_chunks@),
                joined_payloads(held).len() <= isize::MAX,
                len == joined_payloads(held.take(counted as int)).len(),
            decreases package_chunks@.len() - counted,
        {
            proof {
                assert(held.take(counted + 1) =~= held.take(counted as int).push(
                    held[counted as int],
                ));
                lemma_joined_payloads_push(held.take(counted as int), held[counted as int]);
                lemma_joined_payloads_prefix(held, counted + 1);
            }
            len += package_chunks[counted].payload().len();
            counted += 1;
        }
        assert(held.take(counted as int) =~= held);
        let mut buf = BytesMut::with_capacity(len);
        let mut i: usize = 0;
        while i < package_chunks.len()
            invariant
                i <= package_chunks@.len(),
                held == views_of(package_chunks@),
                bytes_mut_room(buf) == joined_payloads(held).len(),
                bytes_mut_content(buf) == joined_payloads(held.take(i as int)),
            decreases package_chunks@.len() - i,
        {
            proof {
                assert(held.take(i + 1) =~= held.take(i as int).push(held[i as int]));
                lemma_joined_payloads_push(held.take(i as int), held[i as int]);
                lemma_joined_payloads_prefix(held, i + 1);
            }
            buf.extend_from_slice(package_chunks[i].payload());
            i += 1;
        }
        assert(held.take(i as int) =~= held);
        buf.freeze()
    }

    /// Takes one datagram in and, if it completes a call, hands the call
    /// over: the chunks are joined, the payload is read as an envelope, and
    /// the call is no longer held. An error touches no other call: a datagram
    /// that is no chunk changes nothing, and a payload that is no envelope
    /// costs only its own call.
    pub fn apply(&mut self, data: &[u8]) -> (r: Result<Option<RpcCall>, RpcError>)
        ensures
            in_order(old(self)@),
            in_order(final(self)@),
            match parse_chunk(data@) {
                Err(e) => r == Err::<Option<RpcCall>, RpcError>(e) && final(self)@ == old(self)@,
                Ok(chunk) => if completes(old(self)@, chunk) {
                    let call_id = chunk.header.call_id;
                    let fed = after_feed(old(self)@, chunk);
                    &&& final(self)@ == fed.remove(call_id)
                    &&& match parse_package(joined_payloads(fed[call_id])) {
                        Ok(envelope) => r is Ok && r->Ok_0 is Some && r->Ok_0->Some_0@ == (
                        RpcCallView { call_id, envelope }),
                        Err(e) => r == Err::<Option<RpcCall>, RpcError>(e),
                    }
                } else {
                    &&& final(self)@ == after_feed(old(self)@, chunk)
                    &&& r == Ok::<Option<RpcCall>, RpcError>(None)
                },
            },
    {
        let call_id = match self.feed(data) {
            Ok(Some(call_id)) => call_id,
            Ok(None) => {
                return Ok(None);
            },
            Err(e) => {
                return Err(e);
            },
        };
        if self.package_len(call_id).is_none() {
            self.drop_package(call_id);
            proof {
                use_type_invariant(&*self);
            }
            return Err(RpcError::Decode);
        }
        let bytes = self.build_package(call_id);
        let envelope = match self.envelope_codec.decode(&bytes) {
            Ok(envelope) => envelope,
            Err(e) => {
                return Err(e);
            },
        };
        let call = RpcCall::new(call_id, envelope);
        Ok(Some(call))
    }
}

impl Default for Parser {
    fn default() -> (r: Self)
        ensures
            r@ == Map::<CallId, Seq<PackageChunkView>>::empty(),
    {
        Parser::new()
    }
}

} // verus!
