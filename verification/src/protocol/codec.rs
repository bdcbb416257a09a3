//! The codecs that read and write the two wire formats.
//!
//! The decoders run on bytes straight from the network. They check every
//! bound before they read, and they never panic.

use bytes::Bytes;
use bytes::BytesMut;
use vstd::prelude::*;

pub use crate::codec::BincodeCodec;

use crate::buffer::bytes_content;
use crate::buffer::bytes_mut_content;
use crate::buffer::bytes_mut_room;
use crate::buffer::put_u16_le;
use crate::buffer::put_u32_le;
use crate::buffer::put_u64_le;
use crate::endian::lemma_u16_le_round_trip;
use crate::endian::lemma_u32_le_round_trip;
use crate::endian::lemma_u64_le_round_trip;
use crate::endian::read_u16_le;
use crate::endian::read_u32_le;
use crate::endian::read_u64_le;
use crate::endian::u32_from_le;
use crate::protocol::types::contents_of;
use crate::protocol::types::ChunkHeader;
use crate::protocol::types::Envelope;
use crate::protocol::types::EnvelopeView;
use crate::protocol::types::PackageChunk;
use crate::protocol::types::PackageChunkView;
use crate::protocol::types::RpcError;
use crate::protocol::wire::arguments_wire;
use crate::protocol::wire::arguments_within_limit;
use crate::protocol::wire::chunk_wire;
use crate::protocol::wire::envelope_violation;
use crate::protocol::wire::envelope_wire;
use crate::protocol::wire::lemma_arguments_wire_prefix;
use crate::protocol::wire::lemma_arguments_wire_push;
use crate::protocol::wire::lemma_envelope_wire_of_parsed;
use crate::protocol::wire::parse_arguments;
use crate::protocol::wire::parse_chunk;
use crate::protocol::wire::parse_envelope;
use crate::protocol::wire::CHUNK_HEADER_SIZE;
use crate::protocol::wire::MAX_ARGUMENTS_COUNT;
use crate::protocol::wire::MAX_ARGUMENT_SIZE;
use crate::protocol::wire::MAX_FUNCTION_NAME_SIZE;

verus! {

/// Reads and writes chunks.
#[derive(Default, Clone, Copy)]
pub struct PackageChunkCodec;

impl PackageChunkCodec {
    /// Writes the header fields and then the payload as it is. A chunk
    /// whose wire form is longer than a buffer can be, `isize::MAX` bytes,
    /// cannot be written.
    pub fn encode(&self, value: PackageChunk) -> (r: Result<Bytes, RpcError>)
        ensures
            match r {
                Ok(bytes) => chunk_wire(value@).len() <= isize::MAX && bytes_content(bytes)
                    == chunk_wire(value@),
                Err(e) => chunk_wire(value@).len() > isize::MAX && e is Encode,
            },
    {
        let header = value.header();
        let payload = value.payload();
        proof {
            lemma_u64_le_round_trip(value@.header.call_id);
            lemma_u16_le_round_trip(value@.header.index);
            lemma_u16_le_round_trip(value@.header.total);
            lemma_u32_le_round_trip(value@.header.payload_len);
        }
        if payload.len() > isize::MAX as usize - CHUNK_HEADER_SIZE {
            return Err(RpcError::Encode);
        }
        let mut bytes = BytesMut::with_capacity(CHUNK_HEADER_SIZE + payload.len());

        put_u64_le(&mut bytes, header.call_id());
        put_u16_le(&mut bytes, header.index());
        put_u16_le(&mut bytes, header.total());
        put_u32_le(&mut bytes, header.payload_len());

        bytes.extend_from_slice(payload);

        Ok(bytes.freeze())
    }

    /// Reads a chunk from a datagram. A datagram shorter than the header, or
    /// than the header and the payload it announces, is refused.
    pub fn decode(&self, bytes: &[u8]) -> (r: Result<PackageChunk, RpcError>)
        ensures
            match r {
                Ok(chunk) => parse_chunk(bytes@) == Ok::<PackageChunkView, RpcError>(chunk@),
                Err(e) => parse_chunk(bytes@) == Err::<PackageChunkView, RpcError>(e),
            },
            bytes@.len() < CHUNK_HEADER_SIZE ==> r is Err
                && r->Err_0 is ChunkHeaderSizeConstraintViolation,
            bytes@.len() >= CHUNK_HEADER_SIZE && bytes@.len() < CHUNK_HEADER_SIZE + u32_from_le(
                bytes@.subrange(12, 16),
            ) ==> r is Err && r->Err_0 is ChunkHeaderSizeConstraintViolation,
            r is Ok ==> r->Ok_0@.is_consistent(),
    {
        if bytes.len() < CHUNK_HEADER_SIZE {
            return Err(RpcError::ChunkHeaderSizeConstraintViolation);
        }
        let len = read_u32_le(bytes, 12);

        if bytes.len() - CHUNK_HEADER_SIZE < len as usize {
            return Err(RpcError::ChunkHeaderSizeConstraintViolation);
        }
        let call_id = read_u64_le(bytes, 0);
        let index = read_u16_le(bytes, 8);
        let total = read_u16_le(bytes, 10);

        let header = ChunkHeader::new(call_id, index, total, len);

        let payload_start = CHUNK_HEADER_SIZE;
        let payload_end = payload_start + len as usize;
        let payload = Bytes::copy_from_slice(&bytes[payload_start..payload_end]);

        Ok(PackageChunk::new(header, payload))
    }
}

/// Reads and writes envelopes.
#[derive(Default, Clone, Copy)]
pub struct EnvelopeCodec;

impl EnvelopeCodec {
    /// Writes an envelope, after checking the three size limits. The first
    /// limit that is broken decides the error, and nothing is written then.
    pub fn encode(&self, value: Envelope) -> (r: Result<Bytes, RpcError>)
        ensures
            match r {
                Ok(bytes) => envelope_violation(value@) is None && bytes_content(bytes)
                    == envelope_wire(value@),
                Err(e) => envelope_violation(value@) == Some(e),
            },
    {
        let fn_name = value.fn_name();
        let args = value.parameters();

        if fn_name.len() > MAX_FUNCTION_NAME_SIZE {
            return Err(RpcError::MaxFunctionNameConstraintViolation);
        }
        if args.len() > MAX_ARGUMENTS_COUNT {
            return Err(RpcError::MaxArgumentsConstraintViolation);
        }
        let mut checked: usize = 0;
        while checked < args.len()
            invariant
                checked <= args@.len(),
                value@.fn_name.len() <= MAX_FUNCTION_NAME_SIZE,
                args@.len() <= MAX_ARGUMENTS_COUNT,
                contents_of(args@) == value@.parameters,
                forall|i: int|
                    0 <= i < checked ==> (#[trigger] value@.parameters[i]).len()
                        <= MAX_ARGUMENT_SIZE,
            decreases args@.len() - checked,
        {
            assert(value@.parameters[checked as int] == bytes_content(args@[checked as int]));
            if args[checked].len() > MAX_ARGUMENT_SIZE {
                assert(value@.parameters[checked as int].len() > MAX_ARGUMENT_SIZE);
                return Err(RpcError::MaxArgumentSizeConstraintViolation);
            }
            checked += 1;
        }

        // name length + name + argument count
        let mut capacity: usize = 2 + fn_name.len() + 2;

        // each argument with its length
        let mut counted: usize = 0;
        while counted < args.len()
            invariant
                counted <= args@.len(),
                value@.fn_name.len() <= MAX_FUNCTION_NAME_SIZE,
                args@.len() <= MAX_ARGUMENTS_COUNT,
                contents_of(args@) == value@.parameters,
                arguments_within_limit(value@.parameters),
                capacity == 4 + value@.fn_name.len() + arguments_wire(
                    value@.parameters.take(counted as int),
                ).len(),
                capacity <= 4 + MAX_FUNCTION_NAME_SIZE + counted * 0x100_0008,
            decreases args@.len() - counted,
        {
            proof {
                let done = value@.parameters.take(counted as int);
                let arg = value@.parameters[counted as int];
                assert(arg == bytes_content(args@[counted as int]));
                assert(value@.parameters.take(counted + 1) =~= done.push(arg));
                lemma_arguments_wire_push(done, arg);
                lemma_u64_le_round_trip(arg.len() as u64);
            }
            capacity += 8 + args[counted].len();
            counted += 1;
        }
        proof {
            assert(value@.parameters.take(counted as int) =~= value@.parameters);
            lemma_u16_le_round_trip(value@.fn_name.len() as u16);
            lemma_u16_le_round_trip(value@.parameters.len() as u16);
        }

        let mut buf = BytesMut::with_capacity(capacity);

        put_u16_le(&mut buf, fn_name.len() as u16);

        buf.extend_from_slice(fn_name);

        put_u16_le(&mut buf, args.len() as u16);

        let ghost head = bytes_mut_content(buf);
        let mut written: usize = 0;
        while written < args.len()
            invariant
                written <= args@.len(),
                contents_of(args@) == value@.parameters,
                arguments_within_limit(value@.parameters),
                bytes_mut_content(buf) == head + arguments_wire(
                    value@.parameters.take(written as int),
                ),
                bytes_mut_room(buf) == head.len() + arguments_wire(value@.parameters).len(),
            decreases args@.len() - written,
        {
            let arg = &args[written];
            proof {
                let done = value@.parameters.take(written as int);
                assert(value@.parameters[written as int] == bytes_content(*arg));
                assert(value@.parameters.take(written + 1) =~= done.push(bytes_content(*arg)));
                lemma_arguments_wire_push(done, bytes_content(*arg));
                lemma_arguments_wire_prefix(value@.parameters, written + 1);
                lemma_u64_le_round_trip(bytes_content(*arg).len() as u64);
            }
            put_u64_le(&mut buf, arg.len() as u64);
            buf.extend_from_slice(arg);
            written += 1;
        }
        proof {
            assert(value@.parameters.take(written as int) =~= value@.parameters);
        }

        Ok(buf.freeze())
    }

    /// Reads an envelope. The same limits hold as on writing, and the
    /// envelope must end where the bytes end.
    pub fn decode(&self, bytes: &[u8]) -> (r: Result<Envelope, RpcError>)
        ensures
            match r {
                Ok(envelope) => parse_envelope(bytes@) == Ok::<EnvelopeView, RpcError>(envelope@),
                Err(e) => parse_envelope(bytes@) == Err::<EnvelopeView, RpcError>(e),
            },
            r is Ok ==> envelope_violation(r->Ok_0@) is None,
    {
        let mut cursor: usize = 0;

        // Function name length
        if bytes.len() < 2 {
            return Err(RpcError::Decode);
        }
        let fn_len = read_u16_le(bytes, cursor) as usize;

        // Two bytes cannot say more than the limit; the test stands for the
        // day the length field grows.
        if fn_len > MAX_FUNCTION_NAME_SIZE {
            return Err(RpcError::MaxFunctionNameConstraintViolation);
        }
        cursor += 2;

        // Function name
        if bytes.len() - cursor < fn_len {
            return Err(RpcError::Decode);
        }
        let fn_name = Bytes::copy_from_slice(&bytes[cursor..cursor + fn_len]);
        cursor += fn_len;

        if bytes.len() - cursor < 2 {
            return Err(RpcError::Decode);
        }
        let arg_count = read_u16_le(bytes, cursor) as usize;

        cursor += 2;

        if arg_count > MAX_ARGUMENTS_COUNT {
            return Err(RpcError::MaxArgumentsConstraintViolation);
        }
        // Arguments
        let mut parameters: Vec<Bytes> = Vec::with_capacity(arg_count);
        let ghost name = bytes_content(fn_name);
        let ghost first = cursor as int;
        let ghost whole = parse_arguments(bytes@, first, arg_count as nat);

        let mut read: usize = 0;
        while read < arg_count
            invariant
                read <= arg_count,
                cursor <= bytes@.len(),
                parameters@.len() == read,
                bytes_content(fn_name) == name,
                parse_envelope(bytes@) == match whole {
                    Err(e) => Err::<EnvelopeView, RpcError>(e),
                    Ok((parameters, end)) => if end != bytes@.len() {
                        Err::<EnvelopeView, RpcError>(RpcError::GarbageBytes)
                    } else {
                        Ok::<EnvelopeView, RpcError>(EnvelopeView { fn_name: name, parameters })
                    },
                },
                whole == match parse_arguments(bytes@, cursor as int, (arg_count - read) as nat) {
                    Ok((rest, end)) => Ok::<(Seq<Seq<u8>>, int), RpcError>(
                        (contents_of(parameters@) + rest, end),
                    ),
                    Err(e) => Err::<(Seq<Seq<u8>>, int), RpcError>(e),
                },
            decreases arg_count - read,
        {
            if bytes.len() - cursor < 8 {
                return Err(RpcError::Decode);
            }
            let arg_len = read_u64_le(bytes, cursor);

            cursor += 8;

            if arg_len > MAX_ARGUMENT_SIZE as u64 {
                return Err(RpcError::MaxArgumentSizeConstraintViolation);
            }
            let arg_len = arg_len as usize;

            if bytes.len() - cursor < arg_len {
                return Err(RpcError::Decode);
            }
            let arg = &bytes[cursor..cursor + arg_len];
            let ghost before = contents_of(parameters@);
            let ghost rest = parse_arguments(
                bytes@,
                cursor + arg_len,
                (arg_count - read - 1) as nat,
            );
            cursor += arg_len;

            parameters.push(Bytes::copy_from_slice(arg));
            read += 1;
            proof {
                assert(contents_of(parameters@) =~= before.push(arg@));
                if let Ok((tail, end)) = rest {
                    assert(before + (seq![arg@] + tail) =~= before.push(arg@) + tail);
                }
            }
        }

        if cursor != bytes.len() {
            return Err(RpcError::GarbageBytes);
        }
        proof {
            assert(contents_of(parameters@) + Seq::<Seq<u8>>::empty() =~= contents_of(
                parameters@,
            ));
        }
        proof {
            lemma_envelope_wire_of_parsed(bytes@);
        }
        let envelope = Envelope::new(fn_name, parameters);

        Ok(envelope)
    }
}

} // verus!
