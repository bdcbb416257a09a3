//! The two wire formats, bit for bit, and their laws.
//!
//! All integers are little-endian. A chunk is
//!
//! ```text
//! 0        8       10      12      16
//! | call_id | index | total | len   | payload, len bytes |
//! | u64     | u16   | u16   | u32   |                    |
//! ```
//!
//! and an envelope is
//!
//! ```text
//! | name_len: u16 | name | arg_count: u16 | { arg_len: u64 | arg } * arg_count |
//! ```
//!
//! For each format there is what a value looks like on the wire, and what
//! bytes mean as a value. The laws say that the two fit: what is written is
//! read back unchanged, and what is read was written so.

use vstd::prelude::*;

use crate::endian::lemma_u16_le_bytes_of_value;
use crate::endian::lemma_u16_le_round_trip;
use crate::endian::lemma_u32_le_bytes_of_value;
use crate::endian::lemma_u32_le_round_trip;
use crate::endian::lemma_u64_le_bytes_of_value;
use crate::endian::lemma_u64_le_round_trip;
use crate::endian::u16_from_le;
use crate::endian::u16_le_bytes;
use crate::endian::u32_from_le;
use crate::endian::u32_le_bytes;
use crate::endian::u64_from_le;
use crate::endian::u64_le_bytes;
use crate::protocol::types::ChunkHeaderView;
use crate::protocol::types::EnvelopeView;
use crate::protocol::types::PackageChunkView;
use crate::protocol::types::RpcError;

verus! {


/// Size of the chunk header: call id, chunk index, chunk count and payload
/// length.
pub const CHUNK_HEADER_SIZE: usize = 16;

/// The most arguments that a call may carry.
pub const MAX_ARGUMENTS_COUNT: usize = 16;

/// The most bytes that one argument may hold: 16 MiB.
pub const MAX_ARGUMENT_SIZE: usize = 0x100_0000;

/// The most bytes that a function name may hold.
pub const MAX_FUNCTION_NAME_SIZE: usize = 0xffff;

/// The most bytes that an envelope takes on the wire: the longest name and
/// the most arguments, each of the largest size.
pub const MAX_ENVELOPE_SIZE: usize = 0x1001_0083;

/// The sixteen header bytes of a chunk.
pub open spec fn chunk_header_wire(h: ChunkHeaderView) -> Seq<u8> {
    u64_le_bytes(h.call_id) + u16_le_bytes(h.index) + u16_le_bytes(h.total) + u32_le_bytes(
        h.payload_len,
    )
}

/// A chunk on the wire: its header, then its payload as it is.
pub open spec fn chunk_wire(c: PackageChunkView) -> Seq<u8> {
    chunk_header_wire(c.header) + c.payload
}

/// What a datagram means as a chunk. Bytes after the announced payload are
/// not part of the chunk.
pub open spec fn parse_chunk(bytes: Seq<u8>) -> Result<PackageChunkView, RpcError> {
    if bytes.len() < CHUNK_HEADER_SIZE {
        Err(RpcError::ChunkHeaderSizeConstraintViolation)
    } else {
        let len = u32_from_le(bytes.subrange(12, 16));
        if bytes.len() < CHUNK_HEADER_SIZE + len {
            Err(RpcError::ChunkHeaderSizeConstraintViolation)
        } else {
            Ok(
                PackageChunkView {
                    header: ChunkHeaderView {
                        call_id: u64_from_le(bytes.subrange(0, 8)),
                        index: u16_from_le(bytes.subrange(8, 10)),
                        total: u16_from_le(bytes.subrange(10, 12)),
                        payload_len: len,
                    },
                    payload: bytes.subrange(16, 16 + len),
                },
            )
        }
    }
}

/// A consistent chunk survives the wire: parsing what was written gives the
/// chunk back.
pub proof fn lemma_chunk_round_trip(c: PackageChunkView)
    requires
        c.is_consistent(),
    ensures
        parse_chunk(chunk_wire(c)) == Ok::<PackageChunkView, RpcError>(c),
{
    let h = c.header;
    let wire = chunk_wire(c);
    lemma_u64_le_round_trip(h.call_id);
    lemma_u16_le_round_trip(h.index);
    lemma_u16_le_round_trip(h.total);
    lemma_u32_le_round_trip(h.payload_len);
    assert(wire.subrange(0, 8) =~= u64_le_bytes(h.call_id));
    assert(wire.subrange(8, 10) =~= u16_le_bytes(h.index));
    assert(wire.subrange(10, 12) =~= u16_le_bytes(h.total));
    assert(wire.subrange(12, 16) =~= u32_le_bytes(h.payload_len));
    assert(wire.subrange(16, 16 + h.payload_len) =~= c.payload);
}

/// A datagram that parses starts with the wire form of its chunk, and a
/// datagram of exactly that length is that wire form.
pub proof fn lemma_chunk_wire_of_parsed(bytes: Seq<u8>)
    requires
        parse_chunk(bytes) is Ok,
    ensures
        parse_chunk(bytes)->Ok_0.is_consistent(),
        chunk_wire(parse_chunk(bytes)->Ok_0) == bytes.subrange(
            0,
            CHUNK_HEADER_SIZE + parse_chunk(bytes)->Ok_0.header.payload_len,
        ),
{
    let c = parse_chunk(bytes)->Ok_0;
    lemma_u64_le_bytes_of_value(bytes.subrange(0, 8));
    lemma_u16_le_bytes_of_value(bytes.subrange(8, 10));
    lemma_u16_le_bytes_of_value(bytes.subrange(10, 12));
    lemma_u32_le_bytes_of_value(bytes.subrange(12, 16));
    assert(chunk_wire(c) =~= bytes.subrange(0, CHUNK_HEADER_SIZE + c.header.payload_len));
}

/// One argument on the wire: its length in eight bytes, then its bytes.
pub open spec fn argument_wire(arg: Seq<u8>) -> Seq<u8> {
    u64_le_bytes(arg.len() as u64) + arg
}

/// The arguments on the wire, one after the other in call order.
pub open spec fn arguments_wire(args: Seq<Seq<u8>>) -> Seq<u8>
    decreases args.len(),
{
    if args.len() == 0 {
        Seq::empty()
    } else {
        argument_wire(args.first()) + arguments_wire(args.drop_first())
    }
}

/// An envelope on the wire. The lengths are written in two and in eight
/// bytes, which is all of them for an envelope within the limits.
pub open spec fn envelope_wire(e: EnvelopeView) -> Seq<u8>
    recommends
        envelope_violation(e) is None,
{
    u16_le_bytes(e.fn_name.len() as u16) + e.fn_name + u16_le_bytes(e.parameters.len() as u16)
        + arguments_wire(e.parameters)
}

/// The first size limit that an envelope breaks, in the order in which they
/// are checked: the name, the number of arguments, the size of each argument.
pub open spec fn envelope_violation(e: EnvelopeView) -> Option<RpcError> {
    if e.fn_name.len() > MAX_FUNCTION_NAME_SIZE {
        Some(RpcError::MaxFunctionNameConstraintViolation)
    } else if e.parameters.len() > MAX_ARGUMENTS_COUNT {
        Some(RpcError::MaxArgumentsConstraintViolation)
    } else if exists|i: int|
        0 <= i < e.parameters.len() && (#[trigger] e.parameters[i]).len() > MAX_ARGUMENT_SIZE {
        Some(RpcError::MaxArgumentSizeConstraintViolation)
    } else {
        None
    }
}

/// What `count` arguments starting at `cursor` mean: the arguments and the
/// place where the last one ends. The first argument that cannot be read
/// decides the error.
pub open spec fn parse_arguments(bytes: Seq<u8>, cursor: int, count: nat) -> Result<
    (Seq<Seq<u8>>, int),
    RpcError,
>
    decreases count,
{
    if count == 0 {
        Ok((Seq::empty(), cursor))
    } else if bytes.len() < cursor + 8 {
        Err(RpcError::Decode)
    } else {
        let arg_len = u64_from_le(bytes.subrange(cursor, cursor + 8));
        if arg_len > MAX_ARGUMENT_SIZE {
            Err(RpcError::MaxArgumentSizeConstraintViolation)
        } else if bytes.len() < cursor + 8 + arg_len {
            Err(RpcError::Decode)
        } else {
            let arg = bytes.subrange(cursor + 8, cursor + 8 + arg_len);
            match parse_arguments(bytes, cursor + 8 + arg_len, (count - 1) as nat) {
                Ok((rest, end)) => Ok((seq![arg] + rest, end)),
                Err(e) => Err(e),
            }
        }
    }
}

/// What a byte string means as an envelope. Every byte must be accounted
/// for: bytes after the last argument are an error of their own.
pub open spec fn parse_envelope(bytes: Seq<u8>) -> Result<EnvelopeView, RpcError> {
    if bytes.len() < 2 {
        Err(RpcError::Decode)
    } else {
        let name_len = u16_from_le(bytes.subrange(0, 2)) as int;
        if bytes.len() < 2 + name_len + 2 {
            Err(RpcError::Decode)
        } else {
            let count = u16_from_le(bytes.subrange(2 + name_len, 4 + name_len));
            if count > MAX_ARGUMENTS_COUNT {
                Err(RpcError::MaxArgumentsConstraintViolation)
            } else {
                match parse_arguments(bytes, 4 + name_len, count as nat) {
                    Err(e) => Err(e),
                    Ok((parameters, end)) => if end != bytes.len() {
                        Err(RpcError::GarbageBytes)
                    } else {
                        Ok(EnvelopeView { fn_name: bytes.subrange(2, 2 + name_len), parameters })
                    },
                }
            }
        }
    }
}

/// Concatenation does not depend on how it is bracketed.
proof fn lemma_concat_assoc(a: Seq<u8>, b: Seq<u8>, c: Seq<u8>)
    ensures
        (a + b) + c == a + (b + c),
{
    assert((a + b) + c =~= a + (b + c));
}

/// Appending an argument appends its wire form.
pub proof fn lemma_arguments_wire_push(args: Seq<Seq<u8>>, arg: Seq<u8>)
    ensures
        arguments_wire(args.push(arg)) == arguments_wire(args) + argument_wire(arg),
    decreases args.len(),
{
    let last = argument_wire(arg);
    if args.len() == 0 {
        assert(args.push(arg).first() == arg);
        assert(args.push(arg).drop_first() =~= args);
        assert(last + Seq::<u8>::empty() =~= last);
        assert(Seq::<u8>::empty() + last =~= last);
    } else {
        let head = argument_wire(args.first());
        let tail = arguments_wire(args.drop_first());
        assert(args.push(arg).first() == args.first());
        assert(args.push(arg).drop_first() =~= args.drop_first().push(arg));
        lemma_arguments_wire_push(args.drop_first(), arg);
        lemma_concat_assoc(head, tail, last);
    }
}

/// Every argument is within the size limit.
pub open spec fn arguments_within_limit(args: Seq<Seq<u8>>) -> bool {
    forall|i: int| 0 <= i < args.len() ==> (#[trigger] args[i]).len() <= MAX_ARGUMENT_SIZE
}

/// Where the wire form of `args` stands at `cursor`, parsing as many
/// arguments gives `args` back and ends right after them.
pub proof fn lemma_parse_written_arguments(bytes: Seq<u8>, cursor: int, args: Seq<Seq<u8>>)
    requires
        0 <= cursor,
        cursor + arguments_wire(args).len() <= bytes.len(),
        bytes.subrange(cursor, cursor + arguments_wire(args).len()) == arguments_wire(args),
        arguments_within_limit(args),
    ensures
        parse_arguments(bytes, cursor, args.len()) == Ok::<(Seq<Seq<u8>>, int), RpcError>(
            (args, cursor + arguments_wire(args).len()),
        ),
    decreases args.len(),
{
    if args.len() > 0 {
        let first = args.first();
        let rest = args.drop_first();
        let wire = arguments_wire(args);
        let size = u64_le_bytes(first.len() as u64);
        let len = first.len() as int;
        let next = cursor + 8 + len;
        assert(first == args[0]);
        lemma_u64_le_round_trip(first.len() as u64);
        assert(wire == (size + first) + arguments_wire(rest));
        assert(bytes.subrange(cursor, cursor + 8) =~= wire.subrange(0, 8));
        assert(wire.subrange(0, 8) =~= size);
        assert(bytes.subrange(cursor + 8, next) =~= wire.subrange(8, 8 + len));
        assert(wire.subrange(8, 8 + len) =~= first);
        assert(bytes.subrange(next, next + arguments_wire(rest).len()) =~= wire.subrange(
            8 + len,
            wire.len() as int,
        ));
        assert(wire.subrange(8 + len, wire.len() as int) =~= arguments_wire(rest));
        assert forall|i: int| 0 <= i < rest.len() implies (#[trigger] rest[i]).len()
            <= MAX_ARGUMENT_SIZE by {
            assert(rest[i] == args[i + 1]);
        }
        lemma_parse_written_arguments(bytes, next, rest);
        assert(seq![first] + rest =~= args);
        assert(u64_from_le(bytes.subrange(cursor, cursor + 8)) == len);
        assert((args.len() - 1) as nat == rest.len());
        assert(next + arguments_wire(rest).len() == cursor + wire.len());
    } else {
        assert(args =~= Seq::<Seq<u8>>::empty());
        assert(arguments_wire(args).len() == 0);
    }
}

/// Arguments that parse are within the size limit, as many as were asked
/// for, and the bytes they were read from are their wire form.
pub proof fn lemma_arguments_wire_of_parsed(bytes: Seq<u8>, cursor: int, count: nat)
    requires
        0 <= cursor <= bytes.len(),
        parse_arguments(bytes, cursor, count) is Ok,
    ensures
        ({
            let (args, end) = parse_arguments(bytes, cursor, count)->Ok_0;
            &&& args.len() == count
            &&& arguments_within_limit(args)
            &&& cursor <= end <= bytes.len()
            &&& bytes.subrange(cursor, end) == arguments_wire(args)
        }),
    decreases count,
{
    let (args, end) = parse_arguments(bytes, cursor, count)->Ok_0;
    if count == 0 {
        assert(bytes.subrange(cursor, end) =~= arguments_wire(args));
    } else {
        let size = bytes.subrange(cursor, cursor + 8);
        let arg_len = u64_from_le(size);
        let arg = bytes.subrange(cursor + 8, cursor + 8 + arg_len);
        let next = cursor + 8 + arg_len;
        lemma_arguments_wire_of_parsed(bytes, next, (count - 1) as nat);
        let (rest, rest_end) = parse_arguments(bytes, next, (count - 1) as nat)->Ok_0;
        assert(args == seq![arg] + rest);
        assert(end == rest_end);
        assert(args.first() == arg);
        assert(args.drop_first() =~= rest);
        lemma_u64_le_bytes_of_value(size);
        assert forall|i: int| 0 <= i < args.len() implies (#[trigger] args[i]).len()
            <= MAX_ARGUMENT_SIZE by {
            if i > 0 {
                assert(args[i] == rest[i - 1]);
            }
        }
        assert(bytes.subrange(cursor, end) =~= (size + arg) + bytes.subrange(next, end));
    }
}

/// An envelope within the limits survives the wire: parsing what was written
/// gives the envelope back.
pub proof fn lemma_envelope_round_trip(e: EnvelopeView)
    requires
        envelope_violation(e) is None,
    ensures
        parse_envelope(envelope_wire(e)) == Ok::<EnvelopeView, RpcError>(e),
{
    lemma_envelope_with_trailing_bytes(e, Seq::empty());
    assert(envelope_wire(e) + Seq::<u8>::empty() =~= envelope_wire(e));
}

/// The wire form of an envelope within the limits, followed by `extra`:
/// with no extra bytes it parses to the envelope, with any it is refused as
/// garbage.
pub proof fn lemma_envelope_with_trailing_bytes(e: EnvelopeView, extra: Seq<u8>)
    requires
        envelope_violation(e) is None,
    ensures
        parse_envelope(envelope_wire(e) + extra) == if extra.len() == 0 {
            Ok::<EnvelopeView, RpcError>(e)
        } else {
            Err::<EnvelopeView, RpcError>(RpcError::GarbageBytes)
        },
{
    let name_len = e.fn_name.len() as u16;
    let count = e.parameters.len() as u16;
    let wire = envelope_wire(e);
    let bytes = wire + extra;
    let first = 4 + e.fn_name.len() as int;
    lemma_u16_le_round_trip(name_len);
    lemma_u16_le_round_trip(count);
    assert(bytes.subrange(0, 2) =~= u16_le_bytes(name_len));
    assert(bytes.subrange(2, 2 + name_len) =~= e.fn_name);
    assert(bytes.subrange(2 + name_len, 4 + name_len) =~= u16_le_bytes(count));
    assert(bytes.subrange(first, first + arguments_wire(e.parameters).len()) =~= arguments_wire(
        e.parameters,
    ));
    assert forall|i: int| 0 <= i < e.parameters.len() implies (#[trigger] e.parameters[i]).len()
        <= MAX_ARGUMENT_SIZE by {}
    lemma_parse_written_arguments(bytes, first, e.parameters);
}

/// Whatever parses as an envelope is within the limits, and the bytes it was
/// parsed from are its wire form, to the last byte.
pub proof fn lemma_envelope_wire_of_parsed(bytes: Seq<u8>)
    requires
        parse_envelope(bytes) is Ok,
    ensures
        envelope_violation(parse_envelope(bytes)->Ok_0) is None,
        envelope_wire(parse_envelope(bytes)->Ok_0) == bytes,
{
    let e = parse_envelope(bytes)->Ok_0;
    let name_len = u16_from_le(bytes.subrange(0, 2));
    let count = u16_from_le(bytes.subrange(2 + name_len, 4 + name_len));
    let first = 4 + name_len;
    lemma_arguments_wire_of_parsed(bytes, first, count as nat);
    lemma_u16_le_bytes_of_value(bytes.subrange(0, 2));
    lemma_u16_le_bytes_of_value(bytes.subrange(2 + name_len, 4 + name_len));
    assert(envelope_wire(e) =~= bytes);
}

/// The wire form of the first `n` arguments is no longer than that of all.
pub proof fn lemma_arguments_wire_prefix(args: Seq<Seq<u8>>, n: int)
    requires
        0 <= n <= args.len(),
    ensures
        arguments_wire(args.take(n)).len() <= arguments_wire(args).len(),
    decreases args.len() - n,
{
    if n < args.len() {
        lemma_arguments_wire_prefix(args, n + 1);
        assert(args.take(n + 1) =~= args.take(n).push(args[n]));
        lemma_arguments_wire_push(args.take(n), args[n]);
    } else {
        assert(args.take(n) =~= args);
    }
}

/// Arguments within the size limit take at most the room of as many of the
/// largest size.
pub proof fn lemma_arguments_wire_len(args: Seq<Seq<u8>>)
    requires
        arguments_within_limit(args),
    ensures
        arguments_wire(args).len() <= args.len() * (8 + MAX_ARGUMENT_SIZE),
    decreases args.len(),
{
    if args.len() > 0 {
        let rest = args.drop_first();
        assert(args.first() == args[0]);
        assert forall|i: int| 0 <= i < rest.len() implies (#[trigger] rest[i]).len()
            <= MAX_ARGUMENT_SIZE by {
            assert(rest[i] == args[i + 1]);
        }
        lemma_arguments_wire_len(rest);
        lemma_u64_le_round_trip(args.first().len() as u64);
        assert(args.len() * (8 + MAX_ARGUMENT_SIZE) == rest.len() * (8 + MAX_ARGUMENT_SIZE) + (8
            + MAX_ARGUMENT_SIZE)) by (nonlinear_arith)
            requires
                args.len() == rest.len() + 1,
        ;
    }
}

/// No envelope is longer than `MAX_ENVELOPE_SIZE`: longer bytes do not
/// parse.
pub proof fn lemma_envelope_is_bounded(bytes: Seq<u8>)
    requires
        parse_envelope(bytes) is Ok,
    ensures
        bytes.len() <= MAX_ENVELOPE_SIZE,
{
    let e = parse_envelope(bytes)->Ok_0;
    lemma_envelope_wire_of_parsed(bytes);
    lemma_arguments_wire_len(e.parameters);
    lemma_u16_le_round_trip(e.fn_name.len() as u16);
    lemma_u16_le_round_trip(e.parameters.len() as u16);
    assert(e.parameters.len() * (8 + MAX_ARGUMENT_SIZE) <= 16 * (8 + MAX_ARGUMENT_SIZE))
        by (nonlinear_arith)
        requires
            e.parameters.len() <= 16,
    ;
}

} // verus!
