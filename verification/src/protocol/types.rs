//! The values that travel through the protocol layer, and their models.

use bytes::Bytes;
use vstd::prelude::*;

use crate::buffer::bytes_content;

verus! {

/// Identifies one logical call; all chunks of a call carry the same id.
pub type CallId = u64;

/// `std::io::Error`, carried by the transport's start-up errors.
#[verifier::external_type_specification]
#[verifier::external_body]
pub struct ExIoError(std::io::Error);

/// Everything that can go wrong between a datagram and a response.
#[derive(Debug)]
pub enum RpcError {
    /// Bytes that are truncated or otherwise not of the expected form.
    Decode,
    /// A value could not be serialised.
    Encode,
    /// A function name longer than `MAX_FUNCTION_NAME_SIZE`.
    MaxFunctionNameConstraintViolation,
    /// More than `MAX_ARGUMENTS_COUNT` arguments.
    MaxArgumentsConstraintViolation,
    /// An argument longer than `MAX_ARGUMENT_SIZE`.
    MaxArgumentSizeConstraintViolation,
    /// A datagram shorter than the chunk header, or than the header and the
    /// payload length it declares.
    ChunkHeaderSizeConstraintViolation,
    /// Bytes left over after the last argument of an envelope.
    GarbageBytes,
    /// A call that names a function nobody registered.
    UnknownFunction,
    /// The transport could not bind its socket.
    SocketBinding(std::io::Error),
    /// The transport could not tell its local address.
    LocalAddress(std::io::Error),
}

/// The header of one chunk: which call it belongs to, its place among the
/// call's chunks, and how many payload bytes follow it.
#[derive(Debug)]
pub struct ChunkHeader {
    call_id: CallId,
    index: u16,
    total: u16,
    len: u32,
}

/// A chunk header as a plain record.
pub struct ChunkHeaderView {
    pub call_id: CallId,
    pub index: u16,
    pub total: u16,
    pub payload_len: u32,
}

impl View for ChunkHeader {
    type V = ChunkHeaderView;

    closed spec fn view(&self) -> ChunkHeaderView {
        ChunkHeaderView {
            call_id: self.call_id,
            index: self.index,
            total: self.total,
            payload_len: self.len,
        }
    }
}

impl ChunkHeader {
    pub fn new(call_id: CallId, index: u16, total: u16, len: u32) -> (r: Self)
        ensures
            r@ == (ChunkHeaderView { call_id, index, total, payload_len: len }),
    {
        Self { call_id, index, total, len }
    }

    pub fn call_id(&self) -> (r: CallId)
        ensures
            r == self@.call_id,
    {
        self.call_id
    }

    pub fn index(&self) -> (r: u16)
        ensures
            r == self@.index,
    {
        self.index
    }

    pub fn total(&self) -> (r: u16)
        ensures
            r == self@.total,
    {
        self.total
    }

    pub fn payload_len(&self) -> (r: u32)
        ensures
            r == self@.payload_len,
    {
        self.len
    }
}

/// One fragment of a call: a header and the payload bytes it announces.
#[derive(Debug)]
pub struct PackageChunk {
    header: ChunkHeader,
    payload: Bytes,
}

/// A chunk as a plain record.
pub struct PackageChunkView {
    pub header: ChunkHeaderView,
    pub payload: Seq<u8>,
}

impl PackageChunkView {
    /// The header announces exactly the payload that the chunk carries.
    pub open spec fn is_consistent(self) -> bool {
        self.header.payload_len == self.payload.len()
    }
}

impl View for PackageChunk {
    type V = PackageChunkView;

    closed spec fn view(&self) -> PackageChunkView {
        PackageChunkView { header: self.header@, payload: bytes_content(self.payload) }
    }
}

impl PackageChunk {
    pub fn new(header: ChunkHeader, payload: Bytes) -> (r: Self)
        ensures
            r@ == (PackageChunkView { header: header@, payload: bytes_content(payload) }),
    {
        Self { header, payload }
    }

    pub fn header(&self) -> (r: &ChunkHeader)
        ensures
            r@ == self@.header,
    {
        &self.header
    }

    pub fn payload(&self) -> (r: &Bytes)
        ensures
            bytes_content(*r) == self@.payload,
    {
        &self.payload
    }
}

/// The views of a sequence of buffers, in order.
pub open spec fn contents_of(buffers: Seq<Bytes>) -> Seq<Seq<u8>> {
    buffers.map_values(|b: Bytes| bytes_content(b))
}

/// The body of a call: the name of the function and its arguments, each an
/// opaque byte string, in call order.
#[derive(Debug)]
pub struct Envelope {
    fn_name: Bytes,
    parameters: Vec<Bytes>,
}

/// An envelope as a plain record.
pub struct EnvelopeView {
    pub fn_name: Seq<u8>,
    pub parameters: Seq<Seq<u8>>,
}

impl View for Envelope {
    type V = EnvelopeView;

    closed spec fn view(&self) -> EnvelopeView {
        EnvelopeView {
            fn_name: bytes_content(self.fn_name),
            parameters: contents_of(self.parameters@),
        }
    }
}

impl Envelope {
    pub fn new(fn_name: Bytes, parameters: Vec<Bytes>) -> (r: Self)
        ensures
            r@ == (EnvelopeView {
                fn_name: bytes_content(fn_name),
                parameters: contents_of(parameters@),
            }),
    {
        Self { fn_name, parameters }
    }

    pub fn fn_name(&self) -> (r: &Bytes)
        ensures
            bytes_content(*r) == self@.fn_name,
    {
        &self.fn_name
    }

    pub fn parameters(&self) -> (r: &Vec<Bytes>)
        ensures
            contents_of(r@) == self@.parameters,
    {
        &self.parameters
    }
}

/// A call that has been reassembled and parsed.
#[derive(Debug)]
pub struct RpcCall {
    call_id: CallId,
    envelope: Envelope,
}

/// A call as a plain record.
pub struct RpcCallView {
    pub call_id: CallId,
    pub envelope: EnvelopeView,
}

impl View for RpcCall {
    type V = RpcCallView;

    closed spec fn view(&self) -> RpcCallView {
        RpcCallView { call_id: self.call_id, envelope: self.envelope@ }
    }
}

impl RpcCall {
    pub fn new(call_id: CallId, envelope: Envelope) -> (r: Self)
        ensures
            r@ == (RpcCallView { call_id, envelope: envelope@ }),
    {
        RpcCall { call_id, envelope }
    }

    pub fn call_id(&self) -> (r: CallId)
        ensures
            r == self@.call_id,
    {
        self.call_id
    }

    pub fn envelope(&self) -> (r: &Envelope)
        ensures
            r@ == self@.envelope,
    {
        &self.envelope
    }
}

} // verus!
