//! The value codec: how arguments and results become bytes.
//!
//! Values are serialised by `wincode`. What this module adds is the frame
//! around that: the bytes go into a buffer that can be shared, and a failure
//! becomes an error of this library.

use bytes::Bytes;
use vstd::prelude::*;
use wincode::ReadError;
use wincode::WriteError;

use crate::buffer::bytes_content;
use crate::protocol::types::RpcError;

verus! {

/// `wincode::WriteError`, why a value could not be serialised.
#[verifier::external_type_specification]
#[verifier::external_body]
pub struct ExWriteError(WriteError);

/// `wincode::ReadError`, why bytes could not be deserialised.
#[verifier::external_type_specification]
#[verifier::external_body]
pub struct ExReadError(ReadError);

/// The codec for arguments and results.
#[derive(Default, Clone, Copy)]
pub struct BincodeCodec;

impl BincodeCodec {
    /// Frames what `wincode::serialize` returned for a value: the bytes as
    /// a buffer, or `Encode` whatever the failure was.
    pub fn encode(&self, serialized: Result<Vec<u8>, WriteError>) -> (r: Result<Bytes, RpcError>)
        ensures
            match serialized {
                Ok(bytes) => r is Ok && bytes_content(r->Ok_0) == bytes@,
                Err(_) => r == Err::<Bytes, RpcError>(RpcError::Encode),
            },
    {
        match serialized {
            Ok(bytes) => Ok(Bytes::from(bytes)),
            Err(_) => Err(RpcError::Encode),
        }
    }

    /// Frames what `wincode::deserialize` returned for a buffer: the value,
    /// or `Decode` whatever the failure was.
    pub fn decode<T>(&self, deserialized: Result<T, ReadError>) -> (r: Result<T, RpcError>)
        ensures
            match deserialized {
                Ok(value) => r == Ok::<T, RpcError>(value),
                Err(_) => r == Err::<T, RpcError>(RpcError::Decode),
            },
    {
        match deserialized {
            Ok(value) => Ok(value),
            Err(_) => Err(RpcError::Decode),
        }
    }
}

} // verus!
