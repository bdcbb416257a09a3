//! Dispatch: from a reassembled call to the function that serves it, and
//! from what the function returned to the response.
//!
//! Handlers are asynchronous and are run by the caller. The dispatcher makes
//! the two decisions around that: which function a call names, and what is
//! sent back once the handler is done.

use bytes::Bytes;
use vstd::prelude::*;

use crate::buffer::bytes_content;
use crate::container::lookup;
use crate::container::Container;
use crate::container::RpcFunction;
use crate::protocol::types::RpcCall;
use crate::protocol::types::RpcError;

verus! {

/// Routes calls to the functions of one registry.
pub struct Dispatcher<'a, H: 'static> {
    container: &'a Container<H>,
}

impl<'a, H: 'static> Dispatcher<'a, H> {
    /// A dispatcher for the functions of `container`.
    pub fn new(container: &'a Container<H>) -> (r: Self)
        ensures
            r.container() == container,
    {
        Dispatcher { container }
    }

    /// The registry that calls are routed to.
    pub closed spec fn container(&self) -> &'a Container<H> {
        self.container
    }

    /// The function that `call` names. A call that names no registered
    /// function fails with `UnknownFunction`, and with nothing else.
    pub fn resolve(&self, call: &RpcCall) -> (r: Result<&'static RpcFunction<H>, RpcError>)
        ensures
            match lookup(self.container()@, call@.envelope.fn_name) {
                Some(function) => r == Ok::<&'static RpcFunction<H>, RpcError>(function),
                None => r == Err::<&'static RpcFunction<H>, RpcError>(RpcError::UnknownFunction),
            },
    {
        match self.container.find_bytes(call.envelope().fn_name()) {
            Some(function) => Ok(function),
            None => Err(RpcError::UnknownFunction),
        }
    }

    /// The response to a call whose handler has returned `outcome`. A
    /// failure is passed on. The result of a function that declares a return
    /// type is sent as it is; a function that declares none is answered with
    /// an empty buffer.
    pub fn respond(&self, function: &RpcFunction<H>, outcome: Result<Bytes, RpcError>) -> (r:
        Result<Bytes, RpcError>)
        ensures
            match outcome {
                Ok(result) => r is Ok && bytes_content(r->Ok_0) == if function.return_type is Some {
                    bytes_content(result)
                } else {
                    Seq::<u8>::empty()
                },
                Err(e) => r == Err::<Bytes, RpcError>(e),
            },
    {
        match outcome {
            Ok(result) => if function.return_type.is_some() {
                Ok(result)
            } else {
                Ok(Bytes::new())
            },
            Err(e) => Err(e),
        }
    }
}

} // verus!
