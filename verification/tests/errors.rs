use std::io::{Error, ErrorKind};

use corgi::protocol::types::RpcError;

#[test]
fn transport_errors_carry_their_cause() {
    let binding = RpcError::SocketBinding(Error::new(ErrorKind::AddrInUse, "taken"));
    let address = RpcError::LocalAddress(Error::new(ErrorKind::NotConnected, "gone"));

    assert!(matches!(&binding, RpcError::SocketBinding(cause) if cause.kind() == ErrorKind::AddrInUse));
    assert!(matches!(&address, RpcError::LocalAddress(cause) if cause.kind() == ErrorKind::NotConnected));
}

#[test]
fn errors_can_be_printed_for_logs() {
    assert_eq!(format!("{:?}", RpcError::UnknownFunction), "UnknownFunction");
    assert_eq!(format!("{:?}", RpcError::GarbageBytes), "GarbageBytes");
    assert_eq!(
        format!("{:?}", RpcError::ChunkHeaderSizeConstraintViolation),
        "ChunkHeaderSizeConstraintViolation"
    );
}
