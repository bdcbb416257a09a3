use corgi::codec::BincodeCodec;
use corgi::protocol::types::RpcError;

#[test]
fn encode_frames_the_serialised_bytes() {
    let serialized = wincode::serialize(&(10_i32, 20_i32)).unwrap();
    let bytes = BincodeCodec.encode(Ok(serialized.clone())).unwrap();

    assert_eq!(&bytes[..], &serialized[..]);
    assert_eq!(&bytes[..], &[10, 0, 0, 0, 20, 0, 0, 0]);
}

#[test]
fn encode_of_failure_is_encode_error() {
    let failed = Err(wincode::WriteError::Custom("no"));

    assert!(matches!(BincodeCodec.encode(failed), Err(RpcError::Encode)));
}

#[test]
fn decode_passes_the_value_on() {
    let value: i32 = BincodeCodec.decode(wincode::deserialize(&[30, 0, 0, 0])).unwrap();

    assert_eq!(value, 30);
}

#[test]
fn decode_of_failure_is_decode_error() {
    let result: Result<i32, RpcError> = BincodeCodec.decode(wincode::deserialize(&[1, 2]));

    assert!(matches!(result, Err(RpcError::Decode)));
}

#[test]
fn codec_from_the_protocol_module_is_the_same() {
    let codec = corgi::protocol::codec::BincodeCodec::default();
    let value: u8 = codec.decode(wincode::deserialize(&[5])).unwrap();

    assert_eq!(value, 5);
}
