use bytes::Bytes;
use corgi::protocol::codec::{EnvelopeCodec, PackageChunkCodec};
use corgi::protocol::parser::Parser;
use corgi::protocol::types::{ChunkHeader, Envelope, PackageChunk, RpcError};

fn datagram(call_id: u64, index: u16, total: u16, payload: &[u8]) -> Vec<u8> {
    let header = ChunkHeader::new(call_id, index, total, payload.len() as u32);
    let chunk = PackageChunk::new(header, Bytes::copy_from_slice(payload));
    PackageChunkCodec.encode(chunk).unwrap().to_vec()
}

fn build(parser: &mut Parser, call_id: u64) -> Bytes {
    assert!(parser.package_len(call_id).is_some());
    parser.build_package(call_id)
}

fn add_envelope() -> Vec<u8> {
    let envelope = Envelope::new(
        Bytes::from_static(b"add"),
        vec![Bytes::from_static(&[4, 0, 0, 0]), Bytes::from_static(&[5, 0, 0, 0])],
    );
    EnvelopeCodec.encode(envelope).unwrap().to_vec()
}

#[test]
fn scenario_two_chunks_out_of_order() {
    let mut parser = Parser::new();

    assert_eq!(parser.feed(&datagram(7, 1, 2, b"CD")).unwrap(), None);
    assert_eq!(parser.feed(&datagram(7, 0, 2, b"AB")).unwrap(), Some(7));
    assert_eq!(parser.package_len(7), Some(4));
    assert_eq!(&build(&mut parser, 7)[..], b"ABCD");
    assert_eq!(parser.package_len(7), None);
}

#[test]
fn two_chunks_in_order() {
    let mut parser = Parser::default();

    assert_eq!(parser.feed(&datagram(7, 0, 2, b"AB")).unwrap(), None);
    assert_eq!(parser.feed(&datagram(7, 1, 2, b"CD")).unwrap(), Some(7));
    assert_eq!(&build(&mut parser, 7)[..], b"ABCD");
}

#[test]
fn every_arrival_order_builds_the_same_payload() {
    let orders: [[u16; 4]; 24] = [
        [0, 1, 2, 3], [0, 1, 3, 2], [0, 2, 1, 3], [0, 2, 3, 1], [0, 3, 1, 2], [0, 3, 2, 1],
        [1, 0, 2, 3], [1, 0, 3, 2], [1, 2, 0, 3], [1, 2, 3, 0], [1, 3, 0, 2], [1, 3, 2, 0],
        [2, 0, 1, 3], [2, 0, 3, 1], [2, 1, 0, 3], [2, 1, 3, 0], [2, 3, 0, 1], [2, 3, 1, 0],
        [3, 0, 1, 2], [3, 0, 2, 1], [3, 1, 0, 2], [3, 1, 2, 0], [3, 2, 0, 1], [3, 2, 1, 0],
    ];
    let payloads: [&[u8]; 4] = [b"one,", b"", b"three,", b"4"];

    for order in orders {
        let mut parser = Parser::new();
        for (arrived, index) in order.iter().enumerate() {
            let fed = parser.feed(&datagram(11, *index, 4, payloads[*index as usize])).unwrap();
            if arrived == 3 {
                assert_eq!(fed, Some(11));
            } else {
                assert_eq!(fed, None);
            }
        }
        assert_eq!(&build(&mut parser, 11)[..], b"one,three,4");
    }
}

#[test]
fn single_chunk_completes_at_once() {
    let mut parser = Parser::new();

    assert_eq!(parser.feed(&datagram(1, 0, 1, b"whole")).unwrap(), Some(1));
    assert_eq!(&build(&mut parser, 1)[..], b"whole");
}

#[test]
fn duplicate_chunk_is_dropped() {
    let mut parser = Parser::new();

    assert_eq!(parser.feed(&datagram(7, 0, 3, b"AB")).unwrap(), None);
    assert_eq!(parser.feed(&datagram(7, 0, 3, b"xx")).unwrap(), None);
    assert_eq!(parser.feed(&datagram(7, 2, 3, b"EF")).unwrap(), None);
    assert_eq!(parser.feed(&datagram(7, 2, 3, b"yy")).unwrap(), None);
    assert_eq!(parser.package_len(7), Some(4));
    assert_eq!(parser.feed(&datagram(7, 1, 3, b"CD")).unwrap(), Some(7));
    assert_eq!(&build(&mut parser, 7)[..], b"ABCDEF");
}

#[test]
fn calls_do_not_mix() {
    let mut parser = Parser::new();

    assert_eq!(parser.feed(&datagram(1, 1, 2, b"b")).unwrap(), None);
    assert_eq!(parser.feed(&datagram(2, 0, 2, b"X")).unwrap(), None);
    assert_eq!(parser.feed(&datagram(1, 0, 2, b"a")).unwrap(), Some(1));
    assert_eq!(parser.feed(&datagram(2, 1, 2, b"Y")).unwrap(), Some(2));
    assert_eq!(&build(&mut parser, 2)[..], b"XY");
    assert_eq!(&build(&mut parser, 1)[..], b"ab");
}

#[test]
fn malformed_datagram_changes_nothing() {
    let mut parser = Parser::new();

    assert_eq!(parser.feed(&datagram(7, 1, 2, b"CD")).unwrap(), None);
    assert!(matches!(
        parser.feed(&[1, 2, 3]),
        Err(RpcError::ChunkHeaderSizeConstraintViolation)
    ));
    let mut short = datagram(7, 0, 2, b"AB");
    short.pop();
    assert!(matches!(
        parser.feed(&short),
        Err(RpcError::ChunkHeaderSizeConstraintViolation)
    ));
    assert_eq!(parser.package_len(7), Some(2));
    assert_eq!(parser.feed(&datagram(7, 0, 2, b"AB")).unwrap(), Some(7));
    assert_eq!(&build(&mut parser, 7)[..], b"ABCD");
}

#[test]
fn completion_goes_by_the_chunk_just_fed() {
    let mut parser = Parser::new();

    assert_eq!(parser.feed(&datagram(3, 0, 0, b"a")).unwrap(), None);
    assert_eq!(parser.feed(&datagram(3, 5, 9, b"b")).unwrap(), None);
    assert_eq!(parser.feed(&datagram(3, 2, 3, b"c")).unwrap(), Some(3));
    assert_eq!(&build(&mut parser, 3)[..], b"acb");
}

#[test]
fn package_len_of_unknown_call() {
    let parser = Parser::new();

    assert_eq!(parser.package_len(42), None);
}

#[test]
fn apply_hands_over_a_complete_call() {
    let envelope = add_envelope();
    let (front, back) = envelope.split_at(10);
    let mut parser = Parser::new();

    assert!(parser.apply(&datagram(99, 1, 2, back)).unwrap().is_none());
    let call = parser.apply(&datagram(99, 0, 2, front)).unwrap().unwrap();

    assert_eq!(call.call_id(), 99);
    assert_eq!(&call.envelope().fn_name()[..], b"add");
    assert_eq!(call.envelope().parameters().len(), 2);
    assert_eq!(&call.envelope().parameters()[0][..], &[4, 0, 0, 0]);
    assert_eq!(&call.envelope().parameters()[1][..], &[5, 0, 0, 0]);
    assert_eq!(parser.package_len(99), None);
}

#[test]
fn apply_refuses_what_is_no_chunk() {
    let mut parser = Parser::new();

    assert!(matches!(
        parser.apply(&[0; 15]),
        Err(RpcError::ChunkHeaderSizeConstraintViolation)
    ));
}

#[test]
fn apply_drops_a_call_that_is_no_envelope() {
    let mut parser = Parser::new();

    assert!(parser.apply(&datagram(5, 0, 2, b"AB")).unwrap().is_none());
    assert!(matches!(parser.apply(&datagram(5, 1, 2, b"CD")), Err(RpcError::Decode)));
    assert_eq!(parser.package_len(5), None);

    let envelope = add_envelope();
    let call = parser.apply(&datagram(5, 0, 1, &envelope)).unwrap().unwrap();
    assert_eq!(call.call_id(), 5);
}

#[test]
fn apply_passes_envelope_errors_on() {
    let mut parser = Parser::new();
    let mut envelope = add_envelope();
    envelope.push(0);
    assert!(matches!(
        parser.apply(&datagram(1, 0, 1, &envelope)),
        Err(RpcError::GarbageBytes)
    ));
    assert!(matches!(
        parser.apply(&datagram(2, 0, 1, &[1, 0, b'f', 17, 0])),
        Err(RpcError::MaxArgumentsConstraintViolation)
    ));
}

#[test]
fn apply_keeps_other_calls_when_one_fails() {
    let envelope = add_envelope();
    let (front, back) = envelope.split_at(7);
    let mut parser = Parser::new();

    assert!(parser.apply(&datagram(1, 0, 2, front)).unwrap().is_none());
    assert!(matches!(parser.apply(&datagram(2, 0, 1, b"junk")), Err(RpcError::Decode)));
    let call = parser.apply(&datagram(1, 1, 2, back)).unwrap().unwrap();

    assert_eq!(call.call_id(), 1);
    assert_eq!(&call.envelope().fn_name()[..], b"add");
}
