//! Varints, frames and codecs.

use relay6::api::codec::Codec;
use relay6::api::frame::{
    decode_plaintext, encode_plaintext, read_plaintext, read_plaintext_body, write_plaintext,
    RawMessage, MAX_PAYLOAD,
};
use relay6::api::proto::{message_name, HelloRequest, HelloResponse, PingRequest};
use relay6::api::varint::{encode, parse, read, Reader};
use relay6::api::Error;

#[test]
fn round_trip() {
    for v in [0u32, 1, 127, 128, 300, 16383, 16384, 0xffff, u32::MAX] {
        let mut buf = Vec::new();
        encode(v, &mut buf);
        let mut cur = Reader::new(buf.clone());
        assert_eq!(read(&mut cur).unwrap(), v, "value {v} bytes {buf:?}");
    }
    let mut buf = Vec::new();
    encode(300, &mut buf);
    assert_eq!(buf, vec![0xac, 0x02]);
}

#[test]
fn errors() {
    assert!(matches!(read(&mut Reader::new(vec![])), Err(Error::Closed)));
    assert!(matches!(read(&mut Reader::new(vec![0x80; 6])), Err(Error::Frame(_))));
}

#[test]
fn partial_and_complete() {
    assert_eq!(parse(&[]).unwrap(), None);
    assert_eq!(parse(&[0xac]).unwrap(), None);
    assert_eq!(parse(&[0xac, 0x02, 0xff]).unwrap(), Some((300, 2)));
    assert!(parse(&[0x80; 6]).is_err());
}

#[test]
fn every_prefix_of_a_varint_asks_for_more() {
    for v in [0u32, 127, 128, 300, 1 << 21, u32::MAX] {
        let mut buf = Vec::new();
        encode(v, &mut buf);
        for n in 0..buf.len() {
            assert_eq!(parse(&buf[..n]).unwrap(), None);
        }
        assert_eq!(parse(&buf).unwrap(), Some((v, buf.len())));
    }
}

#[test]
fn encodes_hello_frame() {
    let hello = HelloRequest { client_info: "test".into(), api_version_major: 1, api_version_minor: 10 };
    let raw = RawMessage::encode(&hello);
    assert_eq!(raw.id, 1);
    let bytes = encode_plaintext(&raw);
    assert_eq!(bytes[0], 0x00);
    assert_eq!(bytes[1] as usize, raw.payload.len());
    assert_eq!(bytes[2], 1);
    let back = read_plaintext(&mut Reader::new(bytes)).unwrap();
    assert_eq!(back, raw);
    assert_eq!(back.decode::<HelloRequest>().unwrap(), hello);
}

#[test]
fn multi_frame_stream_and_ids() {
    let a = RawMessage::encode(&HelloResponse { api_version_major: 1, api_version_minor: 10, server_info: "x".into(), name: "n".into() });
    let b = RawMessage::encode(&PingRequest {});
    assert_eq!(b.id, 7);
    assert!(b.payload.is_empty());
    let mut stream = encode_plaintext(&a);
    stream.extend(encode_plaintext(&b));
    let mut cur = Reader::new(stream);
    assert_eq!(read_plaintext(&mut cur).unwrap(), a);
    assert_eq!(read_plaintext(&mut cur).unwrap(), b);
    assert!(matches!(read_plaintext(&mut cur), Err(Error::Closed)));
    assert_eq!(message_name(2), "HelloResponse");
    assert_eq!(message_name(9999), "unknown");
}

#[test]
fn rejects_noise_indicator_and_oversize() {
    assert!(matches!(read_plaintext(&mut Reader::new(vec![0x01, 0, 0])), Err(Error::Frame(_))));
    let mut big = vec![0x00];
    encode(MAX_PAYLOAD + 1, &mut big);
    encode(1, &mut big);
    assert!(matches!(read_plaintext(&mut Reader::new(big)), Err(Error::Frame(_))));
}

#[test]
fn bodies_and_buffers_agree_with_streams() {
    let msg = RawMessage { id: 300, payload: vec![9; 200] };
    let mut wire = vec![0xaa];
    write_plaintext(&mut wire, &msg);
    assert_eq!(wire[1..], encode_plaintext(&msg)[..]);
    let mut body = Reader::new(wire[2..].to_vec());
    assert_eq!(read_plaintext_body(&mut body).unwrap(), msg);
    let mut buf = wire[1..].to_vec();
    buf.push(0x55);
    assert_eq!(decode_plaintext(&mut buf).unwrap(), Some(msg));
    assert_eq!(buf, vec![0x55]);
}

#[test]
fn decodes_incrementally() {
    let msg = RawMessage::encode(&HelloRequest { client_info: "abc".into(), api_version_major: 1, api_version_minor: 10 });
    let wire = encode_plaintext(&msg);
    let mut codec = Codec::Plaintext;
    let mut buf = Vec::new();
    for (i, b) in wire.iter().enumerate() {
        buf.push(*b);
        let got = codec.decode(&mut buf).unwrap();
        if i + 1 < wire.len() {
            assert!(got.is_none(), "should wait for more at byte {i}");
        } else {
            assert_eq!(got.unwrap(), msg);
            assert!(buf.is_empty());
        }
    }
    // Two frames back to back, second partially present.
    buf.extend(&wire);
    buf.extend(&wire[..3]);
    assert_eq!(codec.decode(&mut buf).unwrap().unwrap(), msg);
    assert!(codec.decode(&mut buf).unwrap().is_none());
    assert_eq!(buf.len(), 3);
}

#[test]
fn plaintext_rejects_noise_client() {
    let mut buf = vec![0x01, 0x00, 0x00];
    assert!(matches!(Codec::Plaintext.decode(&mut buf), Err(Error::Frame(_))));
}

#[test]
fn malformed_messages_are_not_decoded() {
    let raw = RawMessage { id: 1, payload: vec![0x0a, 0x05, b'x'] };
    assert!(matches!(raw.decode::<HelloRequest>(), Err(Error::Decode(_))));
}
