//! The encrypted transport, against a client made with the same crates.

use noise_protocol::patterns::noise_nn_psk0;
use noise_protocol::{HandshakeState, HandshakeStateBuilder};
use noise_rust_crypto::{ChaCha20Poly1305, Sha256, X25519};
use relay6::api::codec::Codec;
use relay6::api::frame::RawMessage;
use relay6::api::noise::{
    generate_psk_b64, key_from_decoded, parse_psk, psk_b64, NoiseCodec, MAX_PAYLOAD, REJECT_MAC_FAILURE,
};
use relay6::api::proto::HelloRequest;
use relay6::api::Error;

type Hs = HandshakeState<X25519, ChaCha20Poly1305, Sha256>;

fn client_hs(psk: &[u8; 32]) -> Hs {
    let mut b = HandshakeStateBuilder::<X25519>::new();
    b.set_pattern(noise_nn_psk0()).set_is_initiator(true).set_prologue(b"NoiseAPIInit\x00\x00");
    let mut hs: Hs = b.build_handshake_state();
    hs.push_psk(psk);
    hs
}

#[test]
fn full_handshake_and_data_round_trip() {
    let psk = parse_psk(&generate_psk_b64()).unwrap();
    let mut server = NoiseCodec::new(psk, "relay6-test", "1051DB47ABB0");
    let mut client = client_hs(&psk);
    let mut buf = Vec::new();

    // 1. client hello (empty) + 3. client handshake msg 1, in one write like aioesphomeapi.
    buf.extend_from_slice(&[0x01, 0x00, 0x00]);
    let msg1 = client.write_message_vec(&[]).unwrap();
    let mut f = vec![0x00];
    f.extend(&msg1);
    buf.extend(NoiseCodec::frame(&f));

    assert!(server.decode(&mut buf).unwrap().is_none());
    assert!(server.ready());
    let pending = server.take_pending();
    assert_eq!(pending.len(), 2);
    // 2. server hello
    let hello = &pending[0];
    assert_eq!(hello[0], 0x01);
    let body = &hello[3..];
    assert_eq!(body[0], 0x01);
    assert_eq!(&body[1..], b"relay6-test\x001051db47abb0\x00");
    // 4. server handshake msg 2
    let hs2 = &pending[1];
    assert_eq!(hs2[3], 0x00);
    client.read_message_vec(&hs2[4..]).unwrap();
    assert!(client.completed());
    let (mut c_send, mut c_recv) = client.get_ciphers();

    // Data: client -> server
    let req = RawMessage::encode(&HelloRequest { client_info: "c".into(), api_version_major: 1, api_version_minor: 16 });
    let mut pt = (req.id as u16).to_be_bytes().to_vec();
    pt.extend((req.payload.len() as u16).to_be_bytes());
    pt.extend(&req.payload);
    let ct = c_send.encrypt_vec(&pt);
    buf.extend(NoiseCodec::frame(&ct));
    let got = server.decode(&mut buf).unwrap().unwrap();
    assert_eq!(got, req);

    // Data: server -> client
    let resp = RawMessage { id: 2, payload: vec![1, 2, 3] };
    let wire = server.encode(&resp).unwrap();
    assert_eq!(wire[0], 0x01);
    let pt = c_recv.decrypt_vec(&wire[3..]).unwrap();
    assert_eq!(&pt[..4], &[0, 2, 0, 3]);
    assert_eq!(&pt[4..], &[1, 2, 3]);
}

#[test]
fn what_one_side_encodes_the_other_decodes() {
    let psk = [7; 32];
    let mut server = NoiseCodec::new(psk, "relay6-test", "1051DB47ABB0");
    let mut client = client_hs(&psk);
    let mut f = vec![0x00];
    f.extend(&client.write_message_vec(&[]).unwrap());
    let mut buf = vec![0x01, 0x00, 0x00];
    buf.extend(NoiseCodec::frame(&f));
    server.decode(&mut buf).unwrap();
    client.read_message_vec(&server.take_pending()[1][4..]).unwrap();
    let (mut c_send, mut c_recv) = client.get_ciphers();
    for (id, len) in [(2u32, 0usize), (65535, 1), (7, 300), (7, 32748)] {
        let msg = RawMessage { id, payload: vec![9; len] };
        let wire = server.encode(&msg).unwrap();
        assert_eq!(wire.len(), len + 23);
        assert_eq!((wire[0], u16::from_be_bytes([wire[1], wire[2]]) as usize), (0x01, len + 20));
        // Sent back under the other key, the same message comes out, and what follows it stays.
        let plain = c_recv.decrypt_vec(&wire[3..]).unwrap();
        let mut back = NoiseCodec::frame(&c_send.encrypt_vec(&plain));
        back.extend([0x01, 0xff]);
        assert_eq!(server.decode(&mut back).unwrap().unwrap(), msg);
        assert_eq!(back, vec![0x01, 0xff]);
    }
    // One byte more is more than a receiver takes.
    let wire = server.encode(&RawMessage { id: 7, payload: vec![9; 32749] }).unwrap();
    let plain = c_recv.decrypt_vec(&wire[3..]).unwrap();
    let mut back = NoiseCodec::frame(&c_send.encrypt_vec(&plain));
    assert!(server.decode(&mut back).is_err());
}

#[test]
fn messages_that_no_frame_holds_are_refused() {
    let psk = parse_psk(&generate_psk_b64()).unwrap();
    let mut server = NoiseCodec::new(psk, "relay6-test", "1051DB47ABB0");
    let mut f = vec![0x00];
    f.extend(&client_hs(&psk).write_message_vec(&[]).unwrap());
    let mut buf = vec![0x01, 0x00, 0x00];
    buf.extend(NoiseCodec::frame(&f));
    server.decode(&mut buf).unwrap();
    let wire = server.encode(&RawMessage { id: 7, payload: vec![0; MAX_PAYLOAD] }).unwrap();
    assert_eq!((wire.len(), &wire[..3]), (3 + 65535, &[0x01, 0xff, 0xff][..]));
    let large = server.encode(&RawMessage { id: 7, payload: vec![0; MAX_PAYLOAD + 1] });
    assert!(matches!(large, Err(Error::Frame("message too large for noise frame"))));
}

#[test]
fn wrong_psk_gets_exact_reject_text() {
    let good = parse_psk(&generate_psk_b64()).unwrap();
    let bad = parse_psk(&generate_psk_b64()).unwrap();
    let mut server = NoiseCodec::new(good, "n", "000000000000");
    let mut client = client_hs(&bad);
    let mut buf = vec![0x01, 0x00, 0x00];
    let mut f = vec![0x00];
    f.extend(client.write_message_vec(&[]).unwrap());
    buf.extend(NoiseCodec::frame(&f));
    assert!(matches!(server.decode(&mut buf), Err(Error::Handshake(_))));
    let pending = server.take_pending();
    let reject = &pending[1];
    assert_eq!(reject[3], 0x01);
    assert_eq!(&reject[4..], REJECT_MAC_FAILURE.as_bytes());
    // A rejection is final.
    assert!(matches!(server.decode(&mut buf), Err(Error::Handshake(_))));
    assert!(matches!(server.encode(&RawMessage { id: 7, payload: vec![] }), Err(Error::Handshake(_))));
}

#[test]
fn plaintext_client_is_told_to_encrypt() {
    let mut server = NoiseCodec::new([0u8; 32], "n", "000000000000");
    let mut buf = vec![0x00, 0x05, 0x01, 1, 2, 3, 4, 5];
    assert!(server.decode(&mut buf).is_err());
    let p = server.take_pending();
    assert_eq!(&p[0][4..], b"Bad indicator byte");
}

#[test]
fn a_rejection_is_final() {
    let mut server = NoiseCodec::new([0u8; 32], "n", "000000000000");
    assert!(server.decode(&mut vec![0x00, 0x05, 0x01]).is_err());
    for _ in 0..2 {
        let e = server.decode(&mut vec![0x01, 0, 0]).unwrap_err();
        assert!(matches!(e, Error::Handshake(s) if s == "connection rejected"));
        assert!(server.encode(&RawMessage { id: 7, payload: vec![] }).is_err());
    }
}

#[test]
fn psk_parsing() {
    assert!(parse_psk("MDAwMDAwMDAwMDAwMDAwMDAwMDAwMDAwMDAwMDAwMDA=").is_ok());
    assert!(parse_psk("short").is_err());
    assert_eq!(generate_psk_b64().len(), 44);
}

#[test]
fn keys_survive_their_text() {
    let mut key = [0u8; 32];
    for (i, b) in key.iter_mut().enumerate() {
        *b = (i * 7 + 3) as u8;
    }
    assert_eq!(parse_psk(&psk_b64(key)), Ok(key));
    assert_eq!(parse_psk(&format!("  {}\n", psk_b64(key))), Ok(key));
    assert_eq!(psk_b64([b'0'; 32]), "MDAwMDAwMDAwMDAwMDAwMDAwMDAwMDAwMDAwMDAwMDA=");
    assert_ne!(generate_psk_b64(), generate_psk_b64());
}

#[test]
fn keys_of_other_lengths_are_refused() {
    assert_eq!(parse_psk("MDAw").unwrap_err(), "key must decode to 32 bytes, got 3");
    assert_eq!(key_from_decoded(Ok(vec![1; 33])).unwrap_err(), "key must decode to 32 bytes, got 33");
    assert_eq!(key_from_decoded(Err("why".to_string())).unwrap_err(), "invalid base64: why");
    assert_eq!(key_from_decoded(Ok(vec![5; 32])).unwrap(), [5; 32]);
}

#[test]
fn a_codec_drawn_from_a_secret_answers_the_same_way() {
    let psk = [9u8; 32];
    let mut client = client_hs(&psk);
    let mut f = vec![0x00];
    f.extend(client.write_message_vec(&[]).unwrap());
    let mut wire = vec![0x01, 0x00, 0x00];
    wire.extend(NoiseCodec::frame(&f));
    let mut a = NoiseCodec::with_secret(psk, "n", "aabbccddeeff", [42; 32]);
    let mut b = NoiseCodec::with_secret(psk, "n", "aabbccddeeff", [42; 32]);
    let (mut x, mut y) = (wire.clone(), wire);
    assert!(a.decode(&mut x).unwrap().is_none());
    assert!(b.decode(&mut y).unwrap().is_none());
    assert_eq!(a.take_pending(), b.take_pending());
}

#[test]
fn nothing_is_sent_before_the_handshake() {
    let mut codec = Codec::Noise(Box::new(NoiseCodec::new([1; 32], "n", "000000000000")));
    assert!(!codec.ready());
    let mut buf = vec![0x01, 0x00];
    assert!(codec.decode(&mut buf).unwrap().is_none());
    assert_eq!(buf.len(), 2);
    assert!(codec.encode(&RawMessage { id: 7, payload: vec![] }).is_err());
    assert!(codec.take_pending().is_empty());
}

#[test]
fn tampered_data_is_refused() {
    let psk = [3u8; 32];
    let mut server = NoiseCodec::new(psk, "n", "000000000000");
    let mut client = client_hs(&psk);
    let mut buf = vec![0x01, 0x00, 0x00];
    let mut f = vec![0x00];
    f.extend(client.write_message_vec(&[]).unwrap());
    buf.extend(NoiseCodec::frame(&f));
    assert!(server.decode(&mut buf).unwrap().is_none());
    let pending = server.take_pending();
    client.read_message_vec(&pending[1][4..]).unwrap();
    let (mut c_send, _) = client.get_ciphers();
    let mut ct = c_send.encrypt_vec(&[0, 7, 0, 0]);
    ct[0] ^= 1;
    buf.extend(NoiseCodec::frame(&ct));
    assert!(server.decode(&mut buf).is_err());
}
