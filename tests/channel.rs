use noise_transport::error::NoiseError;
use noise_transport::handshake::{NoiseHandshake, NOISE_PROTOCOL};
use noise_transport::noise::Noise;

fn keypair() -> Vec<u8> {
    let params: snow::params::NoiseParams = NOISE_PROTOCOL.parse().unwrap();
    snow::Builder::new(params).generate_keypair().unwrap().private
}

fn handshake_pair() -> (NoiseHandshake, NoiseHandshake) {
    let mut initiator = NoiseHandshake::new(true, &keypair()).unwrap();
    let mut responder = NoiseHandshake::new(false, &keypair()).unwrap();
    let m1 = initiator.write_message(&[]).unwrap();
    responder.read_message(&m1).unwrap();
    let m2 = responder.write_message(&[]).unwrap();
    initiator.read_message(&m2).unwrap();
    let m3 = initiator.write_message(&[]).unwrap();
    responder.read_message(&m3).unwrap();
    (initiator, responder)
}

fn sessions() -> (Noise, Noise) {
    let (i, r) = handshake_pair();
    assert!(i.is_complete());
    assert!(r.is_complete());
    (i.into_noise().unwrap(), r.into_noise().unwrap())
}

fn drain_all(n: &mut Noise) -> Vec<u8> {
    let mut out = Vec::new();
    let mut buf = [0u8; 4096];
    loop {
        let k = n.write_out(&mut buf);
        if k == 0 {
            return out;
        }
        out.extend_from_slice(&buf[..k]);
    }
}

fn take_all(n: &mut Noise) -> Vec<u8> {
    let mut out = Vec::new();
    loop {
        let chunk = n.take_decrypted(1000);
        if chunk.is_empty() {
            return out;
        }
        out.extend_from_slice(&chunk);
    }
}

#[test]
fn ping_after_handshake() {
    let (mut a, mut b) = sessions();
    a.inject_outbound_data(b"ping").unwrap();
    let wire = drain_all(&mut a);
    b.inject_inbound_data(&wire).unwrap();
    assert_eq!(b.take_decrypted(100), b"ping".to_vec());
}

#[test]
fn ping_frame_layout() {
    let (mut a, _b) = sessions();
    a.inject_outbound_data(b"ping").unwrap();
    let wire = drain_all(&mut a);
    assert_eq!(wire.len(), 2 + 4 + 16);
    assert_eq!(&wire[..2], &[0u8, 20u8]);
    assert_ne!(&wire[2..6], b"ping");
}

#[test]
fn large_payload_byte_by_byte() {
    let (mut a, mut b) = sessions();
    let payload: Vec<u8> = (0..200000u32).map(|i| (i * 7 + 3) as u8).collect();
    a.inject_outbound_data(&payload).unwrap();
    let mut received = Vec::new();
    let mut one = [0u8; 1];
    loop {
        let k = a.write_out(&mut one);
        if k == 0 {
            break;
        }
        b.inject_inbound_data(&one).unwrap();
        received.extend_from_slice(&b.take_decrypted(7));
    }
    received.extend_from_slice(&take_all(&mut b));
    assert_eq!(received, payload);
}

#[test]
fn round_trip_largest_frame() {
    let (mut a, mut b) = sessions();
    let payload = vec![0xabu8; 65519];
    a.inject_outbound_data(&payload).unwrap();
    let wire = drain_all(&mut a);
    assert_eq!(wire.len(), 2 + 65535);
    assert_eq!(&wire[..2], &[0xffu8, 0xffu8]);
    b.inject_inbound_data(&wire).unwrap();
    assert_eq!(take_all(&mut b), payload);
}

#[test]
fn frames_per_write() {
    let (mut a, mut b) = sessions();
    let payload = vec![1u8; 65520];
    a.inject_outbound_data(&payload).unwrap();
    let wire = drain_all(&mut a);
    assert_eq!(wire.len(), 2 + 65535 + 2 + 17);
    assert_eq!(&wire[..2], &[0xffu8, 0xffu8]);
    assert_eq!(&wire[2 + 65535..2 + 65535 + 2], &[0u8, 17u8]);
    b.inject_inbound_data(&wire).unwrap();
    assert_eq!(take_all(&mut b), payload);
}

#[test]
fn empty_write_sends_nothing() {
    let (mut a, _b) = sessions();
    a.inject_outbound_data(&[]).unwrap();
    let mut buf = [0u8; 8];
    assert_eq!(a.write_out(&mut buf), 0);
}

#[test]
fn several_writes_arbitrary_chunks() {
    let (mut a, mut b) = sessions();
    a.inject_outbound_data(b"hello ").unwrap();
    a.inject_outbound_data(b"noise ").unwrap();
    a.inject_outbound_data(b"world").unwrap();
    let wire = drain_all(&mut a);
    for chunk in wire.chunks(3) {
        b.inject_inbound_data(chunk).unwrap();
    }
    assert_eq!(take_all(&mut b), b"hello noise world".to_vec());
}

#[test]
fn both_directions() {
    let (mut a, mut b) = sessions();
    b.inject_outbound_data(b"pong").unwrap();
    let wire = drain_all(&mut b);
    a.inject_inbound_data(&wire).unwrap();
    assert_eq!(a.take_decrypted(2), b"po".to_vec());
    assert_eq!(a.take_decrypted(10), b"ng".to_vec());
    assert_eq!(a.take_decrypted(10), Vec::<u8>::new());
}

#[test]
fn write_out_partial() {
    let (mut a, _b) = sessions();
    a.inject_outbound_data(b"ping").unwrap();
    let mut small = [9u8; 5];
    assert_eq!(a.write_out(&mut small), 5);
    assert_eq!(&small[..2], &[0u8, 20u8]);
    let mut big = [9u8; 64];
    assert_eq!(a.write_out(&mut big), 17);
    assert_eq!(big[17], 9u8);
}

#[test]
fn tampered_ciphertext_is_rejected() {
    let (mut a, mut b) = sessions();
    a.inject_outbound_data(b"ping").unwrap();
    let mut wire = drain_all(&mut a);
    wire[4] ^= 0x01;
    assert_eq!(b.inject_inbound_data(&wire), Err(NoiseError::AuthenticationFailed));
    assert_eq!(b.take_decrypted(100), Vec::<u8>::new());
    assert_eq!(b.inject_inbound_data(&[0u8]), Err(NoiseError::AuthenticationFailed));
}

#[test]
fn tampered_tag_is_rejected() {
    let (mut a, mut b) = sessions();
    a.inject_outbound_data(b"ping").unwrap();
    let mut wire = drain_all(&mut a);
    let last = wire.len() - 1;
    wire[last] ^= 0x80;
    assert_eq!(b.inject_inbound_data(&wire), Err(NoiseError::AuthenticationFailed));
}

#[test]
fn tampered_length_is_rejected() {
    let (mut a, mut b) = sessions();
    a.inject_outbound_data(b"ping").unwrap();
    let mut wire = drain_all(&mut a);
    wire[1] ^= 0x04;
    assert_eq!(b.inject_inbound_data(&wire), Err(NoiseError::AuthenticationFailed));
    assert_eq!(b.take_decrypted(100), Vec::<u8>::new());
}

#[test]
fn lengthened_prefix_delivers_nothing() {
    let (mut a, mut b) = sessions();
    a.inject_outbound_data(b"ping").unwrap();
    let mut wire = drain_all(&mut a);
    wire[0] ^= 0x80;
    assert_eq!(b.inject_inbound_data(&wire), Ok(()));
    assert_eq!(b.take_decrypted(100), Vec::<u8>::new());
}

#[test]
fn earlier_frames_survive_a_bad_one() {
    let (mut a, mut b) = sessions();
    a.inject_outbound_data(b"good").unwrap();
    a.inject_outbound_data(b"evil").unwrap();
    let mut wire = drain_all(&mut a);
    let last = wire.len() - 1;
    wire[last] ^= 0x01;
    assert_eq!(b.inject_inbound_data(&wire), Err(NoiseError::AuthenticationFailed));
    assert_eq!(b.take_decrypted(100), b"good".to_vec());
}

#[test]
fn replayed_frame_is_rejected() {
    let (mut a, mut b) = sessions();
    a.inject_outbound_data(b"once").unwrap();
    let wire = drain_all(&mut a);
    b.inject_inbound_data(&wire).unwrap();
    assert_eq!(b.inject_inbound_data(&wire), Err(NoiseError::AuthenticationFailed));
}

#[test]
fn same_plaintext_encrypts_differently() {
    let (mut a, _b) = sessions();
    a.inject_outbound_data(b"same").unwrap();
    let first = drain_all(&mut a);
    a.inject_outbound_data(b"same").unwrap();
    let second = drain_all(&mut a);
    assert_eq!(first.len(), second.len());
    assert_ne!(first, second);
}
