use noise_transport::error::NoiseError;
use noise_transport::handshake::{NoiseHandshake, NOISE_PROTOCOL};

fn private_key() -> Vec<u8> {
    let params: snow::params::NoiseParams = NOISE_PROTOCOL.parse().unwrap();
    snow::Builder::new(params).generate_keypair().unwrap().private
}

#[test]
fn short_key_is_refused() {
    assert!(matches!(NoiseHandshake::new(true, &[1u8; 31]), Err(NoiseError::InvalidKey)));
    assert!(matches!(NoiseHandshake::new(false, &[1u8; 33]), Err(NoiseError::InvalidKey)));
}

#[test]
fn turns_are_enforced() {
    let mut initiator = NoiseHandshake::new(true, &private_key()).unwrap();
    let mut responder = NoiseHandshake::new(false, &private_key()).unwrap();
    assert!(initiator.expects_write());
    assert!(responder.expects_read());
    assert!(matches!(responder.write_message(&[]), Err(NoiseError::HandshakeState)));
    assert!(matches!(initiator.read_message(&[0u8; 32]), Err(NoiseError::HandshakeState)));
    let m1 = initiator.write_message(&[]).unwrap();
    assert_eq!(m1.len(), 32);
    assert!(matches!(initiator.write_message(&[]), Err(NoiseError::HandshakeState)));
    responder.read_message(&m1).unwrap();
    assert!(!responder.is_complete());
}

#[test]
fn unfinished_handshake_does_not_open() {
    let initiator = NoiseHandshake::new(true, &private_key()).unwrap();
    assert!(!initiator.is_complete());
    assert!(matches!(initiator.into_noise(), Err(NoiseError::HandshakeState)));
}

#[test]
fn payloads_travel_in_handshake() {
    let mut initiator = NoiseHandshake::new(true, &private_key()).unwrap();
    let mut responder = NoiseHandshake::new(false, &private_key()).unwrap();
    let m1 = initiator.write_message(b"hi").unwrap();
    assert_eq!(responder.read_message(&m1).unwrap(), b"hi".to_vec());
    let m2 = responder.write_message(b"there").unwrap();
    assert_eq!(initiator.read_message(&m2).unwrap(), b"there".to_vec());
    let m3 = initiator.write_message(b"!").unwrap();
    assert_eq!(responder.read_message(&m3).unwrap(), b"!".to_vec());
    assert!(initiator.is_complete());
    assert!(responder.is_complete());
}

#[test]
fn tampered_handshake_message_fails() {
    let mut initiator = NoiseHandshake::new(true, &private_key()).unwrap();
    let mut responder = NoiseHandshake::new(false, &private_key()).unwrap();
    let m1 = initiator.write_message(&[]).unwrap();
    responder.read_message(&m1).unwrap();
    let mut m2 = responder.write_message(&[]).unwrap();
    let last = m2.len() - 1;
    m2[last] ^= 0x01;
    assert!(matches!(initiator.read_message(&m2), Err(NoiseError::HandshakeAuthentication)));
    assert!(initiator.expects_read());
}
