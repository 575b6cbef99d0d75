use vstd::prelude::*;

verus! {

/// Why an operation of the encrypted channel failed. Every one of them ends the session.
#[derive(Debug, Clone, Copy, PartialEq, Eq, Structural)]
pub enum NoiseError {
    /// A handshake message was sent or read out of turn, or the handshake refused the call.
    HandshakeState,
    /// A handshake message did not authenticate.
    HandshakeAuthentication,
    /// A transport frame did not authenticate.
    AuthenticationFailed,
    /// The nonce counter of a direction has run out.
    NonceExhausted,
    /// A plaintext too long for one frame, or a ciphertext longer than a frame can be.
    PayloadTooLarge,
    /// A static private key of the wrong length for the curve.
    InvalidKey,
}

} // verus!
