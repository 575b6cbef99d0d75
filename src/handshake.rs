use vstd::prelude::*;
use snow::params::NoiseParams;
use snow::{HandshakeState, StatelessTransportState};
use crate::cipher::zeroed;
use crate::error::NoiseError;
use crate::frame::MAX_FRAME_LEN;
use crate::noise::Noise;

verus! {

/// snow's handshake state machine; opaque here.
#[verifier::external_type_specification]
#[verifier::external_body]
pub struct ExHandshakeState(snow::HandshakeState);

/// snow's parsed protocol name; opaque here.
#[verifier::external_type_specification]
#[verifier::external_body]
pub struct ExNoiseParams(snow::params::NoiseParams);

/// The protocol that both sides agree on: the XX pattern over Curve25519,
/// ChaCha20-Poly1305 and SHA-256.
pub const NOISE_PROTOCOL: &'static str = "Noise_XX_25519_ChaChaPoly_SHA256";

/// Length of a Curve25519 static private key.
pub const STATIC_KEY_LEN: usize = 32;

/// Number of messages in the XX pattern.
pub const HANDSHAKE_MESSAGES: u8 = 3;

/// Relies on snow's `FromStr` for `NoiseParams`: parses a protocol name.
#[verifier::external_body]
fn parse_params(name: &str) -> (r: Result<NoiseParams, snow::Error>) {
    name.parse()
}

/// Relies on snow's `Builder::local_private_key` and `build_initiator`: a handshake
/// in the initiator role. The key is copied into a 32-byte array, which a longer
/// key would overrun.
#[verifier::external_body]
fn build_initiator(params: NoiseParams, key: &[u8]) -> (r: Result<HandshakeState, snow::Error>)
    requires
        key@.len() <= STATIC_KEY_LEN,
{
    snow::Builder::new(params).local_private_key(key).build_initiator()
}

/// Relies on snow's `Builder::local_private_key` and `build_responder`: a handshake
/// in the responder role. The key is copied into a 32-byte array, which a longer
/// key would overrun.
#[verifier::external_body]
fn build_responder(params: NoiseParams, key: &[u8]) -> (r: Result<HandshakeState, snow::Error>)
    requires
        key@.len() <= STATIC_KEY_LEN,
{
    snow::Builder::new(params).local_private_key(key).build_responder()
}

/// Relies on snow's `HandshakeState::write_message`: on success the message fills
/// the front of `out`, and its length, at most `out`'s, is returned. Room for a
/// whole message is required: a static key's tag is copied without a room check.
#[verifier::external_body]
fn handshake_write(h: &mut HandshakeState, payload: &[u8], out: &mut [u8]) -> (r: Result<
    usize,
    snow::Error,
>)
    requires
        old(out)@.len() >= MAX_FRAME_LEN,
    ensures
        final(out)@.len() == old(out)@.len(),
        r matches Ok(n) ==> n <= old(out)@.len(),
{
    h.write_message(payload, out)
}

/// Relies on snow's `HandshakeState::read_message`: on success the embedded
/// payload fills the front of `out`, and its length, at most `out`'s, is returned.
#[verifier::external_body]
fn handshake_read(h: &mut HandshakeState, message: &[u8], out: &mut [u8]) -> (r: Result<
    usize,
    snow::Error,
>)
    ensures
        final(out)@.len() == old(out)@.len(),
        r matches Ok(n) ==> n <= old(out)@.len(),
{
    h.read_message(message, out)
}

/// Relies on snow's `HandshakeState::into_stateless_transport_mode`: the transport
/// keys of a finished handshake.
#[verifier::external_body]
fn into_transport(h: HandshakeState) -> (r: Result<StatelessTransportState, snow::Error>) {
    h.into_stateless_transport_mode()
}

/// Whether the side in the given role sends the message at `position`: the
/// initiator sends the first and the third, the responder the second.
pub open spec fn sends_at(initiator: bool, position: nat) -> bool {
    position < HANDSHAKE_MESSAGES && (initiator <==> position % 2 == 0)
}

/// Whether the side in the given role reads the message at `position`.
pub open spec fn reads_at(initiator: bool, position: nat) -> bool {
    position < HANDSHAKE_MESSAGES && !(initiator <==> position % 2 == 0)
}

/// The key exchange that opens a channel: three messages, initiator to responder,
/// responder to initiator, initiator to responder.
pub struct NoiseHandshake {
    state: HandshakeState,
    initiator: bool,
    position: u8,
}

impl NoiseHandshake {
    /// Whether this side started the exchange.
    pub closed spec fn is_initiator(&self) -> bool {
        self.initiator
    }

    /// How many of the three messages have been sent or read.
    pub closed spec fn position(&self) -> nat {
        self.position as nat
    }

    pub closed spec fn wf(&self) -> bool {
        self.position <= HANDSHAKE_MESSAGES
    }

    /// Starts a handshake in the given role with a static private key.
    pub fn new(initiator: bool, local_static_key: &[u8]) -> (r: Result<NoiseHandshake, NoiseError>)
        ensures
            local_static_key@.len() != STATIC_KEY_LEN <==> r == Err::<NoiseHandshake, NoiseError>(
                NoiseError::InvalidKey,
            ),
            r matches Err(e) ==> (e == NoiseError::InvalidKey || e == NoiseError::HandshakeState),
            r matches Ok(h) ==> h.wf() && h.is_initiator() == initiator && h.position() == 0,
    {
        if local_static_key.len() != STATIC_KEY_LEN {
            return Err(NoiseError::InvalidKey);
        }
        let params = match parse_params(NOISE_PROTOCOL) {
            Ok(p) => p,
            Err(_) => {
                return Err(NoiseError::HandshakeState);
            },
        };
        let built = if initiator {
            build_initiator(params, local_static_key)
        } else {
            build_responder(params, local_static_key)
        };
        match built {
            Ok(state) => Ok(NoiseHandshake { state, initiator, position: 0 }),
            Err(_) => Err(NoiseError::HandshakeState),
        }
    }

    /// Whether all three messages have gone through.
    pub fn is_complete(&self) -> (r: bool)
        ensures
            r == (self.position() == HANDSHAKE_MESSAGES),
    {
        self.position == HANDSHAKE_MESSAGES
    }

    /// Whether the next step of this side is to send a message.
    pub fn expects_write(&self) -> (r: bool)
        ensures
            r == sends_at(self.is_initiator(), self.position()),
    {
        self.position < HANDSHAKE_MESSAGES && (self.initiator == (self.position % 2 == 0))
    }

    /// Whether the next step of this side is to read a message.
    pub fn expects_read(&self) -> (r: bool)
        ensures
            r == reads_at(self.is_initiator(), self.position()),
    {
        self.position < HANDSHAKE_MESSAGES && (self.initiator != (self.position % 2 == 0))
    }

    /// Produces the next outgoing handshake message, with `payload` embedded in it.
    pub fn write_message(&mut self, payload: &[u8]) -> (r: Result<Vec<u8>, NoiseError>)
        requires
            old(self).wf(),
        ensures
            final(self).wf(),
            final(self).is_initiator() == old(self).is_initiator(),
            !sends_at(old(self).is_initiator(), old(self).position()) ==> r == Err::<
                Vec<u8>,
                NoiseError,
            >(NoiseError::HandshakeState),
            r matches Err(e) ==> e == NoiseError::HandshakeState && final(self).position() == old(
                self,
            ).position(),
            r matches Ok(m) ==> {
                &&& sends_at(old(self).is_initiator(), old(self).position())
                &&& final(self).position() == old(self).position() + 1
                &&& m@.len() <= MAX_FRAME_LEN
            },
    {
        if !self.expects_write() {
            return Err(NoiseError::HandshakeState);
        }
        let mut out = zeroed(MAX_FRAME_LEN);
        match handshake_write(&mut self.state, payload, out.as_mut_slice()) {
            Ok(n) => {
                out.truncate(n);
                self.position = self.position + 1;
                Ok(out)
            },
            Err(_) => Err(NoiseError::HandshakeState),
        }
    }

    /// Consumes an incoming handshake message and returns the payload embedded in it.
    pub fn read_message(&mut self, message: &[u8]) -> (r: Result<Vec<u8>, NoiseError>)
        requires
            old(self).wf(),
        ensures
            final(self).wf(),
            final(self).is_initiator() == old(self).is_initiator(),
            !reads_at(old(self).is_initiator(), old(self).position()) <==> r == Err::<
                Vec<u8>,
                NoiseError,
            >(NoiseError::HandshakeState),
            r matches Err(e) ==> final(self).position() == old(self).position() && (e
                == NoiseError::HandshakeState || e == NoiseError::HandshakeAuthentication),
            r matches Ok(p) ==> {
                &&& reads_at(old(self).is_initiator(), old(self).position())
                &&& final(self).position() == old(self).position() + 1
                &&& p@.len() <= message@.len()
            },
    {
        if !self.expects_read() {
            return Err(NoiseError::HandshakeState);
        }
        let mut out = zeroed(message.len());
        match handshake_read(&mut self.state, message, out.as_mut_slice()) {
            Ok(n) => {
                out.truncate(n);
                self.position = self.position + 1;
                Ok(out)
            },
            Err(_) => Err(NoiseError::HandshakeAuthentication),
        }
    }

    /// Ends a finished handshake and opens the encrypted channel over the keys it agreed on.
    pub fn into_noise(self) -> (r: Result<Noise, NoiseError>)
        ensures
            self.position() != HANDSHAKE_MESSAGES ==> r == Err::<Noise, NoiseError>(
                NoiseError::HandshakeState,
            ),
            r matches Err(e) ==> e == NoiseError::HandshakeState,
            r matches Ok(n) ==> {
                &&& n.wf()
                &&& !n.is_failed()
                &&& n.fed_bytes() == Seq::<u8>::empty()
                &&& n.decrypted() == Seq::<u8>::empty()
                &&& n.pending_out() == Seq::<u8>::empty()
                &&& n.frames_sent() == Seq::<Seq<u8>>::empty()
                &&& n.sending_nonce() == 0
            },
    {
        if self.position != HANDSHAKE_MESSAGES {
            return Err(NoiseError::HandshakeState);
        }
        match into_transport(self.state) {
            Ok(t) => Ok(Noise::new(t)),
            Err(_) => Err(NoiseError::HandshakeState),
        }
    }
}

} // verus!
