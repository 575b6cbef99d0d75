use vstd::prelude::*;
use snow::StatelessTransportState;
use crate::error::NoiseError;
use crate::frame::{MAX_FRAME_LEN, MAX_PLAINTEXT_LEN, TAG_LEN};

verus! {

/// snow's transport keys of a finished handshake, used with explicit nonces; opaque here.
#[verifier::external_type_specification]
#[verifier::external_body]
pub struct ExStatelessTransportState(snow::StatelessTransportState);

/// snow's error type, only ever mapped to `NoiseError`; opaque here.
#[verifier::external_type_specification]
#[verifier::external_body]
pub struct ExSnowError(snow::Error);

/// Relies on snow's `StatelessTransportState::write_message`: on success the
/// ciphertext, tag included, fills the front of `out` and its length is returned.
#[verifier::external_body]
fn seal(t: &StatelessTransportState, nonce: u64, payload: &[u8], out: &mut [u8]) -> (r: Result<
    usize,
    snow::Error,
>)
    ensures
        final(out)@.len() == old(out)@.len(),
        r matches Ok(n) ==> n == payload@.len() + TAG_LEN,
{
    t.write_message(nonce, payload, out)
}

/// Relies on snow's `StatelessTransportState::read_message`: on success the
/// plaintext fills the front of `out` and its length, the ciphertext's less the
/// tag, is returned.
#[verifier::external_body]
fn open(t: &StatelessTransportState, nonce: u64, payload: &[u8], out: &mut [u8]) -> (r: Result<
    usize,
    snow::Error,
>)
    ensures
        final(out)@.len() == old(out)@.len(),
        r matches Ok(n) ==> n + TAG_LEN == payload@.len(),
{
    t.read_message(nonce, payload, out)
}

/// A zero-filled buffer of `n` bytes.
pub fn zeroed(n: usize) -> (r: Vec<u8>)
    ensures
        r@ == Seq::new(n as nat, |i: int| 0u8),
{
    let mut r: Vec<u8> = Vec::with_capacity(n);
    let mut i: usize = 0;
    while i < n
        invariant
            i <= n,
            r@ == Seq::new(i as nat, |j: int| 0u8),
        decreases n - i,
    {
        r.push(0u8);
        i = i + 1;
        assert(r@ =~= Seq::new(i as nat, |j: int| 0u8));
    }
    r
}

/// Both directions of an established channel: the keys that the handshake agreed
/// on, and for each direction the counter from which the next nonce is taken.
pub struct CipherSession {
    transport: StatelessTransportState,
    send_nonce: u64,
    recv_nonce: u64,
    used_send: Ghost<Seq<u64>>,
    sealed: Ghost<Seq<Seq<u8>>>,
    opened: Ghost<Seq<Seq<u8>>>,
}

impl CipherSession {
    /// The nonce that the next encryption will use.
    pub closed spec fn sending_nonce(&self) -> u64 {
        self.send_nonce
    }

    /// The nonce that the next decryption will use.
    pub closed spec fn receiving_nonce(&self) -> u64 {
        self.recv_nonce
    }

    /// The nonces of all successful encryptions so far, in order.
    pub closed spec fn used_sending_nonces(&self) -> Seq<u64> {
        self.used_send@
    }

    /// The plaintexts of all successful encryptions so far, in order.
    pub closed spec fn sealed_plaintexts(&self) -> Seq<Seq<u8>> {
        self.sealed@
    }

    /// The plaintexts that all successful decryptions so far returned, in order.
    pub closed spec fn opened_plaintexts(&self) -> Seq<Seq<u8>> {
        self.opened@
    }

    /// Nonces already used grow strictly and all stand below the next one.
    pub closed spec fn wf(&self) -> bool {
        &&& forall|i: int, j: int|
            0 <= i < j < self.used_send@.len() ==> self.used_send@[i] < self.used_send@[j]
        &&& forall|i: int| 0 <= i < self.used_send@.len() ==> self.used_send@[i] < self.send_nonce
        &&& self.sealed@.len() == self.used_send@.len()
    }

    /// The nonce that the next encryption will use.
    pub fn send_nonce(&self) -> (r: u64)
        ensures
            r == self.sending_nonce(),
    {
        self.send_nonce
    }

    /// A session over keys that a finished handshake produced; both counters start at zero.
    pub fn new(transport: StatelessTransportState) -> (r: CipherSession)
        ensures
            r.wf(),
            r.sending_nonce() == 0,
            r.receiving_nonce() == 0,
            r.used_sending_nonces() == Seq::<u64>::empty(),
            r.sealed_plaintexts() == Seq::<Seq<u8>>::empty(),
            r.opened_plaintexts() == Seq::<Seq<u8>>::empty(),
    {
        CipherSession {
            transport,
            send_nonce: 0,
            recv_nonce: 0,
            used_send: Ghost(Seq::empty()),
            sealed: Ghost(Seq::empty()),
            opened: Ghost(Seq::empty()),
        }
    }

    /// Encrypts one frame's plaintext under the next sending nonce.
    pub fn encrypt(&mut self, plaintext: &[u8]) -> (r: Result<Vec<u8>, NoiseError>)
        requires
            old(self).wf(),
        ensures
            final(self).wf(),
            final(self).receiving_nonce() == old(self).receiving_nonce(),
            old(self).sending_nonce() == u64::MAX ==> r == Err::<Vec<u8>, NoiseError>(
                NoiseError::NonceExhausted,
            ),
            old(self).sending_nonce() < u64::MAX && plaintext@.len() > MAX_PLAINTEXT_LEN ==> r
                == Err::<Vec<u8>, NoiseError>(NoiseError::PayloadTooLarge),
            r is Err ==> *final(self) == *old(self),
            r == Err::<Vec<u8>, NoiseError>(NoiseError::NonceExhausted) ==> old(self).sending_nonce()
                == u64::MAX,
            r == Err::<Vec<u8>, NoiseError>(NoiseError::PayloadTooLarge) ==> plaintext@.len()
                > MAX_PLAINTEXT_LEN,
            r matches Err(e) ==> (e == NoiseError::HandshakeState || e
                == NoiseError::NonceExhausted || e == NoiseError::PayloadTooLarge),
            r matches Ok(c) ==> {
                &&& c@.len() == plaintext@.len() + TAG_LEN
                &&& old(self).sending_nonce() < u64::MAX
                &&& final(self).sending_nonce() == old(self).sending_nonce() + 1
                &&& final(self).used_sending_nonces() == old(self).used_sending_nonces().push(
                    old(self).sending_nonce(),
                )
                &&& final(self).sealed_plaintexts() == old(self).sealed_plaintexts().push(
                    plaintext@,
                )
            },
            final(self).opened_plaintexts() == old(self).opened_plaintexts(),
    {
        if self.send_nonce == u64::MAX {
            return Err(NoiseError::NonceExhausted);
        }
        if plaintext.len() > MAX_PLAINTEXT_LEN {
            return Err(NoiseError::PayloadTooLarge);
        }
        let mut out = zeroed(plaintext.len() + TAG_LEN);
        match seal(&self.transport, self.send_nonce, plaintext, out.as_mut_slice()) {
            Ok(_) => {
                let ghost prev = self.used_send@;
                self.used_send = Ghost(prev.push(self.send_nonce as u64));
                let ghost sealed = self.sealed@;
                self.sealed = Ghost(sealed.push(plaintext@));
                self.send_nonce = self.send_nonce + 1;
                Ok(out)
            },
            Err(_) => Err(NoiseError::HandshakeState),
        }
    }

    /// Decrypts one frame's ciphertext under the next receiving nonce.
    pub fn decrypt(&mut self, ciphertext: &[u8]) -> (r: Result<Vec<u8>, NoiseError>)
        requires
            old(self).wf(),
        ensures
            final(self).wf(),
            final(self).sending_nonce() == old(self).sending_nonce(),
            final(self).used_sending_nonces() == old(self).used_sending_nonces(),
            final(self).sealed_plaintexts() == old(self).sealed_plaintexts(),
            old(self).receiving_nonce() == u64::MAX ==> r == Err::<Vec<u8>, NoiseError>(
                NoiseError::NonceExhausted,
            ),
            old(self).receiving_nonce() < u64::MAX && ciphertext@.len() > MAX_FRAME_LEN ==> r
                == Err::<Vec<u8>, NoiseError>(NoiseError::PayloadTooLarge),
            old(self).receiving_nonce() < u64::MAX && ciphertext@.len() < TAG_LEN ==> r
                == Err::<Vec<u8>, NoiseError>(NoiseError::AuthenticationFailed),
            r is Err ==> *final(self) == *old(self),
            r == Err::<Vec<u8>, NoiseError>(NoiseError::NonceExhausted) ==> old(self).receiving_nonce()
                == u64::MAX,
            r == Err::<Vec<u8>, NoiseError>(NoiseError::PayloadTooLarge) ==> ciphertext@.len()
                > MAX_FRAME_LEN,
            r matches Err(e) ==> (e == NoiseError::AuthenticationFailed || e
                == NoiseError::NonceExhausted || e == NoiseError::PayloadTooLarge),
            r matches Ok(p) ==> {
                &&& p@.len() + TAG_LEN == ciphertext@.len()
                &&& old(self).receiving_nonce() < u64::MAX
                &&& final(self).receiving_nonce() == old(self).receiving_nonce() + 1
                &&& final(self).opened_plaintexts() == old(self).opened_plaintexts().push(p@)
            },
    {
        if self.recv_nonce == u64::MAX {
            return Err(NoiseError::NonceExhausted);
        }
        if ciphertext.len() > MAX_FRAME_LEN {
            return Err(NoiseError::PayloadTooLarge);
        }
        if ciphertext.len() < TAG_LEN {
            return Err(NoiseError::AuthenticationFailed);
        }
        let mut out = zeroed(ciphertext.len() - TAG_LEN);
        match open(&self.transport, self.recv_nonce, ciphertext, out.as_mut_slice()) {
            Ok(_) => {
                self.recv_nonce = self.recv_nonce + 1;
                let ghost opened = self.opened@;
                self.opened = Ghost(opened.push(out@));
                Ok(out)
            },
            Err(_) => Err(NoiseError::AuthenticationFailed),
        }
    }
}

/// Nonces only grow: each one used for sending exceeds every one used before it,
/// and the next one exceeds them all.
pub proof fn lemma_nonces_increase(s: &CipherSession)
    requires
        s.wf(),
    ensures
        forall|i: int, j: int|
            0 <= i < j < s.used_sending_nonces().len() ==> s.used_sending_nonces()[i]
                < s.used_sending_nonces()[j],
        forall|i: int|
            0 <= i < s.used_sending_nonces().len() ==> s.used_sending_nonces()[i]
                < s.sending_nonce(),
{
}

} // verus!
