use vstd::prelude::*;
use std::collections::VecDeque;
use snow::StatelessTransportState;
use crate::cipher::CipherSession;
use crate::error::NoiseError;
use crate::frame::{
    chunk_lens, concat, encode_frames, lemma_concat_append, lemma_concat_push, frame_bytes, frames_fit, holds_frame, length_prefix,
    lemma_chunk_lens, lemma_encode_push, lemma_frames_unique, lemma_prefix_of_bytes,
    frame_count, MAX_FRAME_LEN, MAX_PLAINTEXT_LEN, TAG_LEN,
};

verus! {

/// Appends `bytes` to the back of `buf`.
fn push_bytes(buf: &mut VecDeque<u8>, bytes: &[u8])
    ensures
        final(buf)@ == old(buf)@ + bytes@,
{
    let mut i: usize = 0;
    while i < bytes.len()
        invariant
            i <= bytes@.len(),
            buf@ == old(buf)@ + bytes@.subrange(0, i as int),
        decreases bytes@.len() - i,
    {
        buf.push_back(bytes[i]);
        i = i + 1;
        assert(buf@ =~= old(buf)@ + bytes@.subrange(0, i as int));
    }
    assert(bytes@.subrange(0, bytes@.len() as int) =~= bytes@);
}

/// Removes the first `n` bytes of `buf` and returns them.
fn pop_bytes(buf: &mut VecDeque<u8>, n: usize) -> (r: Vec<u8>)
    requires
        n <= old(buf)@.len(),
    ensures
        r@ == old(buf)@.subrange(0, n as int),
        final(buf)@ == old(buf)@.subrange(n as int, old(buf)@.len() as int),
{
    let mut r: Vec<u8> = Vec::with_capacity(n);
    let mut j: usize = 0;
    while j < n
        invariant
            j <= n,
            n <= old(buf)@.len(),
            r@ == old(buf)@.subrange(0, j as int),
            buf@ == old(buf)@.subrange(j as int, old(buf)@.len() as int),
        decreases n - j,
    {
        match buf.pop_front() {
            Some(b) => r.push(b),
            None => {},
        }
        j = j + 1;
        assert(r@ =~= old(buf)@.subrange(0, j as int));
        assert(buf@ =~= old(buf)@.subrange(j as int, old(buf)@.len() as int));
    }
    r
}

/// An established encrypted channel: frames incoming bytes into decrypted
/// plaintext, and outgoing plaintext into length-prefixed encrypted frames.
pub struct Noise {
    inner: CipherSession,
    /// Bytes received from the wire that do not yet make a whole frame.
    rx_buffer_encrypted: VecDeque<u8>,
    /// Plaintext decrypted from the wire, waiting for the reader.
    rx_buffer_decrypted: VecDeque<u8>,
    /// Encrypted frames waiting to be written to the wire.
    tx_buffer_encrypted: VecDeque<u8>,
    /// A frame failed to decrypt: the inbound direction is closed for good.
    failed: bool,
    /// Why the inbound direction closed, once it has.
    failure: NoiseError,
    fed: Ghost<Seq<u8>>,
    opened: Ghost<Seq<Seq<u8>>>,
    sent: Ghost<Seq<Seq<u8>>>,
    drained: Ghost<Seq<u8>>,
    taken: Ghost<Seq<u8>>,
}

impl Noise {
    /// Every byte ever handed to `inject_inbound_data` while the channel was sound.
    pub closed spec fn fed_bytes(&self) -> Seq<u8> {
        self.fed@
    }

    /// The ciphertexts taken off the inbound stream so far, in order.
    pub closed spec fn frames_opened(&self) -> Seq<Seq<u8>> {
        self.opened@
    }

    /// Inbound bytes not yet part of a whole frame.
    pub closed spec fn inbound(&self) -> Seq<u8> {
        self.rx_buffer_encrypted@
    }

    /// Decrypted plaintext that the reader has not taken yet.
    pub closed spec fn decrypted(&self) -> Seq<u8> {
        self.rx_buffer_decrypted@
    }

    /// The ciphertexts of all frames written so far, in order.
    pub closed spec fn frames_sent(&self) -> Seq<Seq<u8>> {
        self.sent@
    }

    /// Outbound bytes already handed out by `write_out`.
    pub closed spec fn drained_bytes(&self) -> Seq<u8> {
        self.drained@
    }

    /// Outbound bytes waiting to be handed out.
    pub closed spec fn pending_out(&self) -> Seq<u8> {
        self.tx_buffer_encrypted@
    }

    /// A frame failed to authenticate.
    pub closed spec fn is_failed(&self) -> bool {
        self.failed
    }

    /// The nonce that the next outgoing frame will be encrypted under.
    pub closed spec fn sending_nonce(&self) -> u64 {
        self.inner.sending_nonce()
    }

    /// The nonce that the next incoming frame will be decrypted under.
    pub closed spec fn receiving_nonce(&self) -> u64 {
        self.inner.receiving_nonce()
    }

    /// Plaintext already handed to the reader by `take_decrypted`.
    pub closed spec fn taken_bytes(&self) -> Seq<u8> {
        self.taken@
    }

    /// The error that closed the inbound direction, once it is closed.
    pub closed spec fn failure_kind(&self) -> NoiseError {
        self.failure
    }

    /// The plaintexts of the frames written so far, in order: the `k`-th was sealed
    /// into the `k`-th frame.
    pub closed spec fn sealed_plaintexts(&self) -> Seq<Seq<u8>> {
        self.inner.sealed_plaintexts()
    }

    /// The plaintexts that decrypting the frames taken off returned, in order.
    pub closed spec fn opened_plaintexts(&self) -> Seq<Seq<u8>> {
        self.inner.opened_plaintexts()
    }

    /// The invariant that ties the buffers to the frames written and taken.
    pub closed spec fn wf(&self) -> bool {
        &&& self.inner.wf()
        &&& frames_fit(self.opened@)
        &&& frames_fit(self.sent@)
        &&& encode_frames(self.opened@) + self.rx_buffer_encrypted@ == self.fed@
        &&& self.drained@ + self.tx_buffer_encrypted@ == encode_frames(self.sent@)
        &&& !self.failed ==> !holds_frame(self.rx_buffer_encrypted@)
        &&& !self.failed ==> self.inner.receiving_nonce() == self.opened@.len()
        &&& self.inner.sending_nonce() == self.sent@.len()
        &&& self.inner.sealed_plaintexts().len() == self.sent@.len()
        &&& !self.failed ==> self.inner.opened_plaintexts().len() == self.opened@.len()
        &&& self.failed ==> self.inner.opened_plaintexts().len() + 1 == self.opened@.len()
        &&& self.taken@ + self.rx_buffer_decrypted@ == concat(self.inner.opened_plaintexts())
        &&& self.failed ==> (self.failure == NoiseError::AuthenticationFailed || self.failure
            == NoiseError::NonceExhausted)
    }

    /// The channel over the keys of a finished handshake, with empty buffers.
    pub fn new(transport: StatelessTransportState) -> (r: Noise)
        ensures
            r.wf(),
            !r.is_failed(),
            r.fed_bytes() == Seq::<u8>::empty(),
            r.decrypted() == Seq::<u8>::empty(),
            r.pending_out() == Seq::<u8>::empty(),
            r.drained_bytes() == Seq::<u8>::empty(),
            r.frames_sent() == Seq::<Seq<u8>>::empty(),
            r.sending_nonce() == 0,
            r.receiving_nonce() == 0,
            r.sealed_plaintexts() == Seq::<Seq<u8>>::empty(),
            r.opened_plaintexts() == Seq::<Seq<u8>>::empty(),
            r.taken_bytes() == Seq::<u8>::empty(),
    {
        let r = Noise {
            inner: CipherSession::new(transport),
            rx_buffer_encrypted: VecDeque::new(),
            rx_buffer_decrypted: VecDeque::new(),
            tx_buffer_encrypted: VecDeque::new(),
            failed: false,
            failure: NoiseError::AuthenticationFailed,
            fed: Ghost(Seq::empty()),
            opened: Ghost(Seq::empty()),
            sent: Ghost(Seq::empty()),
            drained: Ghost(Seq::empty()),
            taken: Ghost(Seq::empty()),
        };
        assert(encode_frames(Seq::<Seq<u8>>::empty()) == Seq::<u8>::empty());
        assert(r.rx_buffer_encrypted@ + Seq::<u8>::empty() =~= Seq::<u8>::empty());
        assert(concat(Seq::<Seq<u8>>::empty()) == Seq::<u8>::empty());
        r
    }

    /// Write to the given buffer the bytes that are ready to be sent out. Returns the
    /// number of bytes written to `destination`.
    pub fn write_out(&mut self, destination: &mut [u8]) -> (r: usize)
        requires
            old(self).wf(),
        ensures
            final(self).wf(),
            r == if old(self).pending_out().len() < old(destination)@.len() {
                old(self).pending_out().len()
            } else {
                old(destination)@.len() as nat
            },
            final(destination)@ == old(self).pending_out().subrange(0, r as int) + old(
                destination,
            )@.subrange(r as int, old(destination)@.len() as int),
            final(self).pending_out() == old(self).pending_out().subrange(
                r as int,
                old(self).pending_out().len() as int,
            ),
            final(self).drained_bytes() == old(self).drained_bytes() + old(
                self,
            ).pending_out().subrange(0, r as int),
            final(self).taken_bytes() == old(self).taken_bytes(),
            final(self).frames_sent() == old(self).frames_sent(),
            final(self).sending_nonce() == old(self).sending_nonce(),
            final(self).fed_bytes() == old(self).fed_bytes(),
            final(self).frames_opened() == old(self).frames_opened(),
            final(self).inbound() == old(self).inbound(),
            final(self).decrypted() == old(self).decrypted(),
            final(self).is_failed() == old(self).is_failed(),
            final(self).failure_kind() == old(self).failure_kind(),
            final(self).receiving_nonce() == old(self).receiving_nonce(),
            final(self).sealed_plaintexts() == old(self).sealed_plaintexts(),
            final(self).opened_plaintexts() == old(self).opened_plaintexts(),
    {
        let n: usize = if self.tx_buffer_encrypted.len() < destination.len() {
            self.tx_buffer_encrypted.len()
        } else {
            destination.len()
        };
        let ghost tx0 = self.tx_buffer_encrypted@;
        let ghost dst0 = destination@;
        let ghost drained0 = self.drained@;
        let mut i: usize = 0;
        while i < n
            invariant
                n <= tx0.len(),
                n <= dst0.len(),
                i <= n,
                self.inner == old(self).inner,
                self.rx_buffer_encrypted == old(self).rx_buffer_encrypted,
                self.rx_buffer_decrypted == old(self).rx_buffer_decrypted,
                self.failed == old(self).failed,
                self.failure == old(self).failure,
                self.fed == old(self).fed,
                self.taken == old(self).taken,
                self.opened == old(self).opened,
                self.sent == old(self).sent,
                self.tx_buffer_encrypted@ == tx0.subrange(i as int, tx0.len() as int),
                self.drained@ == drained0 + tx0.subrange(0, i as int),
                destination@.len() == dst0.len(),
                destination@ == tx0.subrange(0, i as int) + dst0.subrange(
                    i as int,
                    dst0.len() as int,
                ),
            decreases n - i,
        {
            let b = self.tx_buffer_encrypted.pop_front();
            match b {
                Some(b) => {
                    destination[i] = b;
                    let ghost d = self.drained@;
                    self.drained = Ghost(d.push(b));
                },
                None => {},
            }
            i = i + 1;
            assert(self.drained@ =~= drained0 + tx0.subrange(0, i as int));
            assert(destination@ =~= tx0.subrange(0, i as int) + dst0.subrange(
                i as int,
                dst0.len() as int,
            ));
            assert(self.tx_buffer_encrypted@ =~= tx0.subrange(i as int, tx0.len() as int));
        }
        assert(self.drained@ + self.tx_buffer_encrypted@ =~= drained0 + tx0);
        n
    }

    /// Removes and returns up to `max` bytes of decrypted plaintext, oldest first.
    pub fn take_decrypted(&mut self, max: usize) -> (r: Vec<u8>)
        requires
            old(self).wf(),
        ensures
            final(self).wf(),
            r@ == old(self).decrypted().subrange(
                0,
                if max < old(self).decrypted().len() {
                    max as int
                } else {
                    old(self).decrypted().len() as int
                },
            ),
            old(self).decrypted() == r@ + final(self).decrypted(),
            final(self).taken_bytes() == old(self).taken_bytes() + r@,
            final(self).fed_bytes() == old(self).fed_bytes(),
            final(self).frames_opened() == old(self).frames_opened(),
            final(self).inbound() == old(self).inbound(),
            final(self).is_failed() == old(self).is_failed(),
            final(self).frames_sent() == old(self).frames_sent(),
            final(self).pending_out() == old(self).pending_out(),
            final(self).drained_bytes() == old(self).drained_bytes(),
            final(self).sending_nonce() == old(self).sending_nonce(),
            final(self).failure_kind() == old(self).failure_kind(),
            final(self).receiving_nonce() == old(self).receiving_nonce(),
            final(self).sealed_plaintexts() == old(self).sealed_plaintexts(),
            final(self).opened_plaintexts() == old(self).opened_plaintexts(),
    {
        let n: usize = if max < self.rx_buffer_decrypted.len() {
            max
        } else {
            self.rx_buffer_decrypted.len()
        };
        let ghost d0 = self.rx_buffer_decrypted@;
        let mut out: Vec<u8> = Vec::new();
        let mut i: usize = 0;
        while i < n
            invariant
                n <= d0.len(),
                i <= n,
                self.inner == old(self).inner,
                self.rx_buffer_encrypted == old(self).rx_buffer_encrypted,
                self.tx_buffer_encrypted == old(self).tx_buffer_encrypted,
                self.failed == old(self).failed,
                self.failure == old(self).failure,
                self.fed == old(self).fed,
                self.taken == old(self).taken,
                self.opened == old(self).opened,
                self.sent == old(self).sent,
                self.drained == old(self).drained,
                self.rx_buffer_decrypted@ == d0.subrange(i as int, d0.len() as int),
                out@ == d0.subrange(0, i as int),
            decreases n - i,
        {
            match self.rx_buffer_decrypted.pop_front() {
                Some(b) => out.push(b),
                None => {},
            }
            i = i + 1;
            assert(out@ =~= d0.subrange(0, i as int));
            assert(self.rx_buffer_decrypted@ =~= d0.subrange(i as int, d0.len() as int));
        }
        assert(d0 =~= out@ + self.rx_buffer_decrypted@);
        let ghost t = self.taken@;
        self.taken = Ghost(t + out@);
        assert(self.taken@ + self.rx_buffer_decrypted@ =~= t + d0);
        out
    }

    /// Feeds data received from the wire. Every whole frame that the buffered bytes
    /// now hold is taken off the front, decrypted, and its plaintext queued for
    /// `take_decrypted`. A frame that does not authenticate closes the inbound
    /// direction: plaintext of earlier frames stays available, nothing of that frame
    /// is queued, and later data is refused with the same error.
    pub fn inject_inbound_data(&mut self, payload: &[u8]) -> (r: Result<(), NoiseError>)
        requires
            old(self).wf(),
        ensures
            final(self).wf(),
            old(self).is_failed() ==> r == Err::<(), NoiseError>(old(self).failure_kind())
                && *final(self) == *old(self),
            !old(self).is_failed() ==> final(self).fed_bytes() == old(self).fed_bytes()
                + payload@,
            !old(self).is_failed() && !holds_frame(old(self).inbound() + payload@) ==> {
                &&& r is Ok
                &&& final(self).inbound() == old(self).inbound() + payload@
                &&& final(self).decrypted() == old(self).decrypted()
                &&& final(self).frames_opened() == old(self).frames_opened()
                &&& final(self).opened_plaintexts() == old(self).opened_plaintexts()
                &&& final(self).receiving_nonce() == old(self).receiving_nonce()
            },
            old(self).frames_opened().is_prefix_of(final(self).frames_opened()),
            old(self).opened_plaintexts().is_prefix_of(final(self).opened_plaintexts()),
            final(self).decrypted() == old(self).decrypted() + concat(
                final(self).opened_plaintexts().subrange(
                    old(self).opened_plaintexts().len() as int,
                    final(self).opened_plaintexts().len() as int,
                ),
            ),
            encode_frames(final(self).frames_opened()) + final(self).inbound() == final(self).fed_bytes(),
            r is Ok <==> !final(self).is_failed(),
            r is Ok ==> {
                &&& !holds_frame(final(self).inbound())
                &&& final(self).opened_plaintexts().len() == final(self).frames_opened().len()
                &&& final(self).receiving_nonce() == final(self).frames_opened().len()
            },
            r matches Err(e) ==> {
                &&& e == NoiseError::AuthenticationFailed || e == NoiseError::NonceExhausted
                &&& final(self).failure_kind() == e
                &&& final(self).opened_plaintexts().len() + 1 == final(self).frames_opened().len()
            },
            final(self).frames_sent() == old(self).frames_sent(),
            final(self).pending_out() == old(self).pending_out(),
            final(self).drained_bytes() == old(self).drained_bytes(),
            final(self).taken_bytes() == old(self).taken_bytes(),
            final(self).sending_nonce() == old(self).sending_nonce(),
            final(self).sealed_plaintexts() == old(self).sealed_plaintexts(),
    {
        if self.failed {
            return Err(self.failure);
        }
        push_bytes(&mut self.rx_buffer_encrypted, payload);
        let ghost f = self.fed@;
        self.fed = Ghost(f + payload@);
        assert(encode_frames(self.opened@) + self.rx_buffer_encrypted@ =~= self.fed@);
        self.process_frames()
    }

    /// Decrypts every whole frame at the front of the inbound buffer.
    fn process_frames(&mut self) -> (r: Result<(), NoiseError>)
        requires
            old(self).inner.wf(),
            !old(self).failed,
            frames_fit(old(self).opened@),
            frames_fit(old(self).sent@),
            encode_frames(old(self).opened@) + old(self).rx_buffer_encrypted@ == old(self).fed@,
            old(self).drained@ + old(self).tx_buffer_encrypted@ == encode_frames(old(self).sent@),
            old(self).inner.receiving_nonce() == old(self).opened@.len(),
            old(self).inner.sending_nonce() == old(self).sent@.len(),
            old(self).inner.sealed_plaintexts().len() == old(self).sent@.len(),
            old(self).inner.opened_plaintexts().len() == old(self).opened@.len(),
            old(self).taken@ + old(self).rx_buffer_decrypted@ == concat(
                old(self).inner.opened_plaintexts(),
            ),
        ensures
            final(self).wf(),
            !holds_frame(old(self).rx_buffer_encrypted@) ==> r is Ok && *final(self) == *old(self),
            final(self).fed@ == old(self).fed@,
            final(self).taken == old(self).taken,
            old(self).opened@.is_prefix_of(final(self).opened@),
            old(self).inner.opened_plaintexts().is_prefix_of(final(self).inner.opened_plaintexts()),
            final(self).rx_buffer_decrypted@ == old(self).rx_buffer_decrypted@ + concat(
                final(self).inner.opened_plaintexts().subrange(
                    old(self).inner.opened_plaintexts().len() as int,
                    final(self).inner.opened_plaintexts().len() as int,
                ),
            ),
            r is Ok <==> !final(self).failed,
            r matches Err(e) ==> (e == NoiseError::AuthenticationFailed || e
                == NoiseError::NonceExhausted) && final(self).failure == e,
            final(self).sent == old(self).sent,
            final(self).tx_buffer_encrypted == old(self).tx_buffer_encrypted,
            final(self).drained == old(self).drained,
            final(self).inner.sending_nonce() == old(self).inner.sending_nonce(),
            final(self).inner.used_sending_nonces() == old(self).inner.used_sending_nonces(),
            final(self).inner.sealed_plaintexts() == old(self).inner.sealed_plaintexts(),
    {
        loop
            invariant
                self.inner.wf(),
                !self.failed,
                frames_fit(self.opened@),
                encode_frames(self.opened@) + self.rx_buffer_encrypted@ == self.fed@,
                self.inner.receiving_nonce() == self.opened@.len(),
                self.inner.opened_plaintexts().len() == self.opened@.len(),
                self.fed@ == old(self).fed@,
                self.taken == old(self).taken,
                self.taken@ + self.rx_buffer_decrypted@ == concat(self.inner.opened_plaintexts()),
                old(self).opened@.is_prefix_of(self.opened@),
                old(self).inner.opened_plaintexts().is_prefix_of(self.inner.opened_plaintexts()),
                self.rx_buffer_decrypted@ == old(self).rx_buffer_decrypted@ + concat(
                    self.inner.opened_plaintexts().subrange(
                        old(self).inner.opened_plaintexts().len() as int,
                        self.inner.opened_plaintexts().len() as int,
                    ),
                ),
                !holds_frame(old(self).rx_buffer_encrypted@) ==> *self == *old(self),
                self.sent == old(self).sent,
                self.tx_buffer_encrypted == old(self).tx_buffer_encrypted,
                self.drained == old(self).drained,
                frames_fit(self.sent@),
                self.drained@ + self.tx_buffer_encrypted@ == encode_frames(self.sent@),
                self.inner.sending_nonce() == old(self).inner.sending_nonce(),
                self.inner.sending_nonce() == self.sent@.len(),
                self.inner.used_sending_nonces() == old(self).inner.used_sending_nonces(),
                self.inner.sealed_plaintexts() == old(self).inner.sealed_plaintexts(),
                self.inner.sealed_plaintexts().len() == self.sent@.len(),
            decreases self.rx_buffer_encrypted@.len(),
        {
            let avail = self.rx_buffer_encrypted.len();
            if avail < 2 {
                return Ok(());
            }
            let b0 = self.rx_buffer_encrypted[0];
            let b1 = self.rx_buffer_encrypted[1];
            let len: usize = b0 as usize * 256 + b1 as usize;
            proof {
                lemma_prefix_of_bytes(b0, b1);
            }
            if avail - 2 < len {
                return Ok(());
            }
            let ghost rx0 = self.rx_buffer_encrypted@;
            assert(holds_frame(rx0));
            let _ = self.rx_buffer_encrypted.pop_front();
            let _ = self.rx_buffer_encrypted.pop_front();
            let frame = pop_bytes(&mut self.rx_buffer_encrypted, len);
            proof {
                assert(rx0 =~= frame_bytes(frame@) + self.rx_buffer_encrypted@) by {
                    assert(length_prefix(frame@.len()) == seq![b0, b1]);
                }
                lemma_encode_push(self.opened@, frame@);
                let o = self.opened@;
                assert(encode_frames(o.push(frame@)) + self.rx_buffer_encrypted@ =~= self.fed@);
                assert(o.is_prefix_of(o.push(frame@)));
                assert(old(self).opened@.is_prefix_of(o.push(frame@)));
            }
            let ghost o = self.opened@;
            let ghost log0 = self.inner.opened_plaintexts();
            let ghost dec0 = self.rx_buffer_decrypted@;
            self.opened = Ghost(o.push(frame@));
            match self.inner.decrypt(frame.as_slice()) {
                Ok(plain) => {
                    push_bytes(&mut self.rx_buffer_decrypted, plain.as_slice());
                    proof {
                        let lo = old(self).inner.opened_plaintexts().len() as int;
                        let log = self.inner.opened_plaintexts();
                        assert(log.subrange(lo, log.len() as int) =~= log0.subrange(
                            lo,
                            log0.len() as int,
                        ).push(plain@));
                        lemma_concat_push(log0.subrange(lo, log0.len() as int), plain@);
                        lemma_concat_push(log0, plain@);
                        assert(self.taken@ + self.rx_buffer_decrypted@ =~= concat(log));
                        assert(old(self).inner.opened_plaintexts().is_prefix_of(log));
                        assert(self.rx_buffer_decrypted@ =~= old(self).rx_buffer_decrypted@
                            + concat(log.subrange(lo, log.len() as int)));
                    }
                },
                Err(e) => {
                    self.failed = true;
                    self.failure = e;
                    return Err(e);
                },
            }
        }
    }

    /// Encrypts `payload` and queues it for the wire, cut into frames of at most
    /// `MAX_PLAINTEXT_LEN` plaintext bytes, each preceded by its big-endian length.
    /// Where the nonces left cannot cover every frame nothing is written.
    pub fn inject_outbound_data(&mut self, payload: &[u8]) -> (r: Result<(), NoiseError>)
        requires
            old(self).wf(),
        ensures
            final(self).wf(),
            old(self).sending_nonce() + frame_count(payload@.len()) > u64::MAX <==> r == Err::<
                (),
                NoiseError,
            >(NoiseError::NonceExhausted),
            r == Err::<(), NoiseError>(NoiseError::NonceExhausted) ==> *final(self) == *old(self),
            r matches Err(e) ==> (e == NoiseError::NonceExhausted || e
                == NoiseError::HandshakeState),
            old(self).frames_sent().is_prefix_of(final(self).frames_sent()),
            frames_fit(final(self).frames_sent()),
            final(self).drained_bytes() + final(self).pending_out() == encode_frames(
                final(self).frames_sent(),
            ),
            payload@.len() == 0 ==> r is Ok && *final(self) == *old(self),
            old(self).sealed_plaintexts().is_prefix_of(final(self).sealed_plaintexts()),
            r is Ok ==> {
                &&& concat(
                    final(self).sealed_plaintexts().subrange(
                        old(self).sealed_plaintexts().len() as int,
                        final(self).sealed_plaintexts().len() as int,
                    ),
                ) == payload@
                &&& forall|i: int|
                    0 <= i < frame_count(payload@.len()) ==>
                    (#[trigger] final(self).sealed_plaintexts()[old(self).frames_sent().len() + i]).len()
                    == chunk_lens(payload@.len())[i]
                &&& final(self).frames_sent().len() == old(self).frames_sent().len()
                    + frame_count(payload@.len())
                &&& forall|i: int|
                    0 <= i < frame_count(payload@.len()) ==>
                    (#[trigger] final(self).frames_sent()[old(self).frames_sent().len() + i]).len()
                    == chunk_lens(payload@.len())[i] + TAG_LEN
            },
            final(self).pending_out().len() >= old(self).pending_out().len(),
            final(self).pending_out().subrange(0, old(self).pending_out().len() as int) == old(
                self,
            ).pending_out(),
            final(self).drained_bytes() == old(self).drained_bytes(),
            final(self).taken_bytes() == old(self).taken_bytes(),
            final(self).fed_bytes() == old(self).fed_bytes(),
            final(self).frames_opened() == old(self).frames_opened(),
            final(self).inbound() == old(self).inbound(),
            final(self).decrypted() == old(self).decrypted(),
            final(self).is_failed() == old(self).is_failed(),
            final(self).failure_kind() == old(self).failure_kind(),
            final(self).receiving_nonce() == old(self).receiving_nonce(),
            final(self).opened_plaintexts() == old(self).opened_plaintexts(),
    {
        if payload.len() == 0 {
            return Ok(());
        }
        let count: u64 = ((payload.len() as u128 + (MAX_PLAINTEXT_LEN as u128 - 1)) / (
        MAX_PLAINTEXT_LEN as u128)) as u64;
        proof {
            lemma_chunk_lens(payload@.len());
            assert(count == frame_count(payload@.len()));
        }
        if u64::MAX - self.inner.send_nonce() < count {
            return Err(NoiseError::NonceExhausted);
        }
        let ghost sent0 = self.sent@;
        let ghost tx0 = self.tx_buffer_encrypted@;
        let ghost total = chunk_lens(payload@.len());
        let mut offset: usize = 0;
        let mut k: u64 = 0;
        while offset < payload.len()
            invariant
                old(self).wf(),
                self.inner.wf(),
                frames_fit(self.sent@),
                self.drained@ + self.tx_buffer_encrypted@ == encode_frames(self.sent@),
                self.inner.sending_nonce() == self.sent@.len(),
                self.inner.receiving_nonce() == old(self).inner.receiving_nonce(),
                self.drained == old(self).drained,
                self.fed == old(self).fed,
                self.taken == old(self).taken,
                self.opened == old(self).opened,
                self.rx_buffer_encrypted == old(self).rx_buffer_encrypted,
                self.rx_buffer_decrypted == old(self).rx_buffer_decrypted,
                self.failed == old(self).failed,
                self.failure == old(self).failure,
                self.inner.opened_plaintexts() == old(self).inner.opened_plaintexts(),
                self.inner.sealed_plaintexts().len() == self.sent@.len(),
                self.inner.sealed_plaintexts().subrange(0, sent0.len() as int)
                    == old(self).inner.sealed_plaintexts(),
                concat(
                    self.inner.sealed_plaintexts().subrange(
                        sent0.len() as int,
                        self.inner.sealed_plaintexts().len() as int,
                    ),
                ) == payload@.subrange(0, offset as int),
                forall|i: int|
                    0 <= i < k ==> (#[trigger] self.inner.sealed_plaintexts()[sent0.len() + i]).len()
                        == total[i],
                sent0 == old(self).sent@,
                tx0 == old(self).tx_buffer_encrypted@,
                total == chunk_lens(payload@.len()),
                total.len() == count,
                count == frame_count(payload@.len()),
                old(self).inner.sending_nonce() + count <= u64::MAX,
                offset <= payload@.len(),
                k <= count,
                total.subrange(k as int, total.len() as int) == chunk_lens(
                    (payload@.len() - offset) as nat,
                ),
                self.sent@.len() == sent0.len() + k,
                self.sent@.subrange(0, sent0.len() as int) == sent0,
                forall|i: int|
                    0 <= i < k ==> (#[trigger] self.sent@[sent0.len() + i]).len() == total[i]
                        + TAG_LEN,
                self.tx_buffer_encrypted@.len() >= tx0.len(),
                self.tx_buffer_encrypted@.subrange(0, tx0.len() as int) == tx0,
            decreases payload@.len() - offset,
        {
            let rem: usize = payload.len() - offset;
            let n: usize = if rem < MAX_PLAINTEXT_LEN {
                rem
            } else {
                MAX_PLAINTEXT_LEN
            };
            proof {
                lemma_chunk_lens(rem as nat);
                let rest = chunk_lens(rem as nat);
                assert(rest.len() > 0);
                assert(rest[0] == n);
                assert(total[k as int] == rest[0]);
                assert(self.inner.sending_nonce() < u64::MAX);
                assert(k < count);
            }
            let chunk = &payload[offset..offset + n];
            let ghost sealed0 = self.inner.sealed_plaintexts();
            let ciphertext = match self.inner.encrypt(chunk) {
                Ok(c) => c,
                Err(e) => {
                    return Err(e);
                },
            };
            let clen: usize = ciphertext.len();
            let prefix: [u8; 2] = [(clen / 256) as u8, (clen % 256) as u8];
            let ghost pre_tx = self.tx_buffer_encrypted@;
            push_bytes(&mut self.tx_buffer_encrypted, prefix.as_slice());
            push_bytes(&mut self.tx_buffer_encrypted, ciphertext.as_slice());
            proof {
                assert(prefix@ =~= length_prefix(ciphertext@.len()));
                assert(self.tx_buffer_encrypted@ =~= pre_tx + frame_bytes(ciphertext@));
                lemma_encode_push(self.sent@, ciphertext@);
            }
            let ghost s = self.sent@;
            self.sent = Ghost(s.push(ciphertext@));
            proof {
                let rest = chunk_lens(rem as nat);
                if rem > MAX_PLAINTEXT_LEN {
                    assert(rest.subrange(1, rest.len() as int) =~= chunk_lens(
                        (rem - MAX_PLAINTEXT_LEN) as nat,
                    ));
                } else {
                    assert(rest.subrange(1, rest.len() as int) =~= Seq::<nat>::empty());
                }
                assert(total.subrange(k + 1, total.len() as int) =~= rest.subrange(
                    1,
                    rest.len() as int,
                ));
                assert(self.sent@.subrange(0, sent0.len() as int) =~= sent0);
                let sealed1 = self.inner.sealed_plaintexts();
                let lo = sent0.len() as int;
                assert(sealed1.subrange(lo, sealed1.len() as int) =~= sealed0.subrange(
                    lo,
                    sealed0.len() as int,
                ).push(chunk@));
                lemma_concat_push(sealed0.subrange(lo, sealed0.len() as int), chunk@);
                assert(payload@.subrange(0, offset + n) =~= payload@.subrange(0, offset as int)
                    + chunk@);
                assert(sealed1.subrange(0, lo) =~= sealed0.subrange(0, lo));
                assert forall|i: int| 0 <= i < k + 1 implies (#[trigger] sealed1[lo + i]).len()
                    == total[i] by {
                    if i < k {
                        assert(sealed1[lo + i] == sealed0[lo + i]);
                    }
                }
                assert(self.tx_buffer_encrypted@.subrange(0, tx0.len() as int) =~= tx0);
                assert(self.drained@ + self.tx_buffer_encrypted@ =~= encode_frames(self.sent@));
                assert forall|i: int| 0 <= i < self.sent@.len() implies (
                #[trigger] self.sent@[i]).len() <= MAX_FRAME_LEN by {
                    if i < s.len() {
                        assert(self.sent@[i] == s[i]);
                    }
                }
                assert forall|i: int| 0 <= i < k + 1 implies (#[trigger] self.sent@[sent0.len()
                    + i]).len() == total[i] + TAG_LEN by {
                    if i < k {
                        assert(self.sent@[sent0.len() + i] == s[sent0.len() + i]);
                    }
                }
            }
            offset = offset + n;
            k = k + 1;
        }
        proof {
            assert(payload@.subrange(0, payload@.len() as int) =~= payload@);
            assert(chunk_lens(0) =~= Seq::<nat>::empty());
            assert(old(self).inner.sealed_plaintexts().is_prefix_of(self.inner.sealed_plaintexts()));
            assert(sent0.is_prefix_of(self.sent@));
        }
        Ok(())
    }
}

/// Frames survive any fragmentation of the byte stream. Once every byte that the
/// sender handed out has been fed to the receiver, in order and in chunks of any
/// sizes, the receiver has taken off exactly the frames that the sender wrote, in
/// the same order, and holds no bytes left over.
pub proof fn lemma_fragmentation(sender: &Noise, receiver: &Noise)
    requires
        sender.wf(),
        receiver.wf(),
        !receiver.is_failed(),
        sender.pending_out().len() == 0,
        receiver.fed_bytes() == sender.drained_bytes(),
    ensures
        receiver.frames_opened() == sender.frames_sent(),
        receiver.inbound().len() == 0,
{
    assert(sender.drained@ + sender.tx_buffer_encrypted@ =~= sender.drained@);
    lemma_frames_unique(sender.sent@, receiver.opened@, receiver.rx_buffer_encrypted@);
}

/// Every frame written fits the two-byte length field.
pub proof fn lemma_frames_bounded(n: &Noise)
    requires
        n.wf(),
    ensures
        frames_fit(n.frames_sent()),
{
}

/// Each frame takes the next nonce of its direction: the sending nonce counts the
/// frames written and, while the channel is sound, the receiving nonce counts the
/// frames taken off. So the `k`-th frame is sealed and opened under nonce `k` on
/// both sides, and no two frames of a direction share one.
pub proof fn lemma_nonce_counts_frames(n: &Noise)
    requires
        n.wf(),
    ensures
        n.sending_nonce() == n.frames_sent().len(),
        !n.is_failed() ==> n.receiving_nonce() == n.frames_opened().len(),
{
}

/// Both byte streams are frames end to end: what has left or waits on the outbound
/// side encodes the frames written, and what came in encodes the frames taken off
/// followed by the bytes of an incomplete one.
pub proof fn lemma_streams_are_frames(n: &Noise)
    requires
        n.wf(),
    ensures
        n.drained_bytes() + n.pending_out() == encode_frames(n.frames_sent()),
        encode_frames(n.frames_opened()) + n.inbound() == n.fed_bytes(),
        !n.is_failed() ==> !holds_frame(n.inbound()),
{
}

/// What the reader receives is what the sender sealed, whatever the fragmentation,
/// provided each frame decrypts to the plaintext sealed into it: the bytes taken
/// by `take_decrypted` followed by those still queued are then the sealed
/// plaintexts laid end to end, which each write's own contract ties to its input.
pub proof fn lemma_delivery(sender: &Noise, receiver: &Noise)
    requires
        sender.wf(),
        receiver.wf(),
        receiver.opened_plaintexts() == sender.sealed_plaintexts(),
    ensures
        receiver.taken_bytes() + receiver.decrypted() == concat(sender.sealed_plaintexts()),
{
}

/// The reader's bytes, taken or still queued, are the decrypted plaintexts in order.
pub proof fn lemma_reader_sees_plaintexts(n: &Noise)
    requires
        n.wf(),
    ensures
        n.taken_bytes() + n.decrypted() == concat(n.opened_plaintexts()),
{
}

} // verus!
