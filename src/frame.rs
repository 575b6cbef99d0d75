use vstd::prelude::*;

verus! {

/// Largest number of ciphertext bytes that one frame can carry.
pub const MAX_FRAME_LEN: usize = 65535;

/// Bytes that authenticated encryption adds to each frame's plaintext.
pub const TAG_LEN: usize = 16;

/// Largest number of plaintext bytes that fit in one frame.
pub const MAX_PLAINTEXT_LEN: usize = 65519;

/// The two big-endian bytes that announce a frame of `n` ciphertext bytes.
pub open spec fn length_prefix(n: nat) -> Seq<u8> {
    seq![(n / 256) as u8, (n % 256) as u8]
}

/// One frame on the wire: its length prefix, then its ciphertext.
pub open spec fn frame_bytes(c: Seq<u8>) -> Seq<u8> {
    length_prefix(c.len()) + c
}

/// Frames laid end to end, in order.
pub open spec fn encode_frames(cs: Seq<Seq<u8>>) -> Seq<u8>
    decreases cs.len(),
{
    if cs.len() == 0 {
        Seq::empty()
    } else {
        frame_bytes(cs[0]) + encode_frames(cs.drop_first())
    }
}

/// Byte sequences laid end to end, in order.
pub open spec fn concat(cs: Seq<Seq<u8>>) -> Seq<u8>
    decreases cs.len(),
{
    if cs.len() == 0 {
        Seq::empty()
    } else {
        concat(cs.drop_last()) + cs.last()
    }
}

/// Appending a sequence appends its bytes.
pub proof fn lemma_concat_push(cs: Seq<Seq<u8>>, c: Seq<u8>)
    ensures
        concat(cs.push(c)) == concat(cs) + c,
{
    assert(cs.push(c).drop_last() =~= cs);
}

/// Laying out two runs of sequences is laying out each, one after the other.
pub proof fn lemma_concat_append(a: Seq<Seq<u8>>, b: Seq<Seq<u8>>)
    ensures
        concat(a + b) == concat(a) + concat(b),
    decreases b.len(),
{
    if b.len() == 0 {
        assert(a + b =~= a);
        assert(concat(a) + concat(b) =~= concat(a));
    } else {
        lemma_concat_append(a, b.drop_last());
        assert((a + b).drop_last() =~= a + b.drop_last());
        assert(concat(a + b) =~= concat(a) + concat(b));
    }
}

/// Every ciphertext fits the two-byte length field.
pub open spec fn frames_fit(cs: Seq<Seq<u8>>) -> bool {
    forall|i: int| 0 <= i < cs.len() ==> (#[trigger] cs[i]).len() <= MAX_FRAME_LEN
}

/// The length that the first two bytes of `b` announce.
pub open spec fn declared_len(b: Seq<u8>) -> nat
    recommends
        b.len() >= 2,
{
    b[0] as nat * 256 + b[1] as nat
}

/// `b` starts with a whole frame: prefix and all the bytes it announces.
pub open spec fn holds_frame(b: Seq<u8>) -> bool {
    b.len() >= 2 && b.len() >= 2 + declared_len(b)
}

/// Plaintext lengths of the frames that a plaintext of `len` bytes is cut into:
/// full frames, then what is left, in order.
pub open spec fn chunk_lens(len: nat) -> Seq<nat>
    decreases len,
{
    if len == 0 {
        Seq::empty()
    } else if len <= MAX_PLAINTEXT_LEN {
        seq![len]
    } else {
        seq![MAX_PLAINTEXT_LEN as nat] + chunk_lens((len - MAX_PLAINTEXT_LEN) as nat)
    }
}

/// `ceil(len / MAX_PLAINTEXT_LEN)`.
pub open spec fn frame_count(len: nat) -> nat {
    ((len + MAX_PLAINTEXT_LEN - 1) / (MAX_PLAINTEXT_LEN as int)) as nat
}

/// A plaintext is cut into `frame_count` pieces, none empty and none over the bound.
pub proof fn lemma_chunk_lens(len: nat)
    ensures
        chunk_lens(len).len() == frame_count(len),
        forall|i: int|
            0 <= i < chunk_lens(len).len() ==> 0 < #[trigger] chunk_lens(len)[i]
                <= MAX_PLAINTEXT_LEN,
    decreases len,
{
    if len > MAX_PLAINTEXT_LEN {
        let rest = (len - MAX_PLAINTEXT_LEN) as nat;
        lemma_chunk_lens(rest);
        assert forall|i: int| 0 <= i < chunk_lens(len).len() implies 0 < #[trigger] chunk_lens(
            len,
        )[i] <= MAX_PLAINTEXT_LEN by {
            if i > 0 {
                assert(chunk_lens(len)[i] == chunk_lens(rest)[i - 1]);
            }
        }
    }
}

/// Two bytes read as a big-endian length give back those bytes when written again.
pub proof fn lemma_prefix_of_bytes(b0: u8, b1: u8)
    ensures
        length_prefix(b0 as nat * 256 + b1 as nat) == seq![b0, b1],
        b0 as nat * 256 + b1 as nat <= MAX_FRAME_LEN,
{
    let n = b0 as nat * 256 + b1 as nat;
    vstd::arithmetic::div_mod::lemma_fundamental_div_mod_converse(
        n as int,
        256,
        b0 as int,
        b1 as int,
    );
    assert(length_prefix(n) =~= seq![b0, b1]);
}

/// Reading back a prefix gives the length it was written from.
pub proof fn lemma_prefix_declares(n: nat, rest: Seq<u8>)
    requires
        n <= MAX_FRAME_LEN,
    ensures
        holds_frame(length_prefix(n) + rest) <==> rest.len() >= n,
        declared_len(length_prefix(n) + rest) == n,
{
    let b = length_prefix(n) + rest;
    assert(b[0] == (n / 256) as u8);
    assert(b[1] == (n % 256) as u8);
    assert(n / 256 < 256) by (nonlinear_arith)
        requires n <= 65535;
    assert((n / 256) * 256 + n % 256 == n) by (nonlinear_arith);
}

/// Appending a frame to an encoding appends its bytes.
pub proof fn lemma_encode_push(cs: Seq<Seq<u8>>, c: Seq<u8>)
    ensures
        encode_frames(cs.push(c)) == encode_frames(cs) + frame_bytes(c),
    decreases cs.len(),
{
    if cs.len() == 0 {
        assert(cs.push(c).drop_first() =~= Seq::<Seq<u8>>::empty());
        assert(encode_frames(Seq::<Seq<u8>>::empty()) == Seq::<u8>::empty());
        assert(encode_frames(cs.push(c)) =~= frame_bytes(c));
        assert(encode_frames(cs) =~= Seq::<u8>::empty());
    } else {
        assert(cs.push(c).drop_first() =~= cs.drop_first().push(c));
        lemma_encode_push(cs.drop_first(), c);
        assert(encode_frames(cs.push(c)) =~= encode_frames(cs) + frame_bytes(c));
    }
}

/// An encoding of fitting frames, followed by bytes that hold no whole frame,
/// can be read in one way only: the frames are those that were encoded.
pub proof fn lemma_frames_unique(
    sent: Seq<Seq<u8>>,
    taken: Seq<Seq<u8>>,
    rest: Seq<u8>,
)
    requires
        frames_fit(sent),
        frames_fit(taken),
        encode_frames(taken) + rest == encode_frames(sent),
        !holds_frame(rest),
    ensures
        taken == sent,
        rest.len() == 0,
    decreases sent.len(),
{
    if taken.len() == 0 {
        assert(encode_frames(taken) + rest =~= rest);
        if sent.len() > 0 {
            lemma_prefix_declares(sent[0].len(), sent[0] + encode_frames(sent.drop_first()));
            assert(rest =~= length_prefix(sent[0].len()) + (sent[0] + encode_frames(
                sent.drop_first(),
            )));
        }
        assert(sent =~= taken);
    } else {
        let t0 = taken[0];
        let tail_t = encode_frames(taken.drop_first()) + rest;
        assert(encode_frames(taken) + rest =~= length_prefix(t0.len()) + (t0 + tail_t));
        assert(t0.len() <= MAX_FRAME_LEN);
        lemma_prefix_declares(t0.len(), t0 + tail_t);
        assert(sent.len() > 0);
        let s0 = sent[0];
        let tail_s = encode_frames(sent.drop_first());
        assert(s0.len() <= MAX_FRAME_LEN);
        assert(encode_frames(sent) =~= length_prefix(s0.len()) + (s0 + tail_s));
        lemma_prefix_declares(s0.len(), s0 + tail_s);
        let all = encode_frames(sent);
        assert(t0.len() == s0.len());
        assert(t0 =~= all.subrange(2, 2 + t0.len() as int));
        assert(s0 =~= all.subrange(2, 2 + s0.len() as int));
        assert(tail_t =~= all.subrange(2 + t0.len() as int, all.len() as int));
        assert(tail_s =~= all.subrange(2 + s0.len() as int, all.len() as int));
        assert forall|i: int| 0 <= i < sent.drop_first().len() implies (
        #[trigger] sent.drop_first()[i]).len() <= MAX_FRAME_LEN by {
            assert(sent.drop_first()[i] == sent[i + 1]);
        }
        assert forall|i: int| 0 <= i < taken.drop_first().len() implies (
        #[trigger] taken.drop_first()[i]).len() <= MAX_FRAME_LEN by {
            assert(taken.drop_first()[i] == taken[i + 1]);
        }
        lemma_frames_unique(sent.drop_first(), taken.drop_first(), rest);
        assert(taken.len() == sent.len());
        assert forall|i: int| 0 <= i < taken.len() implies taken[i] == sent[i] by {
            if i > 0 {
                assert(taken[i] == taken.drop_first()[i - 1]);
                assert(sent[i] == sent.drop_first()[i - 1]);
            }
        }
        assert(taken =~= sent);
    }
}

} // verus!
