//! The Fiat-Shamir transcript: a domain tag, the nonce point, the public key
//! and the context's payload are hashed, and the digest is stretched into
//! `NB_BITS` challenge bits.
use crate::authentification;
use crate::bits::u64_to_bits_le;
use crate::signature;
use crate::curve::{point_words, Point};
use crate::field::P;
use crate::scalar::NB_BITS;
use vstd::prelude::*;

verus! {

/// Domain tag of an authentication transcript.
pub const AUTH_TAG: u64 = 0x4155_5448;

/// Domain tag of a signature transcript.
pub const SIG_TAG: u64 = 0x5349_474e;

/// The Poseidon2 digest (sponge without padding, four output words) of a
/// sequence of base-field words, as the poseidon-hash crate computes it.
/// This is Poseidon2, not the Poseidon permutation of plonky2's
/// `PoseidonHash`: a proving engine must hash with Poseidon2 in the circuit
/// for the circuit's challenge to match this one.
pub uninterp spec fn poseidon_digest(input: Seq<u64>) -> Seq<u64>;

/// Relies on `poseidon_hash::hash_no_pad` (Poseidon2): it hashes canonical Goldilocks
/// words into four words, a function of the input alone; each output word is
/// read back canonically with `to_canonical_u64`.
#[verifier::external_body]
pub(crate) fn hash_no_pad(input: &Vec<u64>) -> (r: Vec<u64>)
    requires
        forall|i: int| 0 <= i < input.len() ==> #[trigger] input[i] < P,
    ensures
        r@ == poseidon_digest(input@),
        r.len() == 4,
        forall|i: int| 0 <= i < r.len() ==> #[trigger] r[i] < P,
{
    let v: Vec<poseidon_hash::Goldilocks> = input
        .iter()
        .map(|&x| poseidon_hash::Goldilocks::from_canonical_u64(x))
        .collect();
    poseidon_hash::hash_no_pad(&v).iter().map(|g| g.to_canonical_u64()).collect()
}

/// The 64 little-endian bits of a word.
pub open spec fn word_bits(x: u64) -> Seq<bool> {
    Seq::new(64, |j: int| (x >> (j as u64)) & 1 == 1)
}

/// The little-endian bits of each word in turn.
pub open spec fn words_bits(d: Seq<u64>) -> Seq<bool>
    decreases d.len(),
{
    if d.len() == 0 {
        Seq::empty()
    } else {
        words_bits(d.drop_last()) + word_bits(d.last())
    }
}

/// The four words of the digest of `input`.
pub open spec fn digest4(input: Seq<u64>) -> Seq<u64> {
    Seq::new(4, |k: int| poseidon_digest(input)[k])
}

/// The challenge bits of a transcript input: the bits of the digest `h0` of
/// the input, then those of the digest of `(1, h0)`, cut to `NB_BITS`.
pub open spec fn xof_bits(base: Seq<u64>) -> Seq<bool> {
    let h0 = digest4(base);
    (words_bits(h0) + words_bits(digest4(seq![1u64] + h0))).take(NB_BITS as int)
}

/// Appends the bits of every word of `d`.
pub fn push_words_bits(out: &mut Vec<bool>, d: &Vec<u64>)
    ensures
        final(out)@ == old(out)@ + words_bits(d@),
{
    let ghost start = out@;
    let mut k: usize = 0;
    assert(d@.take(0) =~= Seq::<u64>::empty());
    assert(start + words_bits(Seq::<u64>::empty()) =~= start);
    while k < d.len()
        invariant
            k <= d.len(),
            out@ == start + words_bits(d@.take(k as int)),
        decreases d.len() - k,
    {
        u64_to_bits_le(d[k], out, 64);
        proof {
            assert(d@.take(k + 1).drop_last() =~= d@.take(k as int));
            assert(out@ =~= start + words_bits(d@.take(k + 1)));
        }
        k = k + 1;
    }
    assert(d@.take(d.len() as int) =~= d@);
}

/// The challenge bits of a transcript input; extends the digest by hashing
/// `(counter, h0)` for counters 1, 2, ... until `NB_BITS` bits are there.
pub fn poseidon_xof_bits_native(base_inputs: &Vec<u64>) -> (r: Vec<bool>)
    requires
        forall|i: int| 0 <= i < base_inputs.len() ==> #[trigger] base_inputs[i] < P,
    ensures
        r.len() == NB_BITS,
        r@ == xof_bits(base_inputs@),
{
    let mut bits: Vec<bool> = Vec::with_capacity(NB_BITS);
    let h0 = hash_no_pad(base_inputs);
    push_words_bits(&mut bits, &h0);
    assert(h0@ =~= digest4(base_inputs@));
    let ghost b0 = words_bits(h0@);
    let ghost b1 = words_bits(digest4(seq![1u64] + h0@));
    proof {
        lemma_words_bits_len(h0@);
    }
    let mut ctr: u64 = 1;
    while bits.len() < NB_BITS
        invariant
            h0@ == digest4(base_inputs@),
            h0.len() == 4,
            forall|i: int| 0 <= i < h0.len() ==> #[trigger] h0[i] < P,
            b0.len() == 256,
            b1 == words_bits(digest4(seq![1u64] + h0@)),
            ctr == 2 ==> b1.len() == 256,
            (ctr == 1 && bits@ == b0) || (ctr == 2 && bits@ == b0 + b1),
        decreases 2 - ctr,
    {
        let mut inp: Vec<u64> = Vec::with_capacity(5);
        inp.push(ctr);
        let mut k: usize = 0;
        while k < 4
            invariant
                k <= 4,
                h0.len() == 4,
                inp@ == seq![ctr] + h0@.take(k as int),
            decreases 4 - k,
        {
            inp.push(h0[k]);
            k = k + 1;
            assert(inp@ =~= seq![ctr] + h0@.take(k as int));
        }
        assert(h0@.take(4) =~= h0@);
        let hi = hash_no_pad(&inp);
        assert(hi@ =~= digest4(inp@));
        push_words_bits(&mut bits, &hi);
        proof {
            lemma_words_bits_len(hi@);
        }
        ctr = ctr + 1;
    }
    bits.truncate(NB_BITS);
    assert(bits@ =~= xof_bits(base_inputs@));
    bits
}

/// Four words make 256 bits.
pub proof fn lemma_words_bits_len(d: Seq<u64>)
    ensures
        words_bits(d).len() == 64 * d.len(),
    decreases d.len(),
{
    if d.len() > 0 {
        lemma_words_bits_len(d.drop_last());
    }
}

/// What a challenge is bound to, besides the nonce point.
pub enum Context<'a> {
    /// Authentication: a service identifier and a server nonce.
    Auth(&'a authentification::Context),
    /// Signature: a fixed-width encoded message.
    Sig(&'a signature::Context),
}

impl<'a> Context<'a> {
    pub open spec fn spec_public_key(&self) -> Point {
        match self {
            Context::Auth(c) => c.public_key.0,
            Context::Sig(c) => c.public_key.0,
        }
    }

    pub open spec fn tag(&self) -> u64 {
        match self {
            Context::Auth(_) => AUTH_TAG,
            Context::Sig(_) => SIG_TAG,
        }
    }

    /// The words after the tag, the nonce point and the public key.
    pub open spec fn payload(&self) -> Seq<u64> {
        match self {
            Context::Auth(c) => c.service@ + c.nonce@,
            Context::Sig(c) => c.message@,
        }
    }

    /// Every payload word and key coordinate is canonical.
    pub open spec fn wf(&self) -> bool {
        &&& self.spec_public_key().wf()
        &&& forall|i: int| 0 <= i < self.payload().len() ==> #[trigger] self.payload()[i] < P
    }

    pub fn public_key(&self) -> (r: Point)
        ensures
            r == self.spec_public_key(),
    {
        match self {
            Context::Auth(c) => c.public_key.0,
            Context::Sig(c) => c.public_key.0,
        }
    }
}

/// The words hashed for a challenge: tag, nonce point, public key, payload.
pub open spec fn transcript_input(nonce: Point, ctx: Context) -> Seq<u64> {
    seq![ctx.tag()] + point_words(nonce) + point_words(ctx.spec_public_key()) + ctx.payload()
}

/// The challenge bits for a nonce point in a context.
pub open spec fn challenge(nonce: Point, ctx: Context) -> Seq<bool> {
    xof_bits(transcript_input(nonce, ctx))
}

pub fn push_all(out: &mut Vec<u64>, v: &Vec<u64>)
    ensures
        final(out)@ == old(out)@ + v@,
{
    let ghost start = out@;
    let mut k: usize = 0;
    while k < v.len()
        invariant
            k <= v.len(),
            out@ == start + v@.take(k as int),
        decreases v.len() - k,
    {
        out.push(v[k]);
        k = k + 1;
        assert(out@ =~= start + v@.take(k as int));
    }
    assert(v@.take(v.len() as int) =~= v@);
}

/// The challenge for a nonce point in a context.
pub fn hash(nonce: &Point, ctx: &Context) -> (r: Vec<bool>)
    requires
        nonce.wf(),
        ctx.wf(),
    ensures
        r.len() == NB_BITS,
        r@ == challenge(*nonce, *ctx),
{
    let mut input: Vec<u64> = Vec::new();
    let tag = match ctx {
        Context::Auth(_) => AUTH_TAG,
        Context::Sig(_) => SIG_TAG,
    };
    input.push(tag);
    push_all(&mut input, &nonce.to_words());
    push_all(&mut input, &ctx.public_key().to_words());
    match ctx {
        Context::Auth(c) => {
            push_all(&mut input, &c.service);
            push_all(&mut input, &c.nonce);
        },
        Context::Sig(c) => {
            push_all(&mut input, &c.message);
        },
    }
    proof {
        assert(input@ =~= transcript_input(*nonce, *ctx));
        assert forall|i: int| 0 <= i < input.len() implies #[trigger] input[i] < P by {
            let k = point_words(*nonce);
            let pk = ctx.spec_public_key();
            lemma_point_words_canonical(*nonce);
            lemma_point_words_canonical(pk);
            if i >= 41 {
                assert(input[i] == ctx.payload()[i - 41]);
            } else if i >= 21 {
                assert(input[i] == point_words(pk)[i - 21]);
            } else if i >= 1 {
                assert(input[i] == k[i - 1]);
            }
        }
    }
    poseidon_xof_bits_native(&input)
}

/// The words of a well-formed point are canonical.
proof fn lemma_point_words_canonical(p: Point)
    requires
        p.wf(),
    ensures
        point_words(p).len() == 20,
        forall|i: int| 0 <= i < 20 ==> #[trigger] point_words(p)[i] < P,
{
    assert forall|i: int| 0 <= i < 20 implies #[trigger] point_words(p)[i] < P by {
        if i < 5 {
            assert(crate::field::canonical(p.x.0[i]));
        } else if i < 10 {
            assert(crate::field::canonical(p.z.0[i - 5]));
        } else if i < 15 {
            assert(crate::field::canonical(p.u.0[i - 10]));
        } else {
            assert(crate::field::canonical(p.t.0[i - 15]));
        }
    }
}

} // verus!
