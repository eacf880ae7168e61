//! Signatures: Schnorr proofs over a fixed-width encoded message, made by
//! an issuer over the credentials it hands out.
use crate::encoding::{pack_bytes, packed_word};
use crate::field::P;
use crate::keys::{PublicKey, RandomError, SecretKey};
use crate::schnorr::{is_proof_of, spec_verifies, SchnorrProof};
use crate::transcript;
use crate::transcript::push_all;
use rand::rngs::StdRng;
use vstd::prelude::*;

verus! {

/// A signing context: the signer's public key and the message words.
pub struct Context {
    pub public_key: PublicKey,
    pub message: Vec<u64>,
}

/// A signature.
pub struct Signature(pub SchnorrProof);

impl Context {
    pub open spec fn wf(&self) -> bool {
        &&& self.public_key.0.wf()
        &&& forall|i: int| 0 <= i < self.message.len() ==> #[trigger] self.message[i] < P
    }

    /// The transcript context this signing context hashes as.
    pub open spec fn spec_to_context(&self) -> transcript::Context<'_> {
        transcript::Context::Sig(self)
    }

    /// A context over message words, each reduced modulo p.
    pub fn new(public_key: &PublicKey, message: &Vec<u64>) -> (r: Context)
        requires
            public_key.0.wf(),
        ensures
            r.wf(),
            r.public_key == *public_key,
            r.message.len() == message.len(),
            forall|i: int| 0 <= i < message.len() ==> #[trigger] r.message[i] == message[i] % P,
    {
        let mut words: Vec<u64> = Vec::with_capacity(message.len());
        let mut i: usize = 0;
        while i < message.len()
            invariant
                i <= message.len(),
                words.len() == i,
                forall|j: int| 0 <= j < i ==> #[trigger] words[j] == message[j] % P,
            decreases message.len() - i,
        {
            words.push(message[i] % P);
            i = i + 1;
        }
        Context { public_key: *public_key, message: words }
    }

    /// A context over a byte string: its length, then its bytes packed four per word.
    pub fn from_bytes(public_key: &PublicKey, bytes: &[u8]) -> (r: Context)
        requires
            public_key.0.wf(),
            bytes.len() < 0x1000_0000,
        ensures
            r.wf(),
            r.public_key == *public_key,
            r.message.len() == 1 + (bytes.len() + 3) / 4,
            r.message[0] == bytes.len(),
            forall|k: int| 0 <= k < (bytes.len() + 3) / 4 ==> #[trigger] r.message[k + 1] as int
                == packed_word(bytes@, k),
    {
        let n = (bytes.len() + 3) / 4;
        let packed = pack_bytes(bytes, n);
        let mut words: Vec<u64> = Vec::with_capacity(n + 1);
        words.push(bytes.len() as u64);
        push_all(&mut words, &packed);
        proof {
            assert forall|i: int| 0 <= i < words.len() implies #[trigger] words[i] < P by {
                if i > 0 {
                    assert(words[i] == packed[i - 1]);
                }
            }
            assert forall|k: int| 0 <= k < n implies #[trigger] words[k + 1] as int == packed_word(bytes@, k) by {
                assert(words[k + 1] == packed[k]);
            }
        }
        Context { public_key: *public_key, message: words }
    }

    pub fn public_key(&self) -> (r: PublicKey)
        ensures
            r == self.public_key,
    {
        self.public_key
    }

    pub fn message(&self) -> (r: Vec<u64>)
        ensures
            r@ == self.message@,
    {
        let mut r: Vec<u64> = Vec::new();
        push_all(&mut r, &self.message);
        r
    }

    /// The context as the transcript hashes it.
    pub fn to_context(&self) -> (r: transcript::Context<'_>)
        ensures
            r == transcript::Context::Sig(self),
    {
        transcript::Context::Sig(self)
    }
}

impl Signature {
    /// Signs with a fresh nonce from the operating system's generator.
    pub fn sign(sk: &SecretKey, ctx: &Context) -> (r: Result<Signature, RandomError>)
        requires
            sk.wf(),
            ctx.wf(),
        ensures
            r is Ok ==> (r->Ok_0).0.wf() && is_proof_of(*sk, ctx.spec_to_context(), (r->Ok_0).0),
    {
        let c = ctx.to_context();
        assert(c.payload() == ctx.message@);
        match SchnorrProof::prove(sk, &c) {
            Ok(p) => Ok(Signature(p)),
            Err(e) => Err(e),
        }
    }

    /// Signs with a nonce from a seeded generator.
    pub fn sign_with_rng(sk: &SecretKey, ctx: &Context, rng: &mut StdRng) -> (r: Option<Signature>)
        requires
            sk.wf(),
            ctx.wf(),
        ensures
            r is Some ==> (r->Some_0).0.wf() && is_proof_of(*sk, ctx.spec_to_context(), (r->Some_0).0),
    {
        let c = ctx.to_context();
        assert(c.payload() == ctx.message@);
        match SchnorrProof::prove_with_rng(sk, &c, rng) {
            Some(p) => Some(Signature(p)),
            None => None,
        }
    }

    /// Accepts iff the signature satisfies the verification equation in this context.
    pub fn verify(&self, ctx: &Context) -> (r: bool)
        requires
            self.0.wf(),
            ctx.wf(),
        ensures
            r == spec_verifies(self.0, ctx.spec_to_context()),
    {
        let c = ctx.to_context();
        assert(c.payload() == ctx.message@);
        self.0.verify(&c)
    }
}

} // verus!
