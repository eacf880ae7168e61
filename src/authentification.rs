//! Authentication: a holder proves live possession of the secret key behind
//! a public key, bound to a service identifier and a server nonce.
use crate::encoding::{pack_bytes, packed_word, LEN_STRING};
use crate::keys::{PublicKey, RandomError, SecretKey};
use crate::schnorr::{is_proof_of, spec_verifies, SchnorrProof};
use crate::transcript;
use rand::rngs::StdRng;
use vstd::prelude::*;

verus! {

/// An authentication context: the holder's public key, the service
/// identifier and the server's nonce, each packed into `LEN_STRING` words.
pub struct Context {
    pub public_key: PublicKey,
    pub service: Vec<u64>,
    pub nonce: Vec<u64>,
}

/// A proof of possession of a secret key.
pub struct Authentification(pub SchnorrProof);

impl Context {
    pub open spec fn wf(&self) -> bool {
        &&& self.public_key.0.wf()
        &&& self.service.len() == LEN_STRING
        &&& self.nonce.len() == LEN_STRING
        &&& forall|i: int| 0 <= i < LEN_STRING ==> #[trigger] self.service[i] < 0x1_0000_0000
        &&& forall|i: int| 0 <= i < LEN_STRING ==> #[trigger] self.nonce[i] < 0x1_0000_0000
    }

    pub open spec fn spec_to_context(&self) -> transcript::Context<'_> {
        transcript::Context::Auth(self)
    }

    /// Packs the service identifier and the nonce (up to 20 bytes each; longer ones are cut).
    pub fn new(public_key: &PublicKey, service: &[u8], nonce: &[u8]) -> (r: Context)
        requires
            public_key.0.wf(),
        ensures
            r.wf(),
            r.public_key == *public_key,
            forall|k: int| 0 <= k < LEN_STRING ==> #[trigger] r.service[k] as int == packed_word(service@, k),
            forall|k: int| 0 <= k < LEN_STRING ==> #[trigger] r.nonce[k] as int == packed_word(nonce@, k),
    {
        Context {
            public_key: *public_key,
            service: pack_bytes(service, LEN_STRING),
            nonce: pack_bytes(nonce, LEN_STRING),
        }
    }

    pub fn public_key(&self) -> (r: PublicKey)
        ensures
            r == self.public_key,
    {
        self.public_key
    }

    /// The context as the transcript hashes it.
    pub fn to_context(&self) -> (r: transcript::Context<'_>)
        ensures
            r == transcript::Context::Auth(self),
    {
        transcript::Context::Auth(self)
    }
}

/// A well-formed authentication context hashes canonical words.
proof fn lemma_context_wf(c: &Context)
    requires
        c.wf(),
    ensures
        c.spec_to_context().wf(),
{
    let t = c.spec_to_context();
    assert forall|i: int| 0 <= i < t.payload().len() implies #[trigger] t.payload()[i] < crate::field::P by {
        if i < 5 {
            assert(t.payload()[i] == c.service[i]);
        } else {
            assert(t.payload()[i] == c.nonce[i - 5]);
        }
    }
}

impl Authentification {
    /// Proves possession of `sk` with a fresh nonce from the operating system.
    pub fn sign(sk: &SecretKey, ctx: &Context) -> (r: Result<Authentification, RandomError>)
        requires
            sk.wf(),
            ctx.wf(),
        ensures
            r is Ok ==> (r->Ok_0).0.wf() && is_proof_of(*sk, ctx.spec_to_context(), (r->Ok_0).0),
    {
        proof {
            lemma_context_wf(ctx);
        }
        match SchnorrProof::prove(sk, &ctx.to_context()) {
            Ok(p) => Ok(Authentification(p)),
            Err(e) => Err(e),
        }
    }

    /// Proves possession of `sk` with a nonce from a seeded generator.
    pub fn sign_with_rng(sk: &SecretKey, ctx: &Context, rng: &mut StdRng) -> (r: Option<Authentification>)
        requires
            sk.wf(),
            ctx.wf(),
        ensures
            r is Some ==> (r->Some_0).0.wf() && is_proof_of(*sk, ctx.spec_to_context(), (r->Some_0).0),
    {
        proof {
            lemma_context_wf(ctx);
        }
        match SchnorrProof::prove_with_rng(sk, &ctx.to_context(), rng) {
            Some(p) => Some(Authentification(p)),
            None => None,
        }
    }

    /// Accepts iff the proof satisfies the verification equation in this context.
    pub fn verify(&self, ctx: &Context) -> (r: bool)
        requires
            self.0.wf(),
            ctx.wf(),
        ensures
            r == spec_verifies(self.0, ctx.spec_to_context()),
    {
        proof {
            lemma_context_wf(ctx);
        }
        self.0.verify(&ctx.to_context())
    }
}

} // verus!
