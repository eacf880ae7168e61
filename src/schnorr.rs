//! Schnorr proofs of knowledge of a secret key, bound to a context by the
//! Fiat-Shamir transcript: `s G = R + e P` with `e = H(R, context)`.
use crate::curve::{pt, spec_add, spec_equals, spec_generator, spec_scalar_mul, Point};
use crate::keys::{os_random_scalar, random_scalar, RandomError, SecretKey, MAX_ATTEMPTS};
use crate::scalar::{lemma_mod_add_right_m, lemma_order_bounds, order, value_of, Scalar};
use crate::transcript::{challenge, hash, Context};
use rand::rngs::StdRng;
use vstd::prelude::*;

verus! {

/// A proof (or signature): the nonce point `R` and the response `s`.
pub struct SchnorrProof {
    pub r: Point,
    pub s: Scalar,
}

/// `p` is the proof that the nonce `k` yields for key `sk` in context `ctx`:
/// `R = k G` and `s = k + sk e mod order`, with `e` the challenge of `R`.
pub open spec fn proof_for_nonce(sk: SecretKey, ctx: Context, k: Seq<bool>, p: SchnorrProof) -> bool {
    &&& pt(p.r) == spec_scalar_mul(spec_generator(), k)
    &&& p.s.value() == (value_of(k) + sk.0.value() * value_of(challenge(p.r, ctx))) % order()
}

/// `p` is the proof of some nonce for key `sk` in context `ctx`.
pub open spec fn is_proof_of(sk: SecretKey, ctx: Context, p: SchnorrProof) -> bool {
    exists|k: Seq<bool>| #[trigger] proof_for_nonce(sk, ctx, k, p)
}

/// The verification equation `s G == R + e P`, compared as points.
pub open spec fn spec_verifies(p: SchnorrProof, ctx: Context) -> bool {
    spec_equals(
        spec_scalar_mul(spec_generator(), p.s.bits@),
        spec_add(pt(p.r), spec_scalar_mul(pt(ctx.spec_public_key()), challenge(p.r, ctx))),
    )
}

/// The response `k + sk e mod order`.
pub fn respond(sk: &SecretKey, k: &Scalar, e: &Vec<bool>) -> (s: Scalar)
    requires
        sk.wf(),
        k.wf(),
    ensures
        s.wf(),
        s.value() == (k.value() + sk.0.value() * value_of(e@)) % order(),
{
    let se = sk.0.mul_bits(e);
    proof {
        lemma_order_bounds();
        lemma_mod_add_right_m(k.value() as int, (sk.0.value() * value_of(e@)) as int, order() as int);
    }
    k.add(&se)
}

impl SchnorrProof {
    pub open spec fn wf(&self) -> bool {
        self.r.wf() && self.s.wf()
    }

    /// The proof for the nonce `k`; `None` exactly when the response is zero.
    pub fn prove_with_nonce(sk: &SecretKey, ctx: &Context, k: &Scalar) -> (r: Option<SchnorrProof>)
        requires
            sk.wf(),
            ctx.wf(),
            k.wf(),
        ensures
            r.is_some() ==> r.unwrap().wf() && r.unwrap().s.value() != 0 && proof_for_nonce(
                *sk,
                *ctx,
                k.bits@,
                r.unwrap(),
            ),
            r.is_none() ==> exists|p: SchnorrProof|
                #[trigger] proof_for_nonce(*sk, *ctx, k.bits@, p) && p.s.value() == 0,
    {
        let r = Point::mulgen(k);
        let e = hash(&r, ctx);
        let s = respond(sk, k, &e);
        if s.is_zero() {
            let p = SchnorrProof { r, s };
            assert(proof_for_nonce(*sk, *ctx, k.bits@, p));
            None
        } else {
            Some(SchnorrProof { r, s })
        }
    }

    /// A proof with a fresh nonce from the operating system's generator.
    pub fn prove(sk: &SecretKey, ctx: &Context) -> (r: Result<SchnorrProof, RandomError>)
        requires
            sk.wf(),
            ctx.wf(),
        ensures
            r.is_ok() ==> r.unwrap().wf(),
            r.is_ok() ==> r.unwrap().s.value() != 0,
            r.is_ok() ==> is_proof_of(*sk, *ctx, r->Ok_0),
    {
        let mut attempt: usize = 0;
        while attempt < MAX_ATTEMPTS
            invariant
                sk.wf(),
                ctx.wf(),
            decreases MAX_ATTEMPTS - attempt,
        {
            let k = match os_random_scalar() {
                Ok(k) => k,
                Err(e) => return Err(e),
            };
            if let Some(p) = SchnorrProof::prove_with_nonce(sk, ctx, &k) {
                assert(proof_for_nonce(*sk, *ctx, k.bits@, p));
                assert(is_proof_of(*sk, *ctx, p));
                return Ok(p);
            }
            attempt = attempt + 1;
        }
        Err(RandomError::Exhausted)
    }

    /// A proof with a nonce drawn from a seeded generator.
    pub fn prove_with_rng(sk: &SecretKey, ctx: &Context, rng: &mut StdRng) -> (r: Option<SchnorrProof>)
        requires
            sk.wf(),
            ctx.wf(),
        ensures
            r.is_some() ==> r.unwrap().wf() && r.unwrap().s.value() != 0 && is_proof_of(
                *sk,
                *ctx,
                r.unwrap(),
            ),
    {
        let mut attempt: usize = 0;
        while attempt < MAX_ATTEMPTS
            invariant
                sk.wf(),
                ctx.wf(),
            decreases MAX_ATTEMPTS - attempt,
        {
            let k = match random_scalar(rng) {
                Some(k) => k,
                None => return None,
            };
            if let Some(p) = SchnorrProof::prove_with_nonce(sk, ctx, &k) {
                assert(proof_for_nonce(*sk, *ctx, k.bits@, p));
                assert(is_proof_of(*sk, *ctx, p));
                return Some(p);
            }
            attempt = attempt + 1;
        }
        None
    }

    /// Accepts iff `s G == R + e P`, with `e` recomputed from `R` and the context.
    pub fn verify(&self, ctx: &Context) -> (r: bool)
        requires
            self.wf(),
            ctx.wf(),
        ensures
            r == spec_verifies(*self, *ctx),
    {
        let pk = ctx.public_key();
        let e = hash(&self.r, ctx);
        let gs = Point::mulgen(&self.s);
        let gr = self.r.add(&pk.scalar_mul_bits(&e));
        gs.equals(&gr)
    }
}

} // verus!
