//! The authentication circuit: a Schnorr proof of possession, bound to a
//! service identifier and a server nonce, checked over wires.
use crate::circuit::{b01, extends, lemma_extends_trans_all, Builder, Constraint, Gate};
use crate::curve::{spec_equals, spec_neg, spec_shamir_from};
use crate::gfp5_gadget::v;
use crate::curve_gadget::{
    all_bits, bools, fresh_point, point_wire_seq, has_all, has_pt, lemma_point_facts_extend, on_curve_checked, pt4, reduced,
    PointTarget,
};
use crate::scalar_gadget::{fresh_bits, range_checked};
use crate::encoding::LEN_STRING;
use crate::policy::{point_wires, SignatureTarget};
use crate::scalar::NB_BITS;
use crate::transcript::{xof_bits, AUTH_TAG};
use crate::transcript_gadget::words_of;
use vstd::prelude::*;

verus! {

/// The words the authentication transcript hashes: tag, nonce point,
/// public key, service, server nonce.
pub open spec fn auth_transcript(gs: Seq<Gate>, inp: Seq<int>, ctx: &AuthContextTarget, auth: &SignatureTarget) -> Seq<u64> {
    seq![AUTH_TAG] + words_of(gs, inp, point_wire_seq(auth.r)) + words_of(gs, inp, point_wire_seq(ctx.public_key))
        + words_of(gs, inp, ctx.service@) + words_of(gs, inp, ctx.nonce@)
}

/// The constraints a Schnorr target adds after position `n0`: the nonce
/// point's curve check, one bit check per response bit, and the response's
/// range check.
pub open spec fn schnorr_constraints(gs: Seq<Gate>, cs: Seq<Constraint>, n0: int, t: SignatureTarget) -> bool {
    &&& cs.len() == n0 + NB_BITS + 2
    &&& on_curve_checked(gs, t.r, cs[n0])
    &&& forall|i: int| 0 <= i < NB_BITS ==> #[trigger] cs[n0 + 1 + i] == Constraint::AssertBool(t.s@[i])
    &&& range_checked(gs, t.s@, cs[n0 + NB_BITS + 1])
}

/// An authentication context in a circuit.
pub struct AuthContextTarget {
    pub public_key: PointTarget,
    pub service: Vec<usize>,
    pub nonce: Vec<usize>,
}

impl Builder {
    /// A nonce point on the curve and a range-checked response: 20 fresh
    /// input wires for the point, its curve check, then the response's
    /// fresh bit wires, one bit check each, and its range check.
    pub fn add_virtual_schnorr_target(&mut self) -> (r: SignatureTarget)
        requires
            old(self).wf(),
        ensures
            old(self).grows_to(*final(self)),
            has_pt(*final(self), r.r),
            has_all(*final(self), r.s@),
            r.s.len() == NB_BITS,
            fresh_point(final(self).gates@, r.r, old(self).gates.len() as int),
            r.s@[0] >= old(self).gates.len() + 20,
            fresh_bits(final(self).gates@, r.s@, r.s@[0] as int),
            schnorr_constraints(final(self).gates@, final(self).constraints@, old(self).constraints@.len() as int, r),
    {
        let ghost g0 = *self;
        let r = self.add_virtual_point_target();
        let ghost g1 = *self;
        let (s, lt) = self.add_virtual_scalar_target();
        proof {
            lemma_extends_trans_all();
            assert(self.constraints@.subrange(0, g1.constraints@.len() as int) =~= g1.constraints@);
            assert(self.constraints@.subrange(0, g0.constraints@.len() as int) =~= g0.constraints@);
            lemma_point_facts_extend(g1.gates@, self.gates@, r, g1.constraints@.last(), g0.gates.len() as int);
            assert(s@[0] == g1.gates.len());
            assert(point_wire_seq(r)[19] == g0.gates.len() + 19);
            let n0 = g0.constraints@.len() as int;
            let cs = self.constraints@;
            assert(cs[n0] == g1.constraints@.last());
            assert forall|i: int| 0 <= i < NB_BITS implies #[trigger] cs[n0 + 1 + i] == Constraint::AssertBool(s@[i]) by {}
            assert(range_checked(self.gates@, s@, cs[n0 + NB_BITS + 1]));
        }
        SignatureTarget { r, s }
    }

    /// Fresh wires for a public key on the curve and two packed strings.
    pub fn add_virtual_authentification_context_target(&mut self) -> (r: AuthContextTarget)
        requires
            old(self).wf(),
        ensures
            old(self).grows_to(*final(self)),
            has_pt(*final(self), r.public_key),
            has_all(*final(self), r.service@),
            has_all(*final(self), r.nonce@),
            r.service.len() == LEN_STRING,
            r.nonce.len() == LEN_STRING,
            fresh_point(final(self).gates@, r.public_key, old(self).gates.len() as int),
            final(self).constraints@.len() == old(self).constraints@.len() + 1,
            final(self).constraints@.drop_last() == old(self).constraints@,
            on_curve_checked(final(self).gates@, r.public_key, final(self).constraints@.last()),
            r.service@[0] >= old(self).gates.len() + 20,
            forall|k: int| 0 <= k < LEN_STRING ==> #[trigger] r.service@[k] == r.service@[0] + 2 * k
                && final(self).gates@[r.service@[k] as int] is Input,
            forall|k: int| 0 <= k < LEN_STRING ==> #[trigger] r.nonce@[k] == r.service@[0] + 2 * k + 1
                && final(self).gates@[r.nonce@[k] as int] is Input,
    {
        let ghost g0 = *self;
        let public_key = self.add_virtual_point_target();
        let ghost g1 = *self;
        let mut service: Vec<usize> = Vec::with_capacity(LEN_STRING);
        let mut nonce: Vec<usize> = Vec::with_capacity(LEN_STRING);
        let mut k: usize = 0;
        proof {
            crate::circuit::lemma_extends_refl(self.gates@);
        }
        while k < LEN_STRING
            invariant
                k <= LEN_STRING,
                self.wf(),
                extends(g1.gates@, self.gates@),
                self.constraints@ == g1.constraints@,
                service.len() == k,
                nonce.len() == k,
                has_all(*self, service@),
                has_all(*self, nonce@),
                self.gates.len() == g1.gates.len() + 2 * k,
                forall|j: int| 0 <= j < k ==> #[trigger] service@[j] == g1.gates.len() + 2 * j
                    && self.gates@[service@[j] as int] is Input,
                forall|j: int| 0 <= j < k ==> #[trigger] nonce@[j] == g1.gates.len() + 2 * j + 1
                    && self.gates@[nonce@[j] as int] is Input,
            decreases LEN_STRING - k,
        {
            let ghost h = self.gates@;
            let a = self.add_virtual_target();
            let b = self.add_virtual_target();
            service.push(a);
            nonce.push(b);
            k = k + 1;
            proof {
                lemma_extends_trans_all();
                assert forall|j: int| 0 <= j < k implies #[trigger] service@[j] == g1.gates.len() + 2 * j
                    && self.gates@[service@[j] as int] is Input by {
                    if j < k - 1 {
                        crate::circuit::lemma_extends_gate(h, self.gates@, service@[j] as int);
                    }
                }
                assert forall|j: int| 0 <= j < k implies #[trigger] nonce@[j] == g1.gates.len() + 2 * j + 1
                    && self.gates@[nonce@[j] as int] is Input by {
                    if j < k - 1 {
                        crate::circuit::lemma_extends_gate(h, self.gates@, nonce@[j] as int);
                    }
                }
            }
        }
        proof {
            lemma_extends_trans_all();
            assert(self.constraints@.subrange(0, g0.constraints@.len() as int) =~= g0.constraints@);
            lemma_point_facts_extend(g1.gates@, self.gates@, public_key, g1.constraints@.last(), g0.gates.len() as int);
            assert(point_wire_seq(public_key)[19] == g0.gates.len() + 19);
        }
        AuthContextTarget { public_key, service, nonce }
    }

    /// The authentication challenge over wires, with the native transcript
    /// layout: tag, nonce point, public key, service, server nonce.
    pub fn hash_authentification(&mut self, ctx: &AuthContextTarget, auth: &SignatureTarget) -> (e: Vec<usize>)
        requires
            old(self).wf(),
            has_pt(*old(self), ctx.public_key),
            has_pt(*old(self), auth.r),
            has_all(*old(self), ctx.service@),
            has_all(*old(self), ctx.nonce@),
        ensures
            old(self).grows_to(*final(self)),
            final(self).constraints@ == old(self).constraints@,
            e.len() == NB_BITS,
            has_all(*final(self), e@),
            exists|base: Seq<usize>|
                {
                    &&& has_all(*final(self), base)
                    &&& forall|gs: Seq<Gate>, inp: Seq<int>|
                        extends(final(self).gates@, gs) ==> #[trigger] words_of(gs, inp, base) == seq![AUTH_TAG]
                            + words_of(gs, inp, point_wire_seq(auth.r)) + words_of(gs, inp, point_wire_seq(ctx.public_key))
                            + words_of(gs, inp, ctx.service@) + words_of(gs, inp, ctx.nonce@)
                    &&& forall|gs: Seq<Gate>, inp: Seq<int>|
                        extends(final(self).gates@, gs) ==> #[trigger] bools(gs, inp, e@) == xof_bits(words_of(gs, inp, base))
                    &&& forall|gs: Seq<Gate>, inp: Seq<int>|
                        extends(final(self).gates@, gs) ==> #[trigger] all_bits(gs, inp, e@)
                },
    {
        let tag = self.constant(AUTH_TAG);
        let ghost g1 = self.gates@;
        let mut base: Vec<usize> = Vec::new();
        base.push(tag);
        let rw = point_wires(&auth.r);
        append(&mut base, &rw);
        let pkw = point_wires(&ctx.public_key);
        append(&mut base, &pkw);
        append(&mut base, &ctx.service);
        append(&mut base, &ctx.nonce);
        proof {
            let s = seq![tag] + point_wire_seq(auth.r) + point_wire_seq(ctx.public_key) + ctx.service@ + ctx.nonce@;
            assert(base@ =~= s);
            assert(has_all(*self, base@)) by {
                let r = auth.r;
                let q = ctx.public_key;
                let n1 = 41 + ctx.service.len();
                assert forall|i: int| 0 <= i < base.len() implies #[trigger] base@[i] < self.gates.len() by {
                    if i == 0 {
                    } else if i < 21 {
                        let j = i - 1;
                        if j < 5 { assert(base@[i] == r.x.0[j]); } else if j < 10 { assert(base@[i] == r.z.0[j - 5]); } else if j < 15 { assert(base@[i] == r.u.0[j - 10]); } else { assert(base@[i] == r.t.0[j - 15]); }
                    } else if i < 41 {
                        let j = i - 21;
                        if j < 5 { assert(base@[i] == q.x.0[j]); } else if j < 10 { assert(base@[i] == q.z.0[j - 5]); } else if j < 15 { assert(base@[i] == q.u.0[j - 10]); } else { assert(base@[i] == q.t.0[j - 15]); }
                    } else if i < n1 {
                        assert(base@[i] == ctx.service@[i - 41]);
                    } else {
                        assert(base@[i] == ctx.nonce@[i - n1]);
                    }
                }
            }
        }
        let e = self.hash_challenge(&base);
        proof {
            lemma_extends_trans_all();
            let b = base@;
            assert forall|gs: Seq<Gate>, inp: Seq<int>| extends(self.gates@, gs) implies #[trigger] words_of(gs, inp, b) == seq![AUTH_TAG]
                + words_of(gs, inp, point_wire_seq(auth.r)) + words_of(gs, inp, point_wire_seq(ctx.public_key))
                + words_of(gs, inp, ctx.service@) + words_of(gs, inp, ctx.nonce@) by {
                assert(extends(g1, gs));
                assert(crate::gfp5_gadget::v(gs, inp, tag) == AUTH_TAG);
                assert(words_of(gs, inp, b) =~= seq![AUTH_TAG] + words_of(gs, inp, point_wire_seq(auth.r)) + words_of(gs, inp, point_wire_seq(ctx.public_key))
                    + words_of(gs, inp, ctx.service@) + words_of(gs, inp, ctx.nonce@));
            }
            assert({
                &&& has_all(*self, b)
                &&& forall|gs: Seq<Gate>, inp: Seq<int>|
                    extends(self.gates@, gs) ==> #[trigger] words_of(gs, inp, b) == seq![AUTH_TAG]
                        + words_of(gs, inp, point_wire_seq(auth.r)) + words_of(gs, inp, point_wire_seq(ctx.public_key))
                        + words_of(gs, inp, ctx.service@) + words_of(gs, inp, ctx.nonce@)
                &&& forall|gs: Seq<Gate>, inp: Seq<int>|
                    extends(self.gates@, gs) ==> #[trigger] bools(gs, inp, e@) == xof_bits(words_of(gs, inp, b))
                &&& forall|gs: Seq<Gate>, inp: Seq<int>|
                    extends(self.gates@, gs) ==> #[trigger] all_bits(gs, inp, e@)
            });
        }
        e
    }

    /// Constrains the proof of possession to verify in the context.
    pub fn verify_authentification(&mut self, ctx: &AuthContextTarget, auth: &SignatureTarget) -> (ok: usize)
        requires
            old(self).wf(),
            has_pt(*old(self), ctx.public_key),
            has_pt(*old(self), auth.r),
            has_all(*old(self), ctx.service@),
            has_all(*old(self), ctx.nonce@),
            has_all(*old(self), auth.s@),
            auth.s.len() == NB_BITS,
        ensures
            old(self).grows_to(*final(self)),
            final(self).constraints@ == old(self).constraints@.push(Constraint::AssertOne(ok)),
            forall|gs: Seq<Gate>, inp: Seq<int>|
                extends(final(self).gates@, gs) && all_bits(gs, inp, auth.s@) && reduced(pt4(gs, inp, ctx.public_key))
                    ==> #[trigger] v(gs, inp, ok) == b01(spec_equals(
                    spec_shamir_from(
                        bools(gs, inp, auth.s@),
                        xof_bits(auth_transcript(gs, inp, ctx, auth)),
                        spec_neg(pt4(gs, inp, ctx.public_key)),
                        0,
                    ),
                    pt4(gs, inp, auth.r),
                )),
    {
        let e = self.hash_authentification(ctx, auth);
        let ghost g1 = self.gates@;
        let ok = self.schnorr_final_verification(&auth.s, &e, ctx.public_key, auth.r);
        proof {
            lemma_extends_trans_all();
            assert(self.constraints@.subrange(0, old(self).constraints@.len() as int) =~= old(self).constraints@);
            let base = choose|base: Seq<usize>|
                {
                    &&& has_all(*self, base)
                    &&& forall|gs: Seq<Gate>, inp: Seq<int>|
                        extends(g1, gs) ==> #[trigger] words_of(gs, inp, base) == auth_transcript(gs, inp, ctx, auth)
                    &&& forall|gs: Seq<Gate>, inp: Seq<int>|
                        extends(g1, gs) ==> #[trigger] bools(gs, inp, e@) == xof_bits(words_of(gs, inp, base))
                    &&& forall|gs: Seq<Gate>, inp: Seq<int>|
                        extends(g1, gs) ==> #[trigger] all_bits(gs, inp, e@)
                };
            assert forall|gs: Seq<Gate>, inp: Seq<int>|
                extends(self.gates@, gs) && all_bits(gs, inp, auth.s@) && reduced(pt4(gs, inp, ctx.public_key))
                implies #[trigger] v(gs, inp, ok) == b01(spec_equals(
                spec_shamir_from(
                    bools(gs, inp, auth.s@),
                    xof_bits(auth_transcript(gs, inp, ctx, auth)),
                    spec_neg(pt4(gs, inp, ctx.public_key)),
                    0,
                ),
                pt4(gs, inp, auth.r),
            )) by {
                assert(extends(g1, gs));
                assert(all_bits(gs, inp, e@));
                assert(bools(gs, inp, e@) == xof_bits(auth_transcript(gs, inp, ctx, auth)));
            }
        }
        ok
    }
}

fn append(out: &mut Vec<usize>, v: &Vec<usize>)
    ensures
        final(out)@ == old(out)@ + v@,
{
    let ghost start = out@;
    let mut k: usize = 0;
    while k < v.len()
        invariant
            k <= v.len(),
            out@ == start + v@.take(k as int),
        decreases v.len() - k,
    {
        out.push(v[k]);
        k = k + 1;
        assert(out@ =~= start + v@.take(k as int));
    }
    assert(v@.take(v.len() as int) =~= v@);
}

} // verus!
