//! The credential-policy circuit: a credential signed by the issuer whose
//! key is public, with a birth date at or before a public cutoff day. Also
//! the witness that an honest holder assigns to it.
use crate::circuit::{
    assignment, b01, extends, holds, inputs_of, keeps, lemma_extends_trans_all, Builder, Constraint, Gate,
    Witness, WitnessError,
};
use crate::curve::{spec_equals, spec_neg, spec_shamir_from};
use crate::curve::Point;
use crate::curve_gadget::{
    all_bits, bools, fresh_point, has_all, has_pt, lemma_point_facts_extend, on_curve_checked, point_wire_seq, pt4,
    reduced, PointTarget,
};
use crate::encoding::{PublicInputs, LEN_CREDENTIAL, LEN_PASSPORT_NUMBER, LEN_STRING};
use crate::field::P;
use crate::gfp5::GFp5;
use crate::gfp5_gadget::GFp5Target;
use crate::scalar::{Scalar, NB_BITS};
use crate::scalar_gadget::{fresh_bits, range_checked};
use crate::transcript::{xof_bits, SIG_TAG};
use crate::transcript_gadget::words_of;
use vstd::prelude::*;

verus! {

/// The 20 wires of a point, in the order X, Z, U, T.
pub fn point_wires(q: &PointTarget) -> (r: Vec<usize>)
    ensures
        r@ == point_wire_seq(*q),
{
    let mut r: Vec<usize> = Vec::with_capacity(20);
    let mut k: usize = 0;
    while k < 20
        invariant
            k <= 20,
            r@ == point_wire_seq(*q).take(k as int),
        decreases 20 - k,
    {
        let w = if k < 5 {
            q.x.0[k]
        } else if k < 10 {
            q.z.0[k - 5]
        } else if k < 15 {
            q.u.0[k - 10]
        } else {
            q.t.0[k - 15]
        };
        r.push(w);
        k = k + 1;
        assert(r@ =~= point_wire_seq(*q).take(k as int));
    }
    assert(point_wire_seq(*q).take(20) =~= point_wire_seq(*q));
    r
}

/// A credential in a circuit: its 42 words, the last 20 being the issuer's key.
pub struct CredentialTarget {
    /// First name, family name, place of birth, passport number, birth date,
    /// expiration date, gender, nationality: 22 wires.
    pub fields: Vec<usize>,
    pub issuer: PointTarget,
}

/// A signature in a circuit: the nonce point and the bits of the response.
pub struct SignatureTarget {
    pub r: PointTarget,
    pub s: Vec<usize>,
}

/// Position of the birth date among the credential's fields.
pub const POS_BIRTH_DATE: usize = 3 * LEN_STRING + LEN_PASSPORT_NUMBER;

/// Position of the gender bit among the credential's fields.
pub const POS_GENDER: usize = POS_BIRTH_DATE + 2;

/// Position of the nationality code among the credential's fields.
pub const POS_NATIONALITY: usize = POS_BIRTH_DATE + 3;

/// Number of credential fields before the issuer's key.
pub const LEN_FIELDS: usize = POS_BIRTH_DATE + 4;

/// The words the signature transcript hashes: tag, nonce point, issuer's
/// key, then the credential's words.
pub open spec fn signature_transcript(gs: Seq<Gate>, inp: Seq<int>, credential: &CredentialTarget, signature: &SignatureTarget) -> Seq<u64> {
    seq![SIG_TAG] + words_of(gs, inp, point_wire_seq(signature.r)) + words_of(gs, inp, point_wire_seq(credential.issuer))
        + words_of(gs, inp, credential.word_seq())
}

impl CredentialTarget {
    /// The credential's 42 words in their encoded order.
    pub open spec fn word_seq(&self) -> Seq<usize> {
        self.fields@ + point_wire_seq(self.issuer)
    }
}

/// The public inputs of the policy circuit, as wires.
pub struct PublicTargets {
    pub nationality: usize,
    pub cutoff18_days: usize,
    pub issuer_pk: PointTarget,
}

/// The finished policy circuit and the wires of its inputs.
pub struct Circuit {
    pub builder: Builder,
    pub public_inputs: PublicTargets,
    pub credential: CredentialTarget,
    pub signature: SignatureTarget,
    /// The constant wire that the nationality wire is connected to.
    pub nationality_code: usize,
    /// The wire holding `cutoff - birth_date`, range-checked to 32 bits.
    pub age_margin: usize,
    /// The wire that the signature check constrains to one.
    pub signature_ok: usize,
}

impl Builder {
    /// Fresh input wires for a credential: 22 field wires, the gender one
    /// constrained to a bit, then the issuer's key constrained to the curve.
    pub fn add_virtual_credential_target(&mut self) -> (r: CredentialTarget)
        requires
            old(self).wf(),
        ensures
            old(self).grows_to(*final(self)),
            r.fields.len() == LEN_FIELDS,
            has_all(*final(self), r.fields@),
            has_pt(*final(self), r.issuer),
            forall|k: int| 0 <= k < LEN_FIELDS ==> #[trigger] r.fields@[k] == old(self).gates.len() + k
                && final(self).gates@[old(self).gates.len() + k] is Input,
            fresh_point(final(self).gates@, r.issuer, old(self).gates.len() + LEN_FIELDS),
            final(self).constraints@.len() == old(self).constraints@.len() + 2,
            final(self).constraints@.subrange(0, old(self).constraints@.len() as int) == old(self).constraints@,
            final(self).constraints@[old(self).constraints@.len() as int] == Constraint::AssertBool(
                r.fields@[POS_GENDER as int],
            ),
            on_curve_checked(final(self).gates@, r.issuer, final(self).constraints@.last()),
    {
        let ghost g0 = *self;
        let mut fields: Vec<usize> = Vec::with_capacity(LEN_FIELDS);
        let mut k: usize = 0;
        proof {
            crate::circuit::lemma_extends_refl(self.gates@);
            assert(self.constraints@.subrange(0, self.constraints@.len() as int) =~= self.constraints@);
        }
        while k < LEN_FIELDS
            invariant
                k <= LEN_FIELDS,
                fields.len() == k,
                self.wf(),
                old(self).grows_to(*self),
                has_all(*self, fields@),
                self.gates.len() == g0.gates.len() + k,
                forall|j: int| 0 <= j < k ==> #[trigger] fields@[j] == g0.gates.len() + j,
                forall|i: int| g0.gates.len() <= i < g0.gates.len() + k ==> (#[trigger] self.gates@[i]) is Input,
                self.constraints@ == if k > POS_GENDER {
                    g0.constraints@.push(Constraint::AssertBool(fields@[POS_GENDER as int]))
                } else {
                    g0.constraints@
                },
            decreases LEN_FIELDS - k,
        {
            let ghost h = self.gates@;
            let ghost f0 = fields@;
            let w = self.add_virtual_target();
            if k == POS_GENDER {
                self.add_constraint(Constraint::AssertBool(w));
            }
            fields.push(w);
            k = k + 1;
            proof {
                lemma_extends_trans_all();
                assert(self.constraints@.subrange(0, old(self).constraints@.len() as int) =~= old(self).constraints@);
                assert(self.gates@ == h.push(Gate::Input));
                assert forall|i: int| g0.gates.len() <= i < g0.gates.len() + k implies (#[trigger] self.gates@[i]) is Input by {
                    if i < h.len() {
                        assert(self.gates@[i] == h[i]);
                    }
                }
                assert(fields@ == f0.push(w));
            }
        }
        let ghost g1 = *self;
        let issuer = self.add_virtual_point_target();
        proof {
            lemma_extends_trans_all();
            assert(self.constraints@.subrange(0, old(self).constraints@.len() as int) =~= old(self).constraints@);
            assert forall|k: int| 0 <= k < LEN_FIELDS implies #[trigger] fields@[k] == g0.gates.len() + k
                && self.gates@[g0.gates.len() + k] is Input by {
                assert(g1.gates@[g0.gates.len() + k] is Input);
                crate::circuit::lemma_extends_gate(g1.gates@, self.gates@, g0.gates.len() + k);
            }
            let n0 = g0.constraints@.len() as int;
            assert(g1.constraints@[n0] == Constraint::AssertBool(fields@[POS_GENDER as int]));
            assert(self.constraints@.drop_last()[n0] == self.constraints@[n0]);
        }
        CredentialTarget { fields, issuer }
    }

    /// The signature challenge over wires, with the native transcript
    /// layout: tag, nonce point, issuer's key, then the credential's words.
    pub fn signature_challenge(&mut self, credential: &CredentialTarget, signature: &SignatureTarget) -> (e: Vec<usize>)
        requires
            old(self).wf(),
            credential.fields.len() == LEN_FIELDS,
            has_all(*old(self), credential.fields@),
            has_pt(*old(self), credential.issuer),
            has_pt(*old(self), signature.r),
        ensures
            old(self).grows_to(*final(self)),
            final(self).constraints@ == old(self).constraints@,
            e.len() == NB_BITS,
            has_all(*final(self), e@),
            exists|base: Seq<usize>|
                {
                    &&& has_all(*final(self), base)
                    &&& forall|gs: Seq<Gate>, inp: Seq<int>|
                        extends(final(self).gates@, gs) ==> #[trigger] words_of(gs, inp, base) == seq![SIG_TAG]
                            + words_of(gs, inp, point_wire_seq(signature.r)) + words_of(
                            gs,
                            inp,
                            point_wire_seq(credential.issuer),
                        ) + words_of(gs, inp, credential.word_seq())
                    &&& forall|gs: Seq<Gate>, inp: Seq<int>|
                        extends(final(self).gates@, gs) ==> #[trigger] bools(gs, inp, e@) == xof_bits(words_of(gs, inp, base))
                    &&& forall|gs: Seq<Gate>, inp: Seq<int>|
                        extends(final(self).gates@, gs) ==> #[trigger] all_bits(gs, inp, e@)
                },
    {
        let tag = self.constant(SIG_TAG);
        let ghost g1 = self.gates@;
        let mut base: Vec<usize> = Vec::new();
        base.push(tag);
        let rw = point_wires(&signature.r);
        append(&mut base, &rw);
        let pkw = point_wires(&credential.issuer);
        append(&mut base, &pkw);
        append(&mut base, &credential.fields);
        let iw = point_wires(&credential.issuer);
        append(&mut base, &iw);
        proof {
            assert(base@ =~= seq![tag] + point_wire_seq(signature.r) + point_wire_seq(credential.issuer) + credential.word_seq());
            assert forall|i: int| 0 <= i < point_wire_seq(signature.r).len() implies #[trigger] point_wire_seq(signature.r)[i] < self.gates.len() by {
                assert(signature.r.x.0[0] < self.gates.len());
            }
            assert(has_all(*self, base@)) by {
                assert forall|i: int| 0 <= i < base.len() implies #[trigger] base@[i] < self.gates.len() by {
                    let r = signature.r;
                    let q = credential.issuer;
                    if i == 0 {
                    } else if i < 21 {
                        let j = i - 1;
                        if j < 5 { assert(base@[i] == r.x.0[j]); } else if j < 10 { assert(base@[i] == r.z.0[j - 5]); } else if j < 15 { assert(base@[i] == r.u.0[j - 10]); } else { assert(base@[i] == r.t.0[j - 15]); }
                    } else if i < 41 {
                        let j = i - 21;
                        if j < 5 { assert(base@[i] == q.x.0[j]); } else if j < 10 { assert(base@[i] == q.z.0[j - 5]); } else if j < 15 { assert(base@[i] == q.u.0[j - 10]); } else { assert(base@[i] == q.t.0[j - 15]); }
                    } else if i < 41 + LEN_FIELDS {
                        assert(base@[i] == credential.fields@[i - 41]);
                    } else {
                        let j = i - 41 - LEN_FIELDS;
                        if j < 5 { assert(base@[i] == q.x.0[j]); } else if j < 10 { assert(base@[i] == q.z.0[j - 5]); } else if j < 15 { assert(base@[i] == q.u.0[j - 10]); } else { assert(base@[i] == q.t.0[j - 15]); }
                    }
                }
            }
        }
        let e = self.hash_challenge(&base);
        proof {
            lemma_extends_trans_all();
            assert forall|gs: Seq<Gate>, inp: Seq<int>| extends(self.gates@, gs) implies #[trigger] words_of(gs, inp, base@) == seq![SIG_TAG]
                + words_of(gs, inp, point_wire_seq(signature.r)) + words_of(gs, inp, point_wire_seq(credential.issuer)) + words_of(gs, inp, credential.word_seq()) by {
                assert(extends(g1, gs));
                assert(crate::gfp5_gadget::v(gs, inp, tag) == SIG_TAG);
                assert(words_of(gs, inp, base@) =~= seq![SIG_TAG] + words_of(gs, inp, point_wire_seq(signature.r)) + words_of(gs, inp, point_wire_seq(credential.issuer)) + words_of(gs, inp, credential.word_seq()));
            }
            assert(has_all(*self, base@));
            let b = base@;
            assert({
                &&& has_all(*self, b)
                &&& forall|gs: Seq<Gate>, inp: Seq<int>|
                    extends(self.gates@, gs) ==> #[trigger] words_of(gs, inp, b) == seq![SIG_TAG]
                        + words_of(gs, inp, point_wire_seq(signature.r)) + words_of(gs, inp, point_wire_seq(credential.issuer))
                        + words_of(gs, inp, credential.word_seq())
                &&& forall|gs: Seq<Gate>, inp: Seq<int>|
                    extends(self.gates@, gs) ==> #[trigger] bools(gs, inp, e@) == xof_bits(words_of(gs, inp, b))
                &&& forall|gs: Seq<Gate>, inp: Seq<int>|
                    extends(self.gates@, gs) ==> #[trigger] all_bits(gs, inp, e@)
            });
        }
        e
    }

    /// Constrains `s G == R + e pk` for the credential's issuer key and the
    /// signature challenge.
    pub fn verify_signature(&mut self, credential: &CredentialTarget, signature: &SignatureTarget) -> (ok: usize)
        requires
            old(self).wf(),
            credential.fields.len() == LEN_FIELDS,
            has_all(*old(self), credential.fields@),
            has_pt(*old(self), credential.issuer),
            has_pt(*old(self), signature.r),
            has_all(*old(self), signature.s@),
            signature.s.len() == NB_BITS,
        ensures
            old(self).grows_to(*final(self)),
            final(self).constraints@ == old(self).constraints@.push(Constraint::AssertOne(ok)),
            forall|gs: Seq<Gate>, inp: Seq<int>|
                extends(final(self).gates@, gs) && all_bits(gs, inp, signature.s@) && reduced(pt4(gs, inp, credential.issuer))
                    ==> #[trigger] crate::gfp5_gadget::v(gs, inp, ok) == b01(spec_equals(
                    spec_shamir_from(
                        bools(gs, inp, signature.s@),
                        xof_bits(signature_transcript(gs, inp, credential, signature)),
                        spec_neg(pt4(gs, inp, credential.issuer)),
                        0,
                    ),
                    pt4(gs, inp, signature.r),
                )),
    {
        let ghost g0 = self.gates@;
        let e = self.signature_challenge(credential, signature);
        let ghost g1 = self.gates@;
        let ok = self.schnorr_final_verification(&signature.s, &e, credential.issuer, signature.r);
        proof {
            lemma_extends_trans_all();
            assert(self.constraints@.subrange(0, old(self).constraints@.len() as int) =~= old(self).constraints@);
            let base = choose|base: Seq<usize>|
                {
                    &&& has_all(*self, base)
                    &&& forall|gs: Seq<Gate>, inp: Seq<int>|
                        extends(g1, gs) ==> #[trigger] words_of(gs, inp, base) == signature_transcript(gs, inp, credential, signature)
                    &&& forall|gs: Seq<Gate>, inp: Seq<int>|
                        extends(g1, gs) ==> #[trigger] bools(gs, inp, e@) == xof_bits(words_of(gs, inp, base))
                    &&& forall|gs: Seq<Gate>, inp: Seq<int>|
                        extends(g1, gs) ==> #[trigger] all_bits(gs, inp, e@)
                };
            assert forall|gs: Seq<Gate>, inp: Seq<int>|
                extends(self.gates@, gs) && all_bits(gs, inp, signature.s@) && reduced(pt4(gs, inp, credential.issuer))
                implies #[trigger] crate::gfp5_gadget::v(gs, inp, ok) == b01(spec_equals(
                spec_shamir_from(
                    bools(gs, inp, signature.s@),
                    xof_bits(signature_transcript(gs, inp, credential, signature)),
                    spec_neg(pt4(gs, inp, credential.issuer)),
                    0,
                ),
                pt4(gs, inp, signature.r),
            )) by {
                assert(extends(g1, gs));
                assert(all_bits(gs, inp, e@));
                assert(bools(gs, inp, e@) == xof_bits(signature_transcript(gs, inp, credential, signature)));
            }
        }
        ok
    }

    /// Constrains `birth_date <= cutoff`: both the birth date and the
    /// difference must fit in 32 bits, so a later birth date wraps around
    /// and fails.
    pub fn check_majority(&mut self, cutoff: usize, birth_date: usize) -> (diff: usize)
        requires
            old(self).wf(),
            cutoff < old(self).gates.len(),
            birth_date < old(self).gates.len(),
        ensures
            old(self).grows_to(*final(self)),
            final(self).constraints@ == old(self).constraints@ + seq![
                Constraint::RangeCheck(birth_date, 32),
                Constraint::RangeCheck(diff, 32),
            ],
            forall|gs: Seq<Gate>, inp: Seq<int>|
                extends(final(self).gates@, gs) ==> #[trigger] crate::gfp5_gadget::v(gs, inp, diff) == (
                crate::gfp5_gadget::v(gs, inp, cutoff) - crate::gfp5_gadget::v(gs, inp, birth_date)) % crate::field::p(),
    {
        let diff = self.sub(cutoff, birth_date);
        let ghost c0 = self.constraints@;
        self.add_constraint(Constraint::RangeCheck(birth_date, 32));
        self.add_constraint(Constraint::RangeCheck(diff, 32));
        proof {
            lemma_extends_trans_all();
            assert(self.constraints@ =~= old(self).constraints@ + seq![
                Constraint::RangeCheck(birth_date, 32),
                Constraint::RangeCheck(diff, 32),
            ]);
            assert(self.constraints@.subrange(0, old(self).constraints@.len() as int) =~= old(self).constraints@);
        }
        diff
    }
}

/// Where the circuit's input wires lie: the 22 credential fields from
/// `start`, the issuer's key right after, the nonce point and the response
/// bits further on, and the cutoff after those, all of them input wires in
/// increasing order; the public nationality and key are the credential's own.
pub open spec fn input_layout(
    gs: Seq<Gate>,
    pt: PublicTargets,
    cred: CredentialTarget,
    sig: SignatureTarget,
    start: int,
) -> bool {
    &&& cred.fields.len() == LEN_FIELDS
    &&& sig.s.len() == NB_BITS
    &&& forall|k: int| 0 <= k < LEN_FIELDS ==> #[trigger] cred.fields@[k] == start + k && gs[start + k] is Input
    &&& fresh_point(gs, cred.issuer, start + LEN_FIELDS)
    &&& point_wire_seq(sig.r)[0] >= start + LEN_FIELDS + 20
    &&& fresh_point(gs, sig.r, point_wire_seq(sig.r)[0] as int)
    &&& sig.s@[0] >= point_wire_seq(sig.r)[0] + 20
    &&& fresh_bits(gs, sig.s@, sig.s@[0] as int)
    &&& pt.cutoff18_days >= sig.s@[0] + NB_BITS
    &&& pt.cutoff18_days < gs.len()
    &&& gs[pt.cutoff18_days as int] is Input
    &&& pt.nationality == cred.fields@[POS_NATIONALITY as int]
    &&& pt.issuer_pk == cred.issuer
}

/// The constraints that registering the inputs appends after position `n0`:
/// the gender bit, the issuer key's curve check, the nonce point's curve
/// check, the response's bit and range checks, then the public inputs in
/// order: nationality, cutoff, and the issuer key's X, Z, U, T words.
pub open spec fn registered_constraints(
    gs: Seq<Gate>,
    cs: Seq<Constraint>,
    n0: int,
    pt: PublicTargets,
    cred: CredentialTarget,
    sig: SignatureTarget,
) -> bool {
    &&& cs.len() >= n0 + NB_BITS + 26
    &&& cs[n0] == Constraint::AssertBool(cred.fields@[POS_GENDER as int])
    &&& on_curve_checked(gs, cred.issuer, cs[n0 + 1])
    &&& on_curve_checked(gs, sig.r, cs[n0 + 2])
    &&& forall|i: int| 0 <= i < NB_BITS ==> #[trigger] cs[n0 + 3 + i] == Constraint::AssertBool(sig.s@[i])
    &&& range_checked(gs, sig.s@, cs[n0 + 3 + NB_BITS])
    &&& cs[n0 + 4 + NB_BITS] == Constraint::PublicInput(pt.nationality)
    &&& cs[n0 + 5 + NB_BITS] == Constraint::PublicInput(pt.cutoff18_days)
    &&& forall|k: int| 0 <= k < 20 ==> #[trigger] cs[n0 + 6 + NB_BITS + k] == Constraint::PublicInput(
        point_wire_seq(pt.issuer_pk)[k],
    )
}

/// Registers the circuit's inputs: the credential and the signature are
/// private; the nationality code, the cutoff day count and the issuer's key
/// are public, in that order. The public nationality and key are the
/// credential's own wires.
pub fn register(b: &mut Builder) -> (r: (PublicTargets, CredentialTarget, SignatureTarget))
    requires
        old(b).wf(),
    ensures
        old(b).grows_to(*final(b)),
        input_layout(final(b).gates@, r.0, r.1, r.2, old(b).gates.len() as int),
        final(b).constraints@.len() == old(b).constraints@.len() + NB_BITS + 26,
        registered_constraints(final(b).gates@, final(b).constraints@, old(b).constraints@.len() as int, r.0, r.1, r.2),
        has_all(*final(b), r.1.fields@),
        has_pt(*final(b), r.1.issuer),
        has_pt(*final(b), r.2.r),
        has_all(*final(b), r.2.s@),
{
    let ghost g0 = *b;
    let credential = b.add_virtual_credential_target();
    let ghost g1 = *b;
    let r = b.add_virtual_point_target();
    let ghost g2 = *b;
    let (s, _) = b.add_virtual_scalar_target();
    let ghost g3 = *b;
    let cutoff = b.add_virtual_target();
    let ghost g4 = *b;
    let nationality = credential.fields[POS_NATIONALITY];
    b.add_constraint(Constraint::PublicInput(nationality));
    b.add_constraint(Constraint::PublicInput(cutoff));
    b.register_point_public_input(credential.issuer);
    let pt = PublicTargets { nationality, cutoff18_days: cutoff, issuer_pk: credential.issuer };
    let sig = SignatureTarget { r, s };
    proof {
        lemma_extends_trans_all();
        assert(b.constraints@.subrange(0, g4.constraints@.len() as int) =~= g4.constraints@);
        assert(b.constraints@.subrange(0, g3.constraints@.len() as int) =~= g3.constraints@);
        assert(g4.constraints@.subrange(0, g3.constraints@.len() as int) =~= g3.constraints@);
        assert(g3.constraints@.subrange(0, g2.constraints@.len() as int) =~= g2.constraints@);
        assert(b.constraints@.subrange(0, g2.constraints@.len() as int) =~= g2.constraints@);
        assert(g2.constraints@.subrange(0, g1.constraints@.len() as int) =~= g1.constraints@);
        assert(b.constraints@.subrange(0, g1.constraints@.len() as int) =~= g1.constraints@);
        assert(g1.constraints@.subrange(0, old(b).constraints@.len() as int) =~= old(b).constraints@);
        assert(b.constraints@.subrange(0, old(b).constraints@.len() as int) =~= old(b).constraints@);
        let gs = b.gates@;
        let l = g0.gates.len() as int;
        // wires
        assert forall|k: int| 0 <= k < LEN_FIELDS implies #[trigger] credential.fields@[k] == l + k && gs[l + k] is Input by {
            assert(credential.fields@[k] == l + k);
            assert(g1.gates@[l + k] is Input);
            crate::circuit::lemma_extends_gate(g1.gates@, gs, l + k);
        }
        lemma_point_facts_extend(g1.gates@, gs, credential.issuer, g1.constraints@.last(), l + LEN_FIELDS);
        lemma_point_facts_extend(g2.gates@, gs, r, g2.constraints@.last(), g1.gates.len() as int);
        assert(point_wire_seq(credential.issuer)[19] == l + LEN_FIELDS + 19);
        assert(point_wire_seq(r)[0] == g1.gates.len());
        assert(point_wire_seq(r)[19] == g1.gates.len() + 19);
        crate::scalar_gadget::lemma_bit_facts_extend(g3.gates@, gs, s@, g3.constraints@.last(), g2.gates.len() as int);
        assert(s@[0] == g2.gates.len());
        assert(s@[NB_BITS - 1] == g2.gates.len() + NB_BITS - 1);
        assert(gs[cutoff as int] == g4.gates@[cutoff as int]);
        assert(input_layout(gs, pt, credential, sig, l));
        // constraints
        let n0 = g0.constraints@.len() as int;
        let cs = b.constraints@;
        assert(cs[n0] == g1.constraints@[n0]);
        assert(cs[n0 + 1] == g1.constraints@.last());
        assert(on_curve_checked(gs, credential.issuer, cs[n0 + 1]));
        assert(cs[n0 + 2] == g2.constraints@.last());
        assert forall|i: int| 0 <= i < NB_BITS implies #[trigger] cs[n0 + 3 + i] == Constraint::AssertBool(s@[i]) by {
            assert(cs[n0 + 3 + i] == g3.constraints@[n0 + 3 + i]);
        }
        assert(cs[n0 + 3 + NB_BITS] == g3.constraints@.last());
        assert(range_checked(gs, s@, cs[n0 + 3 + NB_BITS]));
        assert(registered_constraints(gs, cs, n0, pt, credential, sig));
    }
    (pt, credential, sig)
}

/// The input layout survives appending gates.
pub proof fn lemma_layout_extends(gs: Seq<Gate>, gs2: Seq<Gate>, pt: PublicTargets, cred: CredentialTarget, sig: SignatureTarget, start: int)
    requires
        extends(gs, gs2),
        input_layout(gs, pt, cred, sig, start),
    ensures
        input_layout(gs2, pt, cred, sig, start),
{
    assert forall|k: int| 0 <= k < LEN_FIELDS implies #[trigger] cred.fields@[k] == start + k && gs2[start + k] is Input by {
        assert(cred.fields@[k] == start + k);
        assert(point_wire_seq(cred.issuer)[0] == start + LEN_FIELDS);
        crate::circuit::lemma_extends_gate(gs, gs2, start + k);
    }
    lemma_point_facts_extend(gs, gs2, cred.issuer, Constraint::PublicInput(0), start + LEN_FIELDS);
    lemma_point_facts_extend(gs, gs2, sig.r, Constraint::PublicInput(0), point_wire_seq(sig.r)[0] as int);
    crate::scalar_gadget::lemma_bit_facts_extend(gs, gs2, sig.s@, Constraint::PublicInput(0), sig.s@[0] as int);
    crate::circuit::lemma_extends_gate(gs, gs2, pt.cutoff18_days as int);
}

/// The registered constraints keep their meaning when gates and further
/// constraints are appended.
pub proof fn lemma_registered_extends(
    gs: Seq<Gate>,
    gs2: Seq<Gate>,
    cs: Seq<Constraint>,
    cs2: Seq<Constraint>,
    n0: int,
    pt: PublicTargets,
    cred: CredentialTarget,
    sig: SignatureTarget,
)
    requires
        extends(gs, gs2),
        cs.len() <= cs2.len(),
        cs2.subrange(0, cs.len() as int) == cs,
        0 <= n0,
        registered_constraints(gs, cs, n0, pt, cred, sig),
    ensures
        registered_constraints(gs2, cs2, n0, pt, cred, sig),
{
    assert forall|i: int| 0 <= i < cs.len() implies #[trigger] cs2[i] == cs[i] by {
        assert(cs2.subrange(0, cs.len() as int)[i] == cs2[i]);
    }
    lemma_point_facts_extend(gs, gs2, cred.issuer, cs[n0 + 1], 0);
    lemma_point_facts_extend(gs, gs2, sig.r, cs[n0 + 2], 0);
    crate::scalar_gadget::lemma_bit_facts_extend(gs, gs2, sig.s@, cs[n0 + 3 + NB_BITS], 0);
    assert forall|i: int| 0 <= i < NB_BITS implies #[trigger] cs2[n0 + 3 + i] == Constraint::AssertBool(sig.s@[i]) by {
        assert(cs[n0 + 3 + i] == Constraint::AssertBool(sig.s@[i]));
    }
    assert forall|k: int| 0 <= k < 20 implies #[trigger] cs2[n0 + 6 + NB_BITS + k] == Constraint::PublicInput(
        point_wire_seq(pt.issuer_pk)[k],
    ) by {
        assert(cs[n0 + 6 + NB_BITS + k] == Constraint::PublicInput(point_wire_seq(pt.issuer_pk)[k]));
    }
}

/// The conditions under which the holder's values can be assigned: every
/// credential word is a field element, and the public inputs agree with the
/// credential (nationality, issuer key) or are field elements (cutoff).
pub open spec fn witness_ok(credential: Seq<u64>, public: PublicInputs) -> bool {
    &&& forall|k: int| 0 <= k < LEN_CREDENTIAL ==> #[trigger] credential[k] < P
    &&& public.nat_code == credential[POS_NATIONALITY as int]
    &&& public.cutoff18_days < P
    &&& crate::curve::point_words(public.issuer_pk) == credential.subrange(LEN_FIELDS as int, LEN_CREDENTIAL as int)
}

/// The position, in the policy circuit's constraints, of the nationality check.
pub const POS_NATIONALITY_CHECK: usize = NB_BITS + 26;

/// The nationality code the policy asks for.
pub const REQUIRED_NATIONALITY: u64 = 250;

/// The policy circuit: a credential signed by the public issuer key, of
/// French nationality, with a birth date at or before the public cutoff.
pub fn circuit() -> (r: Circuit)
    ensures
        r.wf(),
        registered_constraints(r.builder.gates@, r.builder.constraints@, 0, r.public_inputs, r.credential, r.signature),
        r.builder.constraints@.len() == POS_NATIONALITY_CHECK + 4,
        r.builder.constraints@[POS_NATIONALITY_CHECK as int] == Constraint::Connect(
            r.public_inputs.nationality,
            r.nationality_code,
        ),
        forall|inp: Seq<int>| #[trigger] crate::gfp5_gadget::v(r.builder.gates@, inp, r.nationality_code) == REQUIRED_NATIONALITY,
        r.builder.constraints@[POS_NATIONALITY_CHECK + 1] == Constraint::RangeCheck(
            r.credential.fields@[POS_BIRTH_DATE as int],
            32,
        ),
        r.builder.constraints@[POS_NATIONALITY_CHECK + 2] == Constraint::RangeCheck(r.age_margin, 32),
        r.builder.constraints@[POS_NATIONALITY_CHECK + 3] == Constraint::AssertOne(r.signature_ok),
        forall|inp: Seq<int>|
            #[trigger] crate::gfp5_gadget::v(r.builder.gates@, inp, r.age_margin) == (crate::gfp5_gadget::v(
                r.builder.gates@,
                inp,
                r.public_inputs.cutoff18_days,
            ) - crate::gfp5_gadget::v(r.builder.gates@, inp, r.credential.fields@[POS_BIRTH_DATE as int]))
                % crate::field::p(),
        forall|inp: Seq<int>|
            all_bits(r.builder.gates@, inp, r.signature.s@) && reduced(pt4(r.builder.gates@, inp, r.credential.issuer))
                ==> #[trigger] crate::gfp5_gadget::v(r.builder.gates@, inp, r.signature_ok) == b01(spec_equals(
                spec_shamir_from(
                    bools(r.builder.gates@, inp, r.signature.s@),
                    xof_bits(signature_transcript(r.builder.gates@, inp, &r.credential, &r.signature)),
                    spec_neg(pt4(r.builder.gates@, inp, r.credential.issuer)),
                    0,
                ),
                pt4(r.builder.gates@, inp, r.signature.r),
            )),
{
    let mut b = Builder::new();
    let (public_inputs, credential, signature) = register(&mut b);
    let ghost b0 = b;
    let nationality_code = b.constant(REQUIRED_NATIONALITY);
    b.add_constraint(Constraint::Connect(public_inputs.nationality, nationality_code));
    let ghost bn = b;
    let age_margin = b.check_majority(public_inputs.cutoff18_days, credential.fields[POS_BIRTH_DATE]);
    let ghost b1 = b;
    let signature_ok = b.verify_signature(&credential, &signature);
    let r = Circuit { builder: b, public_inputs, credential, signature, nationality_code, age_margin, signature_ok };
    proof {
        lemma_extends_trans_all();
        crate::circuit::lemma_extends_refl(r.builder.gates@);
        let cs = r.builder.constraints@;
        assert(cs == b1.constraints@.push(Constraint::AssertOne(signature_ok)));
        assert(cs.subrange(0, b0.constraints@.len() as int) =~= b0.constraints@);
        assert(extends(b0.gates@, r.builder.gates@));
        lemma_layout_extends(b0.gates@, r.builder.gates@, public_inputs, credential, signature, 0);
        lemma_registered_extends(b0.gates@, r.builder.gates@, b0.constraints@, cs, 0, public_inputs, credential, signature);
        assert(cs[POS_NATIONALITY_CHECK as int] == bn.constraints@.last());
        assert forall|inp: Seq<int>| #[trigger] crate::gfp5_gadget::v(r.builder.gates@, inp, nationality_code) == REQUIRED_NATIONALITY by {
            assert(extends(bn.gates@, r.builder.gates@));
        }
        assert forall|inp: Seq<int>| #[trigger] crate::gfp5_gadget::v(r.builder.gates@, inp, age_margin) == (crate::gfp5_gadget::v(
            r.builder.gates@,
            inp,
            r.public_inputs.cutoff18_days,
        ) - crate::gfp5_gadget::v(r.builder.gates@, inp, r.credential.fields@[POS_BIRTH_DATE as int])) % crate::field::p() by {
            assert(extends(b1.gates@, r.builder.gates@));
        }
    }
    r
}

impl Circuit {
    /// The circuit's input wires lie as `register` lays them out.
    pub open spec fn wf(&self) -> bool {
        &&& self.builder.wf()
        &&& input_layout(self.builder.gates@, self.public_inputs, self.credential, self.signature, 0)
    }

    /// The holder's assignment: the credential's 42 words, the nonce point,
    /// the response bits and the public inputs. Public inputs share wires
    /// with the credential, so one that differs from the credential is a
    /// conflict; a word that is not a field element cannot be assigned.
    pub fn witness(&self, credential: &Vec<u64>, r: &Point, s: &Scalar, public: &PublicInputs) -> (w: Result<Witness, WitnessError>)
        requires
            self.wf(),
            credential.len() == LEN_CREDENTIAL,
            r.wf(),
            s.wf(),
        ensures
            (w is Ok) == witness_ok(credential@, *public),
            w is Ok ==> (w->Ok_0).values.len() == self.builder.gates.len(),
            w is Ok ==> forall|k: int| 0 <= k < LEN_FIELDS ==> (w->Ok_0).values@[#[trigger] self.credential.fields@[k] as int] == Some(credential@[k]),
            w is Ok ==> forall|k: int| 0 <= k < 20 ==> (w->Ok_0).values@[#[trigger] point_wire_seq(self.credential.issuer)[k] as int] == Some(
                credential@[LEN_FIELDS + k],
            ),
            w is Ok ==> forall|k: int| 0 <= k < 20 ==> (w->Ok_0).values@[#[trigger] point_wire_seq(self.signature.r)[k] as int] == Some(
                crate::curve::point_words(*r)[k],
            ),
            w is Ok ==> forall|i: int| 0 <= i < NB_BITS ==> (w->Ok_0).values@[#[trigger] self.signature.s@[i] as int] == Some(
                if s.bits@[i] { 1u64 } else { 0u64 },
            ),
            w is Ok ==> (w->Ok_0).values@[self.public_inputs.cutoff18_days as int] == Some(public.cutoff18_days),
    {
        let ghost gs = self.builder.gates@;
        let mut k: usize = 0;
        while k < LEN_CREDENTIAL
            invariant
                k <= LEN_CREDENTIAL,
                credential.len() == LEN_CREDENTIAL,
                forall|j: int| 0 <= j < k ==> #[trigger] credential@[j] < P,
            decreases LEN_CREDENTIAL - k,
        {
            if credential[k] >= P {
                return Err(WitnessError::NotCanonical);
            }
            k = k + 1;
        }
        if public.nat_code != credential[POS_NATIONALITY] {
            return Err(WitnessError::Conflict);
        }
        if public.cutoff18_days >= P {
            return Err(WitnessError::NotCanonical);
        }
        let pk = public.issuer_pk.to_words();
        let mut j: usize = 0;
        while j < 20
            invariant
                j <= 20,
                credential.len() == LEN_CREDENTIAL,
                pk@ == crate::curve::point_words(public.issuer_pk),
                forall|i: int| 0 <= i < j ==> #[trigger] pk@[i] == credential@[LEN_FIELDS + i],
            decreases 20 - j,
        {
            if pk[j] != credential[LEN_FIELDS + j] {
                proof {
                    assert(crate::curve::point_words(public.issuer_pk)[j as int] != credential@.subrange(
                        LEN_FIELDS as int,
                        LEN_CREDENTIAL as int,
                    )[j as int]);
                }
                return Err(WitnessError::Conflict);
            }
            j = j + 1;
        }
        proof {
            assert(crate::curve::point_words(public.issuer_pk) =~= credential@.subrange(LEN_FIELDS as int, LEN_CREDENTIAL as int));
        }
        let n = self.builder.gates.len();
        let mut w = Witness::new(n);
        let r0 = point_wires(&self.signature.r);
        let s0 = self.signature.s[0];
        proof {
            assert(point_wire_seq(self.credential.issuer)[0] == LEN_FIELDS);
            assert(point_wire_seq(self.credential.issuer)[19] == LEN_FIELDS + 19);
            assert(point_wire_seq(self.signature.r)[19] == r0@[0] + 19);
            assert(self.signature.s@[NB_BITS - 1] == s0 + NB_BITS - 1);
        }
        let mut k: usize = 0;
        while k < LEN_CREDENTIAL
            invariant
                k <= LEN_CREDENTIAL,
                credential.len() == LEN_CREDENTIAL,
                w.values.len() == n,
                n == gs.len(),
                LEN_CREDENTIAL < n,
                forall|i: int| 0 <= i < k ==> #[trigger] w.values@[i] == Some(credential@[i]),
            decreases LEN_CREDENTIAL - k,
        {
            w.values.set(k, Some(credential[k]));
            k = k + 1;
        }
        let rw = r.to_words();
        let r_start = r0[0];
        let mut k: usize = 0;
        while k < 20
            invariant
                k <= 20,
                credential.len() == LEN_CREDENTIAL,
                w.values.len() == n,
                r_start >= LEN_CREDENTIAL,
                r_start + 20 <= n,
                rw@ == crate::curve::point_words(*r),
                forall|i: int| 0 <= i < LEN_CREDENTIAL ==> #[trigger] w.values@[i] == Some(credential@[i]),
                forall|i: int| 0 <= i < k ==> #[trigger] w.values@[r_start + i] == Some(rw@[i]),
            decreases 20 - k,
        {
            w.values.set(r_start + k, Some(rw[k]));
            k = k + 1;
        }
        let mut i: usize = 0;
        while i < NB_BITS
            invariant
                i <= NB_BITS,
                credential.len() == LEN_CREDENTIAL,
                w.values.len() == n,
                r_start >= LEN_CREDENTIAL,
                s0 >= r_start + 20,
                s0 + NB_BITS <= n,
                s.bits.len() == NB_BITS,
                forall|j: int| 0 <= j < LEN_CREDENTIAL ==> #[trigger] w.values@[j] == Some(credential@[j]),
                forall|j: int| 0 <= j < 20 ==> #[trigger] w.values@[r_start + j] == Some(rw@[j]),
                forall|j: int| 0 <= j < i ==> #[trigger] w.values@[s0 + j] == Some(if s.bits@[j] { 1u64 } else { 0u64 }),
            decreases NB_BITS - i,
        {
            w.values.set(s0 + i, Some(if s.bits[i] { 1 } else { 0 }));
            i = i + 1;
        }
        let c = self.public_inputs.cutoff18_days;
        w.values.set(c, Some(public.cutoff18_days));
        proof {
            assert forall|k: int| 0 <= k < LEN_FIELDS implies w.values@[#[trigger] self.credential.fields@[k] as int] == Some(credential@[k]) by {
                assert(self.credential.fields@[k] == k);
            }
            assert forall|k: int| 0 <= k < 20 implies w.values@[#[trigger] point_wire_seq(self.credential.issuer)[k] as int] == Some(
                credential@[LEN_FIELDS + k],
            ) by {
                assert(point_wire_seq(self.credential.issuer)[k] == LEN_FIELDS + k);
            }
            assert forall|k: int| 0 <= k < 20 implies w.values@[#[trigger] point_wire_seq(self.signature.r)[k] as int] == Some(
                crate::curve::point_words(*r)[k],
            ) by {
                assert(point_wire_seq(self.signature.r)[k] == r_start + k);
            }
            assert forall|i: int| 0 <= i < NB_BITS implies w.values@[#[trigger] self.signature.s@[i] as int] == Some(
                if s.bits@[i] { 1u64 } else { 0u64 },
            ) by {
                assert(self.signature.s@[i] == s0 + i);
            }
        }
        Ok(w)
    }

    /// True iff the assignment covers every wire and meets every constraint.
    pub fn is_satisfied_by(&self, w: &Witness) -> (r: bool)
        requires
            self.builder.wf(),
        ensures
            r == (w.values.len() == self.builder.gates.len() && forall|i: int|
                0 <= i < self.builder.constraints.len() ==> #[trigger] holds(
                    self.builder.constraints@[i],
                    self.builder.gates@,
                    inputs_of(assignment(*w)),
                )),
    {
        let inputs = w.to_inputs();
        if inputs.len() != self.builder.gates.len() {
            return false;
        }
        self.builder.is_satisfied(&inputs)
    }
}

fn append(out: &mut Vec<usize>, v: &Vec<usize>)
    ensures
        final(out)@ == old(out)@ + v@,
{
    let ghost start = out@;
    let mut k: usize = 0;
    while k < v.len()
        invariant
            k <= v.len(),
            out@ == start + v@.take(k as int),
        decreases v.len() - k,
    {
        out.push(v[k]);
        k = k + 1;
        assert(out@ =~= start + v@.take(k as int));
    }
    assert(v@.take(v.len() as int) =~= v@);
}

} // verus!
