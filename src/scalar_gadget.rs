//! The scalar gadget: `NB_BITS` boolean wires, constrained to denote an
//! integer below the group order by the same top-down walk as the native
//! range check.
use crate::bits::{high_val, lemma_high_val_ends, lemma_high_val_step};
use crate::circuit::{
    b01, extends, is_bit, lemma_extends_trans_all, lemma_small_values, wire_val, Builder, Constraint,
    Gate,
};
use crate::curve_gadget::{all_bits, bools, has_all};
use crate::field::p;
use crate::gfp5_gadget::v;
use crate::scalar::{order, order_bit, order_bit_at, order_bits, value_of, NB_BITS};
use vstd::prelude::*;

verus! {

/// The bit wires are the input wires `start`, `start + 1`, ... of `gs`.
pub open spec fn fresh_bits(gs: Seq<Gate>, bits: Seq<usize>, start: int) -> bool {
    forall|j: int| 0 <= j < bits.len() ==> #[trigger] bits[j] == start + j && start + j < gs.len() && gs[start + j] is Input
}

/// `c` constrains a wire that is one exactly when the bits, read as a
/// number, are below the group order.
pub open spec fn range_checked(gs: Seq<Gate>, bits: Seq<usize>, c: Constraint) -> bool {
    &&& c is AssertOne
    &&& c->AssertOne_0 < gs.len()
    &&& forall|gs2: Seq<Gate>, inp: Seq<int>|
        extends(gs, gs2) && all_bits(gs2, inp, bits) ==> #[trigger] v(gs2, inp, c->AssertOne_0) == b01(
            value_of(bools(gs2, inp, bits)) < order(),
        )
}

/// Both facts survive appending gates.
pub proof fn lemma_bit_facts_extend(gs: Seq<Gate>, gs2: Seq<Gate>, bits: Seq<usize>, c: Constraint, start: int)
    requires
        extends(gs, gs2),
        0 <= start,
    ensures
        range_checked(gs, bits, c) ==> range_checked(gs2, bits, c),
        fresh_bits(gs, bits, start) ==> fresh_bits(gs2, bits, start),
{
    lemma_extends_trans_all();
    if fresh_bits(gs, bits, start) {
        assert forall|j: int| 0 <= j < bits.len() implies #[trigger] bits[j] == start + j && start + j < gs2.len()
            && gs2[start + j] is Input by {
            assert(bits[j] == start + j);
            crate::circuit::lemma_extends_gate(gs, gs2, start + j);
        }
        assert(fresh_bits(gs2, bits, start));
    }
}

impl Builder {
    /// 1 iff two bit wires agree: `1 - (a + b - 2 a b)`.
    pub fn eq_bool(&mut self, a: usize, b: usize) -> (r: usize)
        requires
            old(self).wf(),
            a < old(self).gates.len(),
            b < old(self).gates.len(),
        ensures
            old(self).grows_to(*final(self)),
            final(self).constraints@ == old(self).constraints@,
            r < final(self).gates.len(),
            forall|gs: Seq<Gate>, inp: Seq<int>|
                extends(final(self).gates@, gs) && is_bit(v(gs, inp, a)) && is_bit(v(gs, inp, b))
                    ==> #[trigger] v(gs, inp, r) == b01(v(gs, inp, a) == v(gs, inp, b)),
    {
        let ab = self.mul(a, b);
        let ghost g1 = self.gates@;
        let two_ab = self.add(ab, ab);
        let ghost g2 = self.gates@;
        let sum = self.add(a, b);
        let ghost g3 = self.gates@;
        let xor = self.sub(sum, two_ab);
        let ghost g4 = self.gates@;
        let one = self.constant(1);
        let ghost g5 = self.gates@;
        let r = self.sub(one, xor);
        proof {
            lemma_extends_trans_all();
            lemma_small_values();
            assert forall|gs: Seq<Gate>, inp: Seq<int>| extends(self.gates@, gs) && is_bit(v(gs, inp, a)) && is_bit(v(gs, inp, b))
                implies #[trigger] v(gs, inp, r) == b01(v(gs, inp, a) == v(gs, inp, b)) by {
                assert(extends(g5, gs) && extends(g4, gs) && extends(g3, gs) && extends(g2, gs) && extends(g1, gs));
                let (x, y) = (v(gs, inp, a), v(gs, inp, b));
                if x == 0 {
                    assert(x * y == 0);
                } else {
                    assert(x * y == y);
                }
            }
        }
        r
    }

    /// A scalar: `NB_BITS` fresh wires, each constrained to be a bit, and
    /// the range check `value < order` constrained to hold. Returns the bit
    /// wires, least significant first, and the wire that must be one.
    #[verifier::rlimit(40)]
    pub fn add_virtual_scalar_target(&mut self) -> (r: (Vec<usize>, usize))
        requires
            old(self).wf(),
        ensures
            old(self).grows_to(*final(self)),
            r.0.len() == NB_BITS,
            has_all(*final(self), r.0@),
            r.1 < final(self).gates.len(),
            final(self).constraints@ == old(self).constraints@ + Seq::new(
                NB_BITS as nat,
                |i: int| Constraint::AssertBool(r.0@[i]),
            ).push(Constraint::AssertOne(r.1)),
            forall|gs: Seq<Gate>, inp: Seq<int>|
                extends(final(self).gates@, gs) && all_bits(gs, inp, r.0@)
                    ==> #[trigger] v(gs, inp, r.1) == b01(value_of(bools(gs, inp, r.0@)) < order()),
            fresh_bits(final(self).gates@, r.0@, old(self).gates.len() as int),
    {
        let ghost g0 = *self;
        let mut bits: Vec<usize> = Vec::with_capacity(NB_BITS);
        let mut k: usize = 0;
        proof {
            crate::circuit::lemma_extends_refl(self.gates@);
        }
        while k < NB_BITS
            invariant
                k <= NB_BITS,
                bits.len() == k,
                self.wf(),
                extends(g0.gates@, self.gates@),
                has_all(*self, bits@),
                self.constraints@ == g0.constraints@ + Seq::new(k as nat, |i: int| Constraint::AssertBool(bits@[i])),
                fresh_bits(self.gates@, bits@, g0.gates.len() as int),
                self.gates.len() == g0.gates.len() + k,
            decreases NB_BITS - k,
        {
            let ghost h0 = self.gates@;
            let b = self.add_virtual_target();
            self.add_constraint(Constraint::AssertBool(b));
            bits.push(b);
            k = k + 1;
            proof {
                lemma_extends_trans_all();
                assert(self.constraints@ =~= g0.constraints@ + Seq::new(k as nat, |i: int| Constraint::AssertBool(bits@[i])));
                assert forall|j: int| 0 <= j < bits.len() implies #[trigger] bits@[j] == g0.gates.len() + j
                    && g0.gates.len() + j < self.gates@.len() && self.gates@[g0.gates.len() + j] is Input by {
                    if j < k - 1 {
                        assert(self.gates@[g0.gates.len() + j] == h0[g0.gates.len() + j]);
                    }
                }
            }
        }
        let ghost c1 = self.constraints@;
        let ghost gb = self.gates@;
        let mut lt = self.constant(0);
        let mut eq = self.constant(1);
        let mut i: usize = NB_BITS;
        proof {
            lemma_extends_trans_all();
            lemma_small_values();
            assert forall|gs: Seq<Gate>, inp: Seq<int>| extends(self.gates@, gs) && all_bits(gs, inp, bits@) implies
                #[trigger] v(gs, inp, lt) == b01(high_val(bools(gs, inp, bits@), i as int) < high_val(order_bits(), i as int))
                && v(gs, inp, eq) == b01(high_val(bools(gs, inp, bits@), i as int) == high_val(order_bits(), i as int)) by {
                lemma_high_val_ends(bools(gs, inp, bits@));
                lemma_high_val_ends(order_bits());
            }
        }
        while i > 0
            invariant
                i <= NB_BITS,
                bits.len() == NB_BITS,
                self.wf(),
                extends(g0.gates@, self.gates@),
                extends(gb, self.gates@),
                self.constraints@ == c1,
                has_all(*self, bits@),
                lt < self.gates.len(),
                eq < self.gates.len(),
                forall|gs: Seq<Gate>, inp: Seq<int>| extends(self.gates@, gs) && all_bits(gs, inp, bits@) ==>
                    #[trigger] v(gs, inp, lt) == b01(high_val(bools(gs, inp, bits@), i as int) < high_val(order_bits(), i as int))
                    && v(gs, inp, eq) == b01(high_val(bools(gs, inp, bits@), i as int) == high_val(order_bits(), i as int)),
            decreases i,
        {
            i = i - 1;
            let ghost h0 = self.gates@;
            let ghost (lt0, eq0) = (lt, eq);
            let b = bits[i];
            let nb = order_bit_at(i);
            let n = self.constant(if nb { 1 } else { 0 });
            let ghost h1 = self.gates@;
            let not_b = self.not(b);
            let ghost h2 = self.gates@;
            let strictly_less = self.and(not_b, n);
            let ghost h3 = self.gates@;
            let eq_and = self.and(eq, strictly_less);
            let ghost h4 = self.gates@;
            lt = self.or(lt, eq_and);
            let ghost h5 = self.gates@;
            let b_eq_n = self.eq_bool(b, n);
            let ghost h6 = self.gates@;
            eq = self.and(eq, b_eq_n);
            proof {
                lemma_extends_trans_all();
                lemma_small_values();
                assert forall|gs: Seq<Gate>, inp: Seq<int>| extends(self.gates@, gs) && all_bits(gs, inp, bits@) implies
                    #[trigger] v(gs, inp, lt) == b01(high_val(bools(gs, inp, bits@), i as int) < high_val(order_bits(), i as int))
                    && v(gs, inp, eq) == b01(high_val(bools(gs, inp, bits@), i as int) == high_val(order_bits(), i as int)) by {
                    assert(extends(h6, gs) && extends(h5, gs) && extends(h4, gs) && extends(h3, gs) && extends(h2, gs));
                    assert(extends(h1, gs) && extends(h0, gs));
                    let bs = bools(gs, inp, bits@);
                    lemma_high_val_step(bs, i as int);
                    lemma_high_val_step(order_bits(), i as int);
                    assert(is_bit(v(gs, inp, bits@[i as int])));
                    assert(bs[i as int] == (v(gs, inp, b) == 1));
                    assert(order_bits()[i as int] == nb);
                    assert(v(gs, inp, n) == b01(nb));
                    let hb = high_val(bs, i + 1);
                    let ho = high_val(order_bits(), i + 1);
                    assert(v(gs, inp, lt0) == b01(hb < ho));
                    assert(v(gs, inp, eq0) == b01(hb == ho));
                    let bv = v(gs, inp, b);
                    assert(v(gs, inp, not_b) == b01(bv == 0));
                    assert(v(gs, inp, strictly_less) == b01(bv == 0 && nb));
                    assert(v(gs, inp, eq_and) == b01(hb == ho && bv == 0 && nb));
                    assert(v(gs, inp, lt) == b01(hb < ho || (hb == ho && bv == 0 && nb)));
                    assert(v(gs, inp, b_eq_n) == b01(bv == b01(nb)));
                    assert(v(gs, inp, eq) == b01(hb == ho && bv == b01(nb)));
                }
            }
        }
        self.add_constraint(Constraint::AssertOne(lt));
        proof {
            lemma_extends_trans_all();
            assert forall|gs: Seq<Gate>, inp: Seq<int>| extends(self.gates@, gs) && all_bits(gs, inp, bits@)
                implies #[trigger] v(gs, inp, lt) == b01(value_of(bools(gs, inp, bits@)) < order()) by {
                lemma_high_val_ends(bools(gs, inp, bits@));
                lemma_high_val_ends(order_bits());
            }
            assert(self.constraints@.subrange(0, g0.constraints@.len() as int) =~= g0.constraints@);
            assert forall|j: int| 0 <= j < bits.len() implies #[trigger] bits@[j] == g0.gates.len() + j
                && g0.gates.len() + j < self.gates@.len() && self.gates@[g0.gates.len() + j] is Input by {
                crate::circuit::lemma_extends_gate(gb, self.gates@, g0.gates.len() + j);
            }
        }
        (bits, lt)
    }

    /// Exposes the bits, least significant first, as public inputs.
    pub fn register_scalar_public_input(&mut self, bits: &Vec<usize>)
        requires
            old(self).wf(),
        ensures
            old(self).grows_to(*final(self)),
            final(self).gates@ == old(self).gates@,
            final(self).constraints@ == old(self).constraints@ + Seq::new(
                bits.len() as nat,
                |i: int| Constraint::PublicInput(bits@[i]),
            ),
    {
        let ghost c0 = self.constraints@;
        let mut k: usize = 0;
        while k < bits.len()
            invariant
                k <= bits.len(),
                self.wf(),
                self.gates@ == old(self).gates@,
                self.constraints@ == c0 + Seq::new(k as nat, |i: int| Constraint::PublicInput(bits@[i])),
            decreases bits.len() - k,
        {
            self.add_constraint(Constraint::PublicInput(bits[k]));
            k = k + 1;
            assert(self.constraints@ =~= c0 + Seq::new(k as nat, |i: int| Constraint::PublicInput(bits@[i])));
        }
        proof {
            crate::circuit::lemma_extends_refl(self.gates@);
            assert(self.constraints@.subrange(0, c0.len() as int) =~= c0);
        }
    }
}

} // verus!
