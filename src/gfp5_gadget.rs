//! Gadgets for GF(p^5): five wires per element, and the same formulas as
//! the native field, emitted as gates.
use crate::circuit::{extends, lemma_extends_trans_all, wire_val, Builder, Constraint, Gate};
use crate::field::{lemma_mod_add_left, lemma_mod_mul_left, p, P};
use crate::gfp5::{fp5_add, fp5_mul, fp5_mul_small_k1, fp5_neg, fp5_scale, fp5_sub, GFp5};
use vstd::prelude::*;

verus! {

/// An extension-field element in a circuit: five wires.
#[derive(Clone, Copy, Debug)]
pub struct GFp5Target(pub [usize; 5]);

pub open spec fn v(gs: Seq<Gate>, inp: Seq<int>, w: usize) -> int {
    wire_val(gs, inp, w as int)
}

/// The five values of an element's wires.
pub open spec fn t5(gs: Seq<Gate>, inp: Seq<int>, t: GFp5Target) -> Seq<int> {
    seq![v(gs, inp, t.0[0]), v(gs, inp, t.0[1]), v(gs, inp, t.0[2]), v(gs, inp, t.0[3]), v(gs, inp, t.0[4])]
}

/// The element's wires exist in the builder.
pub open spec fn has5(b: Builder, t: GFp5Target) -> bool {
    forall|i: int| 0 <= i < 5 ==> #[trigger] t.0[i] < b.gates.len()
}

/// `x[lo] y[lo] + ... + x[hi-1] y[hi-1]`.
pub open spec fn sum_pairs(x: Seq<int>, y: Seq<int>, lo: int, hi: int) -> int
    decreases hi - lo,
{
    if lo >= hi {
        0
    } else {
        x[hi - 1] * y[hi - 1] + sum_pairs(x, y, lo, hi - 1)
    }
}

/// One coordinate of a product: the pairs from `split` upward are tripled.
pub open spec fn coord(x: Seq<int>, y: Seq<int>, split: int) -> int {
    (sum_pairs(x, y, 0, split) + 3 * sum_pairs(x, y, split, 5)) % p()
}

/// The values of five wires.
pub open spec fn vals5(gs: Seq<Gate>, inp: Seq<int>, w: [usize; 5]) -> Seq<int> {
    Seq::new(5, |k: int| v(gs, inp, w[k]))
}

impl Builder {
    /// Five fresh witness wires.
    pub fn add_virtual_gfp5_target(&mut self) -> (r: GFp5Target)
        requires
            old(self).wf(),
        ensures
            old(self).grows_to(*final(self)),
            final(self).constraints@ == old(self).constraints@,
            has5(*final(self), r),
            forall|i: int| 0 <= i < 5 ==> old(self).gates.len() <= #[trigger] r.0[i],
            forall|i: int| 0 <= i < 5 ==> #[trigger] r.0[i] == old(self).gates.len() + i,
            final(self).gates.len() == old(self).gates.len() + 5,
            forall|i: int| 0 <= i < 5 ==> (#[trigger] final(self).gates@[old(self).gates.len() + i]) is Input,
            forall|gs: Seq<Gate>, inp: Seq<int>, i: int|
                extends(final(self).gates@, gs) && 0 <= i < 5 ==> #[trigger] wire_val(gs, inp, r.0[i] as int) == inp[r.0[i] as int] % p(),
    {
        let ghost g0 = self.gates@;
        let t0 = self.add_virtual_target();
        let ghost g1 = self.gates@;
        let t1 = self.add_virtual_target();
        let ghost g2 = self.gates@;
        let t2 = self.add_virtual_target();
        let ghost g3 = self.gates@;
        let t3 = self.add_virtual_target();
        let ghost g4 = self.gates@;
        let t4 = self.add_virtual_target();
        let r = GFp5Target([t0, t1, t2, t3, t4]);
        proof {
            lemma_extends_trans_all();
            assert forall|gs: Seq<Gate>, inp: Seq<int>, i: int| extends(self.gates@, gs) && 0 <= i < 5 implies #[trigger] wire_val(gs, inp, r.0[i] as int) == inp[r.0[i] as int] % p() by {
                assert(extends(g1, gs) && extends(g2, gs) && extends(g3, gs) && extends(g4, gs));
            }
            assert(self.gates@ =~= g0.push(Gate::Input).push(Gate::Input).push(Gate::Input).push(Gate::Input).push(Gate::Input));
        }
        r
    }

    /// The element `c` as constant wires.
    pub fn constant_gfp5(&mut self, c: GFp5) -> (r: GFp5Target)
        requires
            old(self).wf(),
            c.wf(),
        ensures
            old(self).grows_to(*final(self)),
            final(self).constraints@ == old(self).constraints@,
            has5(*final(self), r),
            forall|gs: Seq<Gate>, inp: Seq<int>|
                extends(final(self).gates@, gs) ==> #[trigger] t5(gs, inp, r) == crate::gfp5::coords(c),
    {
        proof {
            assert(crate::field::canonical(c.0[0]) && crate::field::canonical(c.0[1]) && crate::field::canonical(c.0[2]));
            assert(crate::field::canonical(c.0[3]) && crate::field::canonical(c.0[4]));
        }
        let t0 = self.constant(c.0[0]);
        let ghost g1 = self.gates@;
        let t1 = self.constant(c.0[1]);
        let ghost g2 = self.gates@;
        let t2 = self.constant(c.0[2]);
        let ghost g3 = self.gates@;
        let t3 = self.constant(c.0[3]);
        let ghost g4 = self.gates@;
        let t4 = self.constant(c.0[4]);
        let r = GFp5Target([t0, t1, t2, t3, t4]);
        proof {
            lemma_extends_trans_all();
            assert forall|gs: Seq<Gate>, inp: Seq<int>| extends(self.gates@, gs) implies #[trigger] t5(gs, inp, r) == crate::gfp5::coords(c) by {
                assert(extends(g1, gs) && extends(g2, gs) && extends(g3, gs) && extends(g4, gs));
                assert(t5(gs, inp, r) =~= crate::gfp5::coords(c));
            }
        }
        r
    }

    /// The element zero.
    pub fn zero_gfp5(&mut self) -> (r: GFp5Target)
        requires
            old(self).wf(),
        ensures
            old(self).grows_to(*final(self)),
            final(self).constraints@ == old(self).constraints@,
            has5(*final(self), r),
            forall|gs: Seq<Gate>, inp: Seq<int>|
                extends(final(self).gates@, gs) ==> #[trigger] t5(gs, inp, r) == crate::gfp5::fp5_zero(),
    {
        let z = GFp5::zero();
        self.constant_gfp5(z)
    }

    /// The element one.
    pub fn one_gfp5(&mut self) -> (r: GFp5Target)
        requires
            old(self).wf(),
        ensures
            old(self).grows_to(*final(self)),
            final(self).constraints@ == old(self).constraints@,
            has5(*final(self), r),
            forall|gs: Seq<Gate>, inp: Seq<int>|
                extends(final(self).gates@, gs) ==> #[trigger] t5(gs, inp, r) == crate::gfp5::fp5_one(),
    {
        let o = GFp5::one();
        self.constant_gfp5(o)
    }

    /// `a + b`, limb by limb.
    pub fn add_gfp5(&mut self, a: GFp5Target, b: GFp5Target) -> (r: GFp5Target)
        requires
            old(self).wf(),
            has5(*old(self), a),
            has5(*old(self), b),
        ensures
            old(self).grows_to(*final(self)),
            final(self).constraints@ == old(self).constraints@,
            has5(*final(self), r),
            forall|gs: Seq<Gate>, inp: Seq<int>|
                extends(final(self).gates@, gs) ==> #[trigger] t5(gs, inp, r) == fp5_add(t5(gs, inp, a), t5(gs, inp, b)),
    {
        proof {
            assert(a.0[0] < self.gates.len() && a.0[1] < self.gates.len() && a.0[2] < self.gates.len() && a.0[3] < self.gates.len() && a.0[4] < self.gates.len());
            assert(b.0[0] < self.gates.len() && b.0[1] < self.gates.len() && b.0[2] < self.gates.len() && b.0[3] < self.gates.len() && b.0[4] < self.gates.len());
        }
        let r0 = self.add(a.0[0], b.0[0]);
        let ghost g1 = self.gates@;
        let r1 = self.add(a.0[1], b.0[1]);
        let ghost g2 = self.gates@;
        let r2 = self.add(a.0[2], b.0[2]);
        let ghost g3 = self.gates@;
        let r3 = self.add(a.0[3], b.0[3]);
        let ghost g4 = self.gates@;
        let r4 = self.add(a.0[4], b.0[4]);
        let r = GFp5Target([r0, r1, r2, r3, r4]);
        proof {
            lemma_extends_trans_all();
            assert forall|gs: Seq<Gate>, inp: Seq<int>| extends(self.gates@, gs) implies #[trigger] t5(gs, inp, r) == fp5_add(t5(gs, inp, a), t5(gs, inp, b)) by {
                assert(extends(g1, gs) && extends(g2, gs) && extends(g3, gs) && extends(g4, gs));
                reveal(fp5_add);
                assert(t5(gs, inp, r) =~= fp5_add(t5(gs, inp, a), t5(gs, inp, b)));
            }
        }
        r
    }

    /// `a - b`, limb by limb.
    pub fn sub_gfp5(&mut self, a: GFp5Target, b: GFp5Target) -> (r: GFp5Target)
        requires
            old(self).wf(),
            has5(*old(self), a),
            has5(*old(self), b),
        ensures
            old(self).grows_to(*final(self)),
            final(self).constraints@ == old(self).constraints@,
            has5(*final(self), r),
            forall|gs: Seq<Gate>, inp: Seq<int>|
                extends(final(self).gates@, gs) ==> #[trigger] t5(gs, inp, r) == fp5_sub(t5(gs, inp, a), t5(gs, inp, b)),
    {
        proof {
            assert(a.0[0] < self.gates.len() && a.0[1] < self.gates.len() && a.0[2] < self.gates.len() && a.0[3] < self.gates.len() && a.0[4] < self.gates.len());
            assert(b.0[0] < self.gates.len() && b.0[1] < self.gates.len() && b.0[2] < self.gates.len() && b.0[3] < self.gates.len() && b.0[4] < self.gates.len());
        }
        let r0 = self.sub(a.0[0], b.0[0]);
        let ghost g1 = self.gates@;
        let r1 = self.sub(a.0[1], b.0[1]);
        let ghost g2 = self.gates@;
        let r2 = self.sub(a.0[2], b.0[2]);
        let ghost g3 = self.gates@;
        let r3 = self.sub(a.0[3], b.0[3]);
        let ghost g4 = self.gates@;
        let r4 = self.sub(a.0[4], b.0[4]);
        let r = GFp5Target([r0, r1, r2, r3, r4]);
        proof {
            lemma_extends_trans_all();
            assert forall|gs: Seq<Gate>, inp: Seq<int>| extends(self.gates@, gs) implies #[trigger] t5(gs, inp, r) == fp5_sub(t5(gs, inp, a), t5(gs, inp, b)) by {
                assert(extends(g1, gs) && extends(g2, gs) && extends(g3, gs) && extends(g4, gs));
                reveal(fp5_sub);
                assert(t5(gs, inp, r) =~= fp5_sub(t5(gs, inp, a), t5(gs, inp, b)));
            }
        }
        r
    }

    /// `2 a`, as `a + a`.
    pub fn double_gfp5(&mut self, a: GFp5Target) -> (r: GFp5Target)
        requires
            old(self).wf(),
            has5(*old(self), a),
        ensures
            old(self).grows_to(*final(self)),
            final(self).constraints@ == old(self).constraints@,
            has5(*final(self), r),
            forall|gs: Seq<Gate>, inp: Seq<int>|
                extends(final(self).gates@, gs) ==> #[trigger] t5(gs, inp, r) == fp5_add(t5(gs, inp, a), t5(gs, inp, a)),
    {
        self.add_gfp5(a, a)
    }

    /// Multiplication by the curve constant `a = 2`: a doubling.
    pub fn mul_by_a_gfp5(&mut self, a: GFp5Target) -> (r: GFp5Target)
        requires
            old(self).wf(),
            has5(*old(self), a),
        ensures
            old(self).grows_to(*final(self)),
            final(self).constraints@ == old(self).constraints@,
            has5(*final(self), r),
            forall|gs: Seq<Gate>, inp: Seq<int>|
                extends(final(self).gates@, gs) ==> #[trigger] t5(gs, inp, r) == fp5_add(t5(gs, inp, a), t5(gs, inp, a)),
    {
        self.double_gfp5(a)
    }

    /// `-a`, as `0 - a` limb by limb.
    pub fn neg_gfp5(&mut self, a: GFp5Target) -> (r: GFp5Target)
        requires
            old(self).wf(),
            has5(*old(self), a),
        ensures
            old(self).grows_to(*final(self)),
            final(self).constraints@ == old(self).constraints@,
            has5(*final(self), r),
            forall|gs: Seq<Gate>, inp: Seq<int>|
                extends(final(self).gates@, gs) ==> #[trigger] t5(gs, inp, r) == fp5_neg(t5(gs, inp, a)),
    {
        let ghost g0 = self.gates@;
        let z = self.zero_gfp5();
        let ghost g1 = self.gates@;
        let r = self.sub_gfp5(z, a);
        proof {
            lemma_extends_trans_all();
            assert forall|gs: Seq<Gate>, inp: Seq<int>| extends(self.gates@, gs) implies #[trigger] t5(gs, inp, r) == fp5_neg(t5(gs, inp, a)) by {
                assert(extends(g1, gs));
                reveal(fp5_neg);
                reveal(fp5_sub);
                assert(t5(gs, inp, r) =~= fp5_neg(t5(gs, inp, a)));
            }
        }
        r
    }

    /// Multiplies every limb by the small constant `k`.
    pub fn mul_small_gfp5(&mut self, a: GFp5Target, k: u32) -> (r: GFp5Target)
        requires
            old(self).wf(),
            has5(*old(self), a),
        ensures
            old(self).grows_to(*final(self)),
            final(self).constraints@ == old(self).constraints@,
            has5(*final(self), r),
            forall|gs: Seq<Gate>, inp: Seq<int>|
                extends(final(self).gates@, gs) ==> #[trigger] t5(gs, inp, r) == fp5_scale(t5(gs, inp, a), k as int),
    {
        proof {
            assert(a.0[0] < self.gates.len() && a.0[1] < self.gates.len() && a.0[2] < self.gates.len() && a.0[3] < self.gates.len() && a.0[4] < self.gates.len());
        }
        let r0 = self.mul_const(k as u64, a.0[0]);
        let ghost g1 = self.gates@;
        let r1 = self.mul_const(k as u64, a.0[1]);
        let ghost g2 = self.gates@;
        let r2 = self.mul_const(k as u64, a.0[2]);
        let ghost g3 = self.gates@;
        let r3 = self.mul_const(k as u64, a.0[3]);
        let ghost g4 = self.gates@;
        let r4 = self.mul_const(k as u64, a.0[4]);
        let r = GFp5Target([r0, r1, r2, r3, r4]);
        proof {
            lemma_extends_trans_all();
            assert forall|gs: Seq<Gate>, inp: Seq<int>| extends(self.gates@, gs) implies #[trigger] t5(gs, inp, r) == fp5_scale(t5(gs, inp, a), k as int) by {
                assert(extends(g1, gs) && extends(g2, gs) && extends(g3, gs) && extends(g4, gs));
                reveal(fp5_scale);
                assert(t5(gs, inp, r) =~= fp5_scale(t5(gs, inp, a), k as int));
            }
        }
        r
    }

    /// Multiplication by `k w`: limbs shift up one place; the top one wraps
    /// to the constant term times 3.
    pub fn mul_small_k1_gfp5(&mut self, a: GFp5Target, k: u32) -> (r: GFp5Target)
        requires
            old(self).wf(),
            has5(*old(self), a),
        ensures
            old(self).grows_to(*final(self)),
            final(self).constraints@ == old(self).constraints@,
            has5(*final(self), r),
            forall|gs: Seq<Gate>, inp: Seq<int>|
                extends(final(self).gates@, gs) ==> #[trigger] t5(gs, inp, r) == fp5_mul_small_k1(t5(gs, inp, a), k as int),
    {
        proof {
            assert(a.0[0] < self.gates.len() && a.0[1] < self.gates.len() && a.0[2] < self.gates.len() && a.0[3] < self.gates.len() && a.0[4] < self.gates.len());
        }
        let k3 = 3 * (k as u64);
        let r0 = self.mul_const(k3, a.0[4]);
        let ghost g1 = self.gates@;
        let r1 = self.mul_const(k as u64, a.0[0]);
        let ghost g2 = self.gates@;
        let r2 = self.mul_const(k as u64, a.0[1]);
        let ghost g3 = self.gates@;
        let r3 = self.mul_const(k as u64, a.0[2]);
        let ghost g4 = self.gates@;
        let r4 = self.mul_const(k as u64, a.0[3]);
        let r = GFp5Target([r0, r1, r2, r3, r4]);
        proof {
            lemma_extends_trans_all();
            assert forall|gs: Seq<Gate>, inp: Seq<int>| extends(self.gates@, gs) implies #[trigger] t5(gs, inp, r) == fp5_mul_small_k1(t5(gs, inp, a), k as int) by {
                assert(extends(g1, gs) && extends(g2, gs) && extends(g3, gs) && extends(g4, gs));
                reveal(fp5_mul_small_k1);
                assert(t5(gs, inp, r) =~= fp5_mul_small_k1(t5(gs, inp, a), k as int));
            }
        }
        r
    }

    /// Multiplication by the curve constant `b = 263 w`.
    pub fn mul_by_b_gfp5(&mut self, a: GFp5Target) -> (r: GFp5Target)
        requires
            old(self).wf(),
            has5(*old(self), a),
        ensures
            old(self).grows_to(*final(self)),
            final(self).constraints@ == old(self).constraints@,
            has5(*final(self), r),
            forall|gs: Seq<Gate>, inp: Seq<int>|
                extends(final(self).gates@, gs) ==> #[trigger] t5(gs, inp, r) == fp5_mul_small_k1(t5(gs, inp, a), 263),
    {
        self.mul_small_k1_gfp5(a, 263)
    }
}

impl Builder {
    /// `sum x_i y_i` over the low pairs plus three times the sum over the
    /// pairs from `split` up, accumulated from the top pair down.
    fn coord_gadget(&mut self, x: [usize; 5], y: [usize; 5], split: usize) -> (r: usize)
        requires
            old(self).wf(),
            1 <= split <= 5,
            forall|i: int| 0 <= i < 5 ==> #[trigger] x[i] < old(self).gates.len(),
            forall|i: int| 0 <= i < 5 ==> #[trigger] y[i] < old(self).gates.len(),
        ensures
            old(self).grows_to(*final(self)),
            final(self).constraints@ == old(self).constraints@,
            r < final(self).gates.len(),
            forall|gs: Seq<Gate>, inp: Seq<int>|
                extends(final(self).gates@, gs) ==> #[trigger] v(gs, inp, r) == coord(vals5(gs, inp, x), vals5(gs, inp, y), split as int),
    {
        let ghost g0 = *self;
        let mut acc = self.mul(x[4], y[4]);
        let mut i: usize = 4;
        proof {
            lemma_extends_trans_all();
            assert forall|gs: Seq<Gate>, inp: Seq<int>| extends(self.gates@, gs) implies #[trigger] v(gs, inp, acc) == sum_pairs(vals5(gs, inp, x), vals5(gs, inp, y), 4, 5) % p() by {
                assert(sum_pairs(vals5(gs, inp, x), vals5(gs, inp, y), 4, 4) == 0);
            }
        }
        if split < 5 {
            while i > split
                invariant
                    split <= i <= 4,
                    1 <= split <= 5,
                    g0.grows_to(*self),
                    self.constraints@ == g0.constraints@,
                    acc < self.gates.len(),
                    forall|k: int| 0 <= k < 5 ==> #[trigger] x[k] < self.gates.len(),
                    forall|k: int| 0 <= k < 5 ==> #[trigger] y[k] < self.gates.len(),
                    forall|gs: Seq<Gate>, inp: Seq<int>|
                        extends(self.gates@, gs) ==> #[trigger] v(gs, inp, acc) == sum_pairs(vals5(gs, inp, x), vals5(gs, inp, y), i as int, 5) % p(),
                decreases i,
            {
                i = i - 1;
                let ghost g1 = *self;
                let ghost old_acc = acc;
                acc = self.mul_add(x[i], y[i], acc);
                proof {
                    lemma_extends_trans_all();
                    assert forall|gs: Seq<Gate>, inp: Seq<int>| extends(self.gates@, gs) implies #[trigger] v(gs, inp, acc) == sum_pairs(vals5(gs, inp, x), vals5(gs, inp, y), i as int, 5) % p() by {
                        assert(extends(g1.gates@, gs));
                        let xv = vals5(gs, inp, x);
                        let yv = vals5(gs, inp, y);
                        lemma_sum_pairs_low(xv, yv, i as int, 5);
                        assert(v(gs, inp, old_acc) == sum_pairs(xv, yv, i + 1, 5) % p());
                        assert(xv[i as int] == v(gs, inp, x[i as int]));
                        assert(v(gs, inp, acc) == (v(gs, inp, x[i as int]) * v(gs, inp, y[i as int]) + v(gs, inp, old_acc)) % p());
                        crate::field::lemma_mod_add_right(xv[i as int] * yv[i as int], sum_pairs(xv, yv, i + 1, 5));
                    }
                }
            }
            let ghost g1 = *self;
            let ghost old_acc = acc;
            acc = self.mul_const(3, acc);
            proof {
                lemma_extends_trans_all();
                assert forall|gs: Seq<Gate>, inp: Seq<int>| extends(self.gates@, gs) implies #[trigger] v(gs, inp, acc) == (sum_pairs(vals5(gs, inp, x), vals5(gs, inp, y), split as int, split as int) + 3 * sum_pairs(vals5(gs, inp, x), vals5(gs, inp, y), split as int, 5)) % p() by {
                    assert(extends(g1.gates@, gs));
                    let s = sum_pairs(vals5(gs, inp, x), vals5(gs, inp, y), split as int, 5);
                    assert(v(gs, inp, old_acc) == s % p());
                    assert(v(gs, inp, acc) == (3 * v(gs, inp, old_acc)) % p());
                    lemma_mod_mul_left(s, 3);
                    assert(sum_pairs(vals5(gs, inp, x), vals5(gs, inp, y), split as int, split as int) == 0);
                    assert(3 * s == s * 3);
                }
            }
            i = split;
        } else {
            proof {
                assert forall|gs: Seq<Gate>, inp: Seq<int>| extends(self.gates@, gs) implies #[trigger] v(gs, inp, acc) == (sum_pairs(vals5(gs, inp, x), vals5(gs, inp, y), i as int, split as int) + 3 * sum_pairs(vals5(gs, inp, x), vals5(gs, inp, y), split as int, 5)) % p() by {
                    assert(sum_pairs(vals5(gs, inp, x), vals5(gs, inp, y), 5, 5) == 0);
                }
            }
        }
        while i > 0
            invariant
                i <= split,
                1 <= split <= 5,
                g0.grows_to(*self),
                self.constraints@ == g0.constraints@,
                acc < self.gates.len(),
                forall|k: int| 0 <= k < 5 ==> #[trigger] x[k] < self.gates.len(),
                forall|k: int| 0 <= k < 5 ==> #[trigger] y[k] < self.gates.len(),
                forall|gs: Seq<Gate>, inp: Seq<int>|
                    extends(self.gates@, gs) ==> #[trigger] v(gs, inp, acc) == (sum_pairs(vals5(gs, inp, x), vals5(gs, inp, y), i as int, split as int) + 3 * sum_pairs(vals5(gs, inp, x), vals5(gs, inp, y), split as int, 5)) % p(),
            decreases i,
        {
            i = i - 1;
            let ghost g1 = *self;
            let ghost old_acc = acc;
            acc = self.mul_add(x[i], y[i], acc);
            proof {
                lemma_extends_trans_all();
                assert forall|gs: Seq<Gate>, inp: Seq<int>| extends(self.gates@, gs) implies #[trigger] v(gs, inp, acc) == (sum_pairs(vals5(gs, inp, x), vals5(gs, inp, y), i as int, split as int) + 3 * sum_pairs(vals5(gs, inp, x), vals5(gs, inp, y), split as int, 5)) % p() by {
                    assert(extends(g1.gates@, gs));
                    let xv = vals5(gs, inp, x);
                    let yv = vals5(gs, inp, y);
                    lemma_sum_pairs_low(xv, yv, i as int, split as int);
                    let t = sum_pairs(xv, yv, i + 1, split as int) + 3 * sum_pairs(xv, yv, split as int, 5);
                    assert(v(gs, inp, old_acc) == t % p());
                    assert(xv[i as int] == v(gs, inp, x[i as int]));
                    assert(v(gs, inp, acc) == (v(gs, inp, x[i as int]) * v(gs, inp, y[i as int]) + v(gs, inp, old_acc)) % p());
                    crate::field::lemma_mod_add_right(xv[i as int] * yv[i as int], t);
                }
            }
        }
        acc
    }
}

impl Builder {
    /// The product in GF(p^5); each coordinate accumulates its tripled
    /// cross products first, multiplies by 3, then adds the others.
    pub fn mul_gfp5(&mut self, a: GFp5Target, b: GFp5Target) -> (r: GFp5Target)
        requires
            old(self).wf(),
            has5(*old(self), a),
            has5(*old(self), b),
        ensures
            old(self).grows_to(*final(self)),
            final(self).constraints@ == old(self).constraints@,
            has5(*final(self), r),
            forall|gs: Seq<Gate>, inp: Seq<int>|
                extends(final(self).gates@, gs) ==> #[trigger] t5(gs, inp, r) == fp5_mul(t5(gs, inp, a), t5(gs, inp, b)),
    {
        let (a0, a1, a2, a3, a4) = (a.0[0], a.0[1], a.0[2], a.0[3], a.0[4]);
        let (b0, b1, b2, b3, b4) = (b.0[0], b.0[1], b.0[2], b.0[3], b.0[4]);
        proof {
            assert(a0 < self.gates.len() && a1 < self.gates.len() && a2 < self.gates.len() && a3 < self.gates.len() && a4 < self.gates.len());
            assert(b0 < self.gates.len() && b1 < self.gates.len() && b2 < self.gates.len() && b3 < self.gates.len() && b4 < self.gates.len());
        }
        let xs = [a0, a1, a2, a3, a4];
        let c0 = self.coord_gadget(xs, [b0, b4, b3, b2, b1], 1);
        let ghost g1 = self.gates@;
        let c1 = self.coord_gadget(xs, [b1, b0, b4, b3, b2], 2);
        let ghost g2 = self.gates@;
        let c2 = self.coord_gadget(xs, [b2, b1, b0, b4, b3], 3);
        let ghost g3 = self.gates@;
        let c3 = self.coord_gadget(xs, [b3, b2, b1, b0, b4], 4);
        let ghost g4 = self.gates@;
        let c4 = self.coord_gadget(xs, [b4, b3, b2, b1, b0], 5);
        let r = GFp5Target([c0, c1, c2, c3, c4]);
        proof {
            lemma_extends_trans_all();
            assert forall|gs: Seq<Gate>, inp: Seq<int>| extends(self.gates@, gs) implies #[trigger] t5(gs, inp, r) == fp5_mul(t5(gs, inp, a), t5(gs, inp, b)) by {
                assert(extends(g1, gs) && extends(g2, gs) && extends(g3, gs) && extends(g4, gs));
                reveal_with_fuel(sum_pairs, 6);
                reveal(fp5_mul);
                reveal(fp5_mul);
                assert(t5(gs, inp, r) =~= fp5_mul(t5(gs, inp, a), t5(gs, inp, b)));
            }
        }
        r
    }

    /// Multiplication by a constant element.
    pub fn mul_const_gfp5(&mut self, c: GFp5, a: GFp5Target) -> (r: GFp5Target)
        requires
            old(self).wf(),
            c.wf(),
            has5(*old(self), a),
        ensures
            old(self).grows_to(*final(self)),
            final(self).constraints@ == old(self).constraints@,
            has5(*final(self), r),
            forall|gs: Seq<Gate>, inp: Seq<int>|
                extends(final(self).gates@, gs) ==> #[trigger] t5(gs, inp, r) == fp5_mul(crate::gfp5::coords(c), t5(gs, inp, a)),
    {
        let k = self.constant_gfp5(c);
        let ghost g1 = self.gates@;
        let r = self.mul_gfp5(k, a);
        proof {
            lemma_extends_trans_all();
            assert forall|gs: Seq<Gate>, inp: Seq<int>| extends(self.gates@, gs) implies #[trigger] t5(gs, inp, r) == fp5_mul(crate::gfp5::coords(c), t5(gs, inp, a)) by {
                assert(extends(g1, gs));
            }
        }
        r
    }

    /// 1 when the five limbs of `a` and `b` agree, else 0: the product of
    /// the five limb equalities.
    pub fn is_equal_gfp5(&mut self, a: GFp5Target, b: GFp5Target) -> (r: usize)
        requires
            old(self).wf(),
            has5(*old(self), a),
            has5(*old(self), b),
        ensures
            old(self).grows_to(*final(self)),
            final(self).constraints@ == old(self).constraints@,
            r < final(self).gates.len(),
            forall|gs: Seq<Gate>, inp: Seq<int>|
                extends(final(self).gates@, gs) ==> #[trigger] v(gs, inp, r) == if t5(gs, inp, a) == t5(gs, inp, b) {
                    1int
                } else {
                    0int
                },
    {
        proof {
            assert(a.0[0] < self.gates.len() && a.0[1] < self.gates.len() && a.0[2] < self.gates.len() && a.0[3] < self.gates.len() && a.0[4] < self.gates.len());
            assert(b.0[0] < self.gates.len() && b.0[1] < self.gates.len() && b.0[2] < self.gates.len() && b.0[3] < self.gates.len() && b.0[4] < self.gates.len());
        }
        let e0 = self.is_equal(a.0[0], b.0[0]);
        let ghost g1 = self.gates@;
        let e1 = self.is_equal(a.0[1], b.0[1]);
        let ghost g2 = self.gates@;
        let e2 = self.is_equal(a.0[2], b.0[2]);
        let ghost g3 = self.gates@;
        let e3 = self.is_equal(a.0[3], b.0[3]);
        let ghost g4 = self.gates@;
        let e4 = self.is_equal(a.0[4], b.0[4]);
        let ghost g5 = self.gates@;
        let m1 = self.mul(e0, e1);
        let ghost g6 = self.gates@;
        let m2 = self.mul(m1, e2);
        let ghost g7 = self.gates@;
        let m3 = self.mul(m2, e3);
        let ghost g8 = self.gates@;
        let r = self.mul(m3, e4);
        proof {
            lemma_extends_trans_all();
            assert forall|gs: Seq<Gate>, inp: Seq<int>| extends(self.gates@, gs) implies #[trigger] v(gs, inp, r) == if t5(gs, inp, a) == t5(gs, inp, b) {
                1int
            } else {
                0int
            } by {
                assert(extends(g1, gs) && extends(g2, gs) && extends(g3, gs) && extends(g4, gs));
                assert(extends(g5, gs) && extends(g6, gs) && extends(g7, gs) && extends(g8, gs));
                let (ta, tb) = (t5(gs, inp, a), t5(gs, inp, b));
                if ta == tb {
                    assert(ta[0] == tb[0] && ta[1] == tb[1] && ta[2] == tb[2] && ta[3] == tb[3] && ta[4] == tb[4]);
                } else {
                    assert(!(ta[0] == tb[0] && ta[1] == tb[1] && ta[2] == tb[2] && ta[3] == tb[3] && ta[4] == tb[4])) by {
                        if ta[0] == tb[0] && ta[1] == tb[1] && ta[2] == tb[2] && ta[3] == tb[3] && ta[4] == tb[4] {
                            assert(ta =~= tb);
                        }
                    }
                }
            }
        }
        r
    }

    /// 1 when all five limbs are zero, else 0.
    pub fn is_zero_gfp5(&mut self, a: GFp5Target) -> (r: usize)
        requires
            old(self).wf(),
            has5(*old(self), a),
        ensures
            old(self).grows_to(*final(self)),
            final(self).constraints@ == old(self).constraints@,
            r < final(self).gates.len(),
            forall|gs: Seq<Gate>, inp: Seq<int>|
                extends(final(self).gates@, gs) ==> #[trigger] v(gs, inp, r) == if t5(gs, inp, a) == crate::gfp5::fp5_zero() {
                    1int
                } else {
                    0int
                },
    {
        let z = self.zero_gfp5();
        let ghost g1 = self.gates@;
        let r = self.is_equal_gfp5(a, z);
        proof {
            lemma_extends_trans_all();
            assert forall|gs: Seq<Gate>, inp: Seq<int>| extends(self.gates@, gs) implies #[trigger] v(gs, inp, r) == if t5(gs, inp, a) == crate::gfp5::fp5_zero() {
                1int
            } else {
                0int
            } by {
                assert(extends(g1, gs));
            }
        }
        r
    }

    /// Per limb `c (a - b) + b`: `a` when `c` is 1, `b` when it is 0.
    pub fn select_gfp5(&mut self, c: usize, a: GFp5Target, b: GFp5Target) -> (r: GFp5Target)
        requires
            old(self).wf(),
            c < old(self).gates.len(),
            has5(*old(self), a),
            has5(*old(self), b),
        ensures
            old(self).grows_to(*final(self)),
            final(self).constraints@ == old(self).constraints@,
            has5(*final(self), r),
            forall|gs: Seq<Gate>, inp: Seq<int>|
                extends(final(self).gates@, gs) ==> #[trigger] t5(gs, inp, r) == fp5_add(
                    fp5_scale(fp5_sub(t5(gs, inp, a), t5(gs, inp, b)), v(gs, inp, c)),
                    t5(gs, inp, b),
                ),
    {
        let ghost g0 = self.gates@;
        let d = self.sub_gfp5(a, b);
        let ghost g1 = self.gates@;
        let m = self.mul_small_wire(c, d);
        let ghost g2 = self.gates@;
        let r = self.add_gfp5(m, b);
        proof {
            lemma_extends_trans_all();
            assert forall|gs: Seq<Gate>, inp: Seq<int>| extends(self.gates@, gs) implies #[trigger] t5(gs, inp, r) == fp5_add(
                fp5_scale(fp5_sub(t5(gs, inp, a), t5(gs, inp, b)), v(gs, inp, c)),
                t5(gs, inp, b),
            ) by {
                assert(extends(g1, gs) && extends(g2, gs));
                let dv = fp5_sub(t5(gs, inp, a), t5(gs, inp, b));
                assert(t5(gs, inp, d) == dv);
                reveal(fp5_scale);
                assert(t5(gs, inp, m) =~= fp5_scale(dv, v(gs, inp, c)));
            }
        }
        r
    }

    /// Every limb of `a` times the wire `c`.
    fn mul_small_wire(&mut self, c: usize, a: GFp5Target) -> (r: GFp5Target)
        requires
            old(self).wf(),
            c < old(self).gates.len(),
            has5(*old(self), a),
        ensures
            old(self).grows_to(*final(self)),
            final(self).constraints@ == old(self).constraints@,
            has5(*final(self), r),
            forall|gs: Seq<Gate>, inp: Seq<int>|
                extends(final(self).gates@, gs) ==> #[trigger] t5(gs, inp, r) == crate::gfp5::fp5(
                    v(gs, inp, c) * t5(gs, inp, a)[0],
                    v(gs, inp, c) * t5(gs, inp, a)[1],
                    v(gs, inp, c) * t5(gs, inp, a)[2],
                    v(gs, inp, c) * t5(gs, inp, a)[3],
                    v(gs, inp, c) * t5(gs, inp, a)[4],
                ),
    {
        proof {
            assert(a.0[0] < self.gates.len() && a.0[1] < self.gates.len() && a.0[2] < self.gates.len() && a.0[3] < self.gates.len() && a.0[4] < self.gates.len());
        }
        let r0 = self.mul(c, a.0[0]);
        let ghost g1 = self.gates@;
        let r1 = self.mul(c, a.0[1]);
        let ghost g2 = self.gates@;
        let r2 = self.mul(c, a.0[2]);
        let ghost g3 = self.gates@;
        let r3 = self.mul(c, a.0[3]);
        let ghost g4 = self.gates@;
        let r4 = self.mul(c, a.0[4]);
        let r = GFp5Target([r0, r1, r2, r3, r4]);
        proof {
            lemma_extends_trans_all();
            assert forall|gs: Seq<Gate>, inp: Seq<int>| extends(self.gates@, gs) implies #[trigger] t5(gs, inp, r) == crate::gfp5::fp5(
                v(gs, inp, c) * t5(gs, inp, a)[0],
                v(gs, inp, c) * t5(gs, inp, a)[1],
                v(gs, inp, c) * t5(gs, inp, a)[2],
                v(gs, inp, c) * t5(gs, inp, a)[3],
                v(gs, inp, c) * t5(gs, inp, a)[4],
            ) by {
                assert(extends(g1, gs) && extends(g2, gs) && extends(g3, gs) && extends(g4, gs));
                assert(t5(gs, inp, r) =~= crate::gfp5::fp5(
                    v(gs, inp, c) * t5(gs, inp, a)[0],
                    v(gs, inp, c) * t5(gs, inp, a)[1],
                    v(gs, inp, c) * t5(gs, inp, a)[2],
                    v(gs, inp, c) * t5(gs, inp, a)[3],
                    v(gs, inp, c) * t5(gs, inp, a)[4],
                ));
            }
        }
        r
    }

    /// Constrains two elements to have equal limbs.
    pub fn connect_gfp5(&mut self, a: GFp5Target, b: GFp5Target)
        requires
            old(self).wf(),
        ensures
            old(self).grows_to(*final(self)),
            final(self).gates@ == old(self).gates@,
            final(self).constraints@ == old(self).constraints@ + seq![
                Constraint::Connect(a.0[0], b.0[0]),
                Constraint::Connect(a.0[1], b.0[1]),
                Constraint::Connect(a.0[2], b.0[2]),
                Constraint::Connect(a.0[3], b.0[3]),
                Constraint::Connect(a.0[4], b.0[4]),
            ],
    {
        let ghost c0 = self.constraints@;
        self.add_constraint(Constraint::Connect(a.0[0], b.0[0]));
        self.add_constraint(Constraint::Connect(a.0[1], b.0[1]));
        self.add_constraint(Constraint::Connect(a.0[2], b.0[2]));
        self.add_constraint(Constraint::Connect(a.0[3], b.0[3]));
        self.add_constraint(Constraint::Connect(a.0[4], b.0[4]));
        proof {
            crate::circuit::lemma_extends_refl(self.gates@);
            assert(self.constraints@ =~= c0 + seq![
                Constraint::Connect(a.0[0], b.0[0]),
                Constraint::Connect(a.0[1], b.0[1]),
                Constraint::Connect(a.0[2], b.0[2]),
                Constraint::Connect(a.0[3], b.0[3]),
                Constraint::Connect(a.0[4], b.0[4]),
            ]);
            assert(self.constraints@.subrange(0, c0.len() as int) =~= c0);
        }
    }

    /// Exposes the five limbs as public inputs, in order.
    pub fn register_gfp5_public_input(&mut self, a: GFp5Target)
        requires
            old(self).wf(),
        ensures
            old(self).grows_to(*final(self)),
            final(self).gates@ == old(self).gates@,
            final(self).constraints@ == old(self).constraints@ + seq![
                Constraint::PublicInput(a.0[0]),
                Constraint::PublicInput(a.0[1]),
                Constraint::PublicInput(a.0[2]),
                Constraint::PublicInput(a.0[3]),
                Constraint::PublicInput(a.0[4]),
            ],
    {
        let ghost c0 = self.constraints@;
        self.add_constraint(Constraint::PublicInput(a.0[0]));
        self.add_constraint(Constraint::PublicInput(a.0[1]));
        self.add_constraint(Constraint::PublicInput(a.0[2]));
        self.add_constraint(Constraint::PublicInput(a.0[3]));
        self.add_constraint(Constraint::PublicInput(a.0[4]));
        proof {
            crate::circuit::lemma_extends_refl(self.gates@);
            assert(self.constraints@ =~= c0 + seq![
                Constraint::PublicInput(a.0[0]),
                Constraint::PublicInput(a.0[1]),
                Constraint::PublicInput(a.0[2]),
                Constraint::PublicInput(a.0[3]),
                Constraint::PublicInput(a.0[4]),
            ]);
            assert(self.constraints@.subrange(0, c0.len() as int) =~= c0);
        }
    }
}

/// Splitting off the lowest pair of a sum.
pub proof fn lemma_sum_pairs_low(x: Seq<int>, y: Seq<int>, lo: int, hi: int)
    requires
        lo < hi,
    ensures
        sum_pairs(x, y, lo, hi) == x[lo] * y[lo] + sum_pairs(x, y, lo + 1, hi),
    decreases hi - lo,
{
    if lo + 1 < hi {
        lemma_sum_pairs_low(x, y, lo, hi - 1);
    } else {
        assert(sum_pairs(x, y, lo + 1, hi) == 0);
        assert(sum_pairs(x, y, lo, hi - 1) == 0);
    }
}

} // verus!
