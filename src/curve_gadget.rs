//! Gadgets for curve points: four extension elements per point and the
//! same complete formulas as the native group law.
use crate::circuit::{
    b01, extends, is_bit, lemma_extends_trans_all, lemma_small_values, wire_val, Builder, Constraint, Gate,
};
use crate::curve::{
    spec_add, spec_double, spec_equals, spec_generator, spec_is_zero, spec_neg, spec_on_curve,
    spec_scalar_mul_from, spec_shamir_from, spec_shamir_term, spec_zero, Point, PointModel, B1,
};
use crate::field::p;
use crate::field::lemma_mod_add_left;
use crate::gfp5::{fp5, fp5_add, fp5_mul, fp5_mul_small_k1, fp5_scale, fp5_sub, fp5_zero, GFp5};
use crate::gfp5_gadget::{has5, t5, v, GFp5Target};
use vstd::prelude::*;

verus! {

/// A point in a circuit.
#[derive(Clone, Copy, Debug)]
pub struct PointTarget {
    pub x: GFp5Target,
    pub z: GFp5Target,
    pub u: GFp5Target,
    pub t: GFp5Target,
}

/// The values of a point's wires.
pub open spec fn pt4(gs: Seq<Gate>, inp: Seq<int>, q: PointTarget) -> PointModel {
    (t5(gs, inp, q.x), t5(gs, inp, q.z), t5(gs, inp, q.u), t5(gs, inp, q.t))
}

/// The 20 wires of a point, in the order X, Z, U, T.
pub open spec fn point_wire_seq(q: PointTarget) -> Seq<usize> {
    q.x.0@ + q.z.0@ + q.u.0@ + q.t.0@
}

/// The point's 20 wires are the input wires `start`, `start + 1`, ... of `gs`.
pub open spec fn fresh_point(gs: Seq<Gate>, q: PointTarget, start: int) -> bool {
    forall|k: int| 0 <= k < 20 ==> #[trigger] point_wire_seq(q)[k] == start + k && start + k < gs.len() && gs[start + k] is Input
}

/// `c` constrains a wire that is one exactly when the point is on the curve
/// or the identity.
pub open spec fn on_curve_checked(gs: Seq<Gate>, q: PointTarget, c: Constraint) -> bool {
    &&& c is AssertOne
    &&& c->AssertOne_0 < gs.len()
    &&& forall|gs2: Seq<Gate>, inp: Seq<int>|
        extends(gs, gs2) ==> #[trigger] v(gs2, inp, c->AssertOne_0) == b01(spec_on_curve(pt4(gs2, inp, q)))
}

/// Both facts survive appending gates.
pub proof fn lemma_point_facts_extend(gs: Seq<Gate>, gs2: Seq<Gate>, q: PointTarget, c: Constraint, start: int)
    requires
        extends(gs, gs2),
        0 <= start,
    ensures
        on_curve_checked(gs, q, c) ==> on_curve_checked(gs2, q, c),
        fresh_point(gs, q, start) ==> fresh_point(gs2, q, start),
{
    lemma_extends_trans_all();
    if fresh_point(gs, q, start) {
        assert forall|k: int| 0 <= k < 20 implies #[trigger] point_wire_seq(q)[k] == start + k && start + k < gs2.len()
            && gs2[start + k] is Input by {
            assert(point_wire_seq(q)[k] == start + k);
            crate::circuit::lemma_extends_gate(gs, gs2, start + k);
        }
        assert(fresh_point(gs2, q, start));
    }
}

pub open spec fn has_pt(b: Builder, q: PointTarget) -> bool {
    has5(b, q.x) && has5(b, q.z) && has5(b, q.u) && has5(b, q.t)
}

impl Builder {
    pub fn add_point(&mut self, p: PointTarget, q: PointTarget) -> (r: PointTarget)
        requires
            old(self).wf(),
            has_pt(*old(self), p),
            has_pt(*old(self), q),
        ensures
            old(self).grows_to(*final(self)),
            final(self).constraints@ == old(self).constraints@,
            has_pt(*final(self), r),
            forall|gs: Seq<Gate>, inp: Seq<int>|
                extends(final(self).gates@, gs) ==> #[trigger] pt4(gs, inp, r) == spec_add(pt4(gs, inp, p), pt4(gs, inp, q)),
    {
        let t1 = self.mul_gfp5(p.x, q.x);
        let ghost g0 = self.gates@;
        let t2 = self.mul_gfp5(p.z, q.z);
        let ghost g1 = self.gates@;
        let t3 = self.mul_gfp5(p.u, q.u);
        let ghost g2 = self.gates@;
        let t4 = self.mul_gfp5(p.t, q.t);
        let ghost g3 = self.gates@;
        let s1 = self.add_gfp5(p.x, p.z);
        let ghost g4 = self.gates@;
        let s2 = self.add_gfp5(q.x, q.z);
        let ghost g5 = self.gates@;
        let m1 = self.mul_gfp5(s1, s2);
        let ghost g6 = self.gates@;
        let m2 = self.sub_gfp5(m1, t1);
        let ghost g7 = self.gates@;
        let t5_ = self.sub_gfp5(m2, t2);
        let ghost g8 = self.gates@;
        let s3 = self.add_gfp5(p.u, p.t);
        let ghost g9 = self.gates@;
        let s4 = self.add_gfp5(q.u, q.t);
        let ghost g10 = self.gates@;
        let m3 = self.mul_gfp5(s3, s4);
        let ghost g11 = self.gates@;
        let m4 = self.sub_gfp5(m3, t3);
        let ghost g12 = self.gates@;
        let t6 = self.sub_gfp5(m4, t4);
        let ghost g13 = self.gates@;
        let t2b = self.mul_small_k1_gfp5(t2, B1);
        let ghost g14 = self.gates@;
        let t7 = self.add_gfp5(t1, t2b);
        let ghost g15 = self.gates@;
        let t8 = self.mul_gfp5(t4, t7);
        let ghost g16 = self.gates@;
        let a9 = self.mul_small_k1_gfp5(t5_, 2 * B1);
        let ghost g17 = self.gates@;
        let b9 = self.double_gfp5(t7);
        let ghost g18 = self.gates@;
        let s9 = self.add_gfp5(a9, b9);
        let ghost g19 = self.gates@;
        let t9 = self.mul_gfp5(t3, s9);
        let ghost g20 = self.gates@;
        let t32 = self.double_gfp5(t3);
        let ghost g21 = self.gates@;
        let a10 = self.add_gfp5(t4, t32);
        let ghost g22 = self.gates@;
        let b10 = self.add_gfp5(t5_, t7);
        let ghost g23 = self.gates@;
        let t10 = self.mul_gfp5(a10, b10);
        let ghost g24 = self.gates@;
        let d = self.sub_gfp5(t10, t8);
        let ghost g25 = self.gates@;
        let x3 = self.mul_small_k1_gfp5(d, B1);
        let ghost g26 = self.gates@;
        let z3 = self.sub_gfp5(t8, t9);
        let ghost g27 = self.gates@;
        let e = self.sub_gfp5(t2b, t1);
        let ghost g28 = self.gates@;
        let u3 = self.mul_gfp5(t6, e);
        let ghost g29 = self.gates@;
        let w3 = self.add_gfp5(t8, t9);
        let r = PointTarget { x: x3, z: z3, u: u3, t: w3 };
        proof {
            lemma_extends_trans_all();
            assert forall|gs: Seq<Gate>, inp: Seq<int>| extends(self.gates@, gs) implies #[trigger] pt4(gs, inp, r) == spec_add(pt4(gs, inp, p), pt4(gs, inp, q)) by {
                assert(extends(g29, gs));
                assert(extends(g28, gs));
                assert(extends(g27, gs));
                assert(extends(g26, gs));
                assert(extends(g25, gs));
                assert(extends(g24, gs));
                assert(extends(g23, gs));
                assert(extends(g22, gs));
                assert(extends(g21, gs));
                assert(extends(g20, gs));
                assert(extends(g19, gs));
                assert(extends(g18, gs));
                assert(extends(g17, gs));
                assert(extends(g16, gs));
                assert(extends(g15, gs));
                assert(extends(g14, gs));
                assert(extends(g13, gs));
                assert(extends(g12, gs));
                assert(extends(g11, gs));
                assert(extends(g10, gs));
                assert(extends(g9, gs));
                assert(extends(g8, gs));
                assert(extends(g7, gs));
                assert(extends(g6, gs));
                assert(extends(g5, gs));
                assert(extends(g4, gs));
                assert(extends(g3, gs));
                assert(extends(g2, gs));
                assert(extends(g1, gs));
                assert(extends(g0, gs));
                reveal(spec_add);
            }
        }
        r
    }

    pub fn double_point(&mut self, q: PointTarget) -> (r: PointTarget)
        requires
            old(self).wf(),
            has_pt(*old(self), q),
        ensures
            old(self).grows_to(*final(self)),
            final(self).constraints@ == old(self).constraints@,
            has_pt(*final(self), r),
            forall|gs: Seq<Gate>, inp: Seq<int>|
                extends(final(self).gates@, gs) ==> #[trigger] pt4(gs, inp, r) == spec_double(pt4(gs, inp, q)),
    {
        let t1 = self.mul_gfp5(q.z, q.t);
        let ghost g0 = self.gates@;
        let t2 = self.mul_gfp5(t1, q.t);
        let ghost g1 = self.gates@;
        let x1 = self.mul_gfp5(t2, t2);
        let ghost g2 = self.gates@;
        let z1 = self.mul_gfp5(t1, q.u);
        let ghost g3 = self.gates@;
        let t3 = self.mul_gfp5(q.u, q.u);
        let ghost g4 = self.gates@;
        let xz = self.add_gfp5(q.x, q.z);
        let ghost g5 = self.gates@;
        let xz2 = self.double_gfp5(xz);
        let ghost g6 = self.gates@;
        let m = self.mul_gfp5(xz2, t3);
        let ghost g7 = self.gates@;
        let w1 = self.sub_gfp5(t2, m);
        let ghost g8 = self.gates@;
        let t4 = self.mul_gfp5(z1, z1);
        let ghost g9 = self.gates@;
        let nx = self.mul_small_k1_gfp5(t4, 4 * B1);
        let ghost g10 = self.gates@;
        let nz = self.mul_gfp5(w1, w1);
        let ghost g11 = self.gates@;
        let s = self.add_gfp5(w1, z1);
        let ghost g12 = self.gates@;
        let s2 = self.mul_gfp5(s, s);
        let ghost g13 = self.gates@;
        let s3 = self.sub_gfp5(s2, t4);
        let ghost g14 = self.gates@;
        let nu = self.sub_gfp5(s3, nz);
        let ghost g15 = self.gates@;
        let x1d = self.double_gfp5(x1);
        let ghost g16 = self.gates@;
        let t44 = self.mul_small_gfp5(t4, 4);
        let ghost g17 = self.gates@;
        let d1 = self.sub_gfp5(x1d, t44);
        let ghost g18 = self.gates@;
        let nt = self.sub_gfp5(d1, nz);
        let r = PointTarget { x: nx, z: nz, u: nu, t: nt };
        proof {
            lemma_extends_trans_all();
            assert forall|gs: Seq<Gate>, inp: Seq<int>| extends(self.gates@, gs) implies #[trigger] pt4(gs, inp, r) == spec_double(pt4(gs, inp, q)) by {
                assert(extends(g18, gs));
                assert(extends(g17, gs));
                assert(extends(g16, gs));
                assert(extends(g15, gs));
                assert(extends(g14, gs));
                assert(extends(g13, gs));
                assert(extends(g12, gs));
                assert(extends(g11, gs));
                assert(extends(g10, gs));
                assert(extends(g9, gs));
                assert(extends(g8, gs));
                assert(extends(g7, gs));
                assert(extends(g6, gs));
                assert(extends(g5, gs));
                assert(extends(g4, gs));
                assert(extends(g3, gs));
                assert(extends(g2, gs));
                assert(extends(g1, gs));
                assert(extends(g0, gs));
                reveal(spec_double);
            }
        }
        r
    }

}

/// Five coordinates, each a field element.
pub open spec fn reduced5(s: Seq<int>) -> bool {
    s.len() == 5 && forall|i: int| 0 <= i < 5 ==> 0 <= #[trigger] s[i] < p()
}

/// Every coordinate of a point is a field element.
pub open spec fn reduced(q: PointModel) -> bool {
    reduced5(q.0) && reduced5(q.1) && reduced5(q.2) && reduced5(q.3)
}

/// The results of the model's operations are reduced.
pub proof fn lemma_ops_reduced(a: Seq<int>, b: Seq<int>, k: int)
    ensures
        reduced5(fp5_add(a, b)),
        reduced5(fp5_sub(a, b)),
        reduced5(fp5_mul(a, b)),
        reduced5(fp5_mul_small_k1(a, k)),
        reduced5(fp5_scale(a, k)),
{
    reveal(fp5_add);
    reveal(fp5_sub);
    reveal(fp5_mul);
    reveal(fp5_mul_small_k1);
    reveal(fp5_scale);
}

/// Every result of the model's operations is reduced.
pub proof fn lemma_all_ops_reduced()
    ensures
        forall|a: Seq<int>, b: Seq<int>| #[trigger] reduced5(fp5_add(a, b)),
        forall|a: Seq<int>, b: Seq<int>| #[trigger] reduced5(fp5_sub(a, b)),
        forall|a: Seq<int>, b: Seq<int>| #[trigger] reduced5(fp5_mul(a, b)),
        forall|a: Seq<int>, k: int| #[trigger] reduced5(fp5_mul_small_k1(a, k)),
        forall|a: Seq<int>, k: int| #[trigger] reduced5(fp5_scale(a, k)),
        forall|a: Seq<int>| #[trigger] reduced5(crate::gfp5::fp5_neg(a)),
{
    assert forall|a: Seq<int>| #[trigger] reduced5(crate::gfp5::fp5_neg(a)) by {
        reveal(crate::gfp5::fp5_neg);
    }
    assert forall|a: Seq<int>, b: Seq<int>| #[trigger] reduced5(fp5_add(a, b)) by {
        lemma_ops_reduced(a, b, 0);
    }
    assert forall|a: Seq<int>, b: Seq<int>| #[trigger] reduced5(fp5_sub(a, b)) by {
        lemma_ops_reduced(a, b, 0);
    }
    assert forall|a: Seq<int>, b: Seq<int>| #[trigger] reduced5(fp5_mul(a, b)) by {
        lemma_ops_reduced(a, b, 0);
    }
    assert forall|a: Seq<int>, k: int| #[trigger] reduced5(fp5_mul_small_k1(a, k)) by {
        lemma_ops_reduced(a, a, k);
    }
    assert forall|a: Seq<int>, k: int| #[trigger] reduced5(fp5_scale(a, k)) by {
        lemma_ops_reduced(a, a, k);
    }
}

/// Sums are reduced.
pub proof fn lemma_reduced_add(q: PointModel, r: PointModel)
    ensures
        reduced(spec_add(q, r)),
{
    reveal(spec_add);
    lemma_all_ops_reduced();
}

/// Doublings are reduced.
pub proof fn lemma_reduced_double(q: PointModel)
    ensures
        reduced(spec_double(q)),
{
    reveal(spec_double);
    lemma_all_ops_reduced();
}

/// The identity and the generator are reduced.
pub proof fn lemma_reduced_constants()
    ensures
        reduced(spec_zero()),
        reduced(spec_generator()),
{
    let g = spec_generator();
    assert(reduced5(g.0)) by {
        assert forall|i: int| 0 <= i < 5 implies 0 <= #[trigger] g.0[i] < p() by {}
    }
    assert(reduced5(g.3)) by {
        assert forall|i: int| 0 <= i < 5 implies 0 <= #[trigger] g.3[i] < p() by {}
    }
}

/// The select formula `c (a - b) + b` on reduced elements gives `a` for
/// `c = 1` and `b` for `c = 0`.
pub proof fn lemma_select5(c: int, a: Seq<int>, b: Seq<int>)
    requires
        is_bit(c),
        reduced5(a),
        reduced5(b),
    ensures
        fp5_add(fp5_scale(fp5_sub(a, b), c), b) == if c == 1 {
            a
        } else {
            b
        },
{
    lemma_small_values();
    reveal(fp5_add);
    reveal(fp5_scale);
    reveal(fp5_sub);
    let r = fp5_add(fp5_scale(fp5_sub(a, b), c), b);
    assert forall|i: int| 0 <= i < 5 implies #[trigger] r[i] == (if c == 1 {
        a
    } else {
        b
    })[i] by {
        let d = (a[i] - b[i]) % p();
        if c == 1 {
            assert(c * d == d);
            vstd::arithmetic::div_mod::lemma_small_mod(d as nat, p() as nat);
            lemma_mod_add_left(a[i] - b[i], b[i]);
            vstd::arithmetic::div_mod::lemma_small_mod(a[i] as nat, p() as nat);
        } else {
            assert(c * d == 0);
            vstd::arithmetic::div_mod::lemma_small_mod(b[i] as nat, p() as nat);
        }
    }
    if c == 1 {
        assert(r =~= a);
    } else {
        assert(r =~= b);
    }
}

impl Builder {
    /// The identity (0 : 1 : 0 : 1).
    pub fn zero_point(&mut self) -> (r: PointTarget)
        requires
            old(self).wf(),
        ensures
            old(self).grows_to(*final(self)),
            final(self).constraints@ == old(self).constraints@,
            has_pt(*final(self), r),
            forall|gs: Seq<Gate>, inp: Seq<int>|
                extends(final(self).gates@, gs) ==> #[trigger] pt4(gs, inp, r) == spec_zero(),
    {
        let zero = self.zero_gfp5();
        let ghost g1 = self.gates@;
        let one = self.one_gfp5();
        let r = PointTarget { x: zero, z: one, u: zero, t: one };
        proof {
            lemma_extends_trans_all();
            assert forall|gs: Seq<Gate>, inp: Seq<int>| extends(self.gates@, gs) implies #[trigger] pt4(gs, inp, r) == spec_zero() by {
                assert(extends(g1, gs));
            }
        }
        r
    }

    /// The generator as constant wires.
    pub fn generator_point(&mut self) -> (r: PointTarget)
        requires
            old(self).wf(),
        ensures
            old(self).grows_to(*final(self)),
            final(self).constraints@ == old(self).constraints@,
            has_pt(*final(self), r),
            forall|gs: Seq<Gate>, inp: Seq<int>|
                extends(final(self).gates@, gs) ==> #[trigger] pt4(gs, inp, r) == spec_generator(),
    {
        let g = Point::generator();
        let x = self.constant_gfp5(g.x);
        let ghost g1 = self.gates@;
        let z = self.constant_gfp5(g.z);
        let ghost g2 = self.gates@;
        let u = self.constant_gfp5(g.u);
        let ghost g3 = self.gates@;
        let t = self.constant_gfp5(g.t);
        let r = PointTarget { x, z, u, t };
        proof {
            lemma_extends_trans_all();
            assert forall|gs: Seq<Gate>, inp: Seq<int>| extends(self.gates@, gs) implies #[trigger] pt4(gs, inp, r) == spec_generator() by {
                assert(extends(g3, gs) && extends(g2, gs) && extends(g1, gs));
            }
        }
        r
    }

    /// `-q`: U changes sign.
    pub fn neg_point(&mut self, q: PointTarget) -> (r: PointTarget)
        requires
            old(self).wf(),
            has_pt(*old(self), q),
        ensures
            old(self).grows_to(*final(self)),
            final(self).constraints@ == old(self).constraints@,
            has_pt(*final(self), r),
            forall|gs: Seq<Gate>, inp: Seq<int>|
                extends(final(self).gates@, gs) ==> #[trigger] pt4(gs, inp, r) == spec_neg(pt4(gs, inp, q)),
    {
        let u = self.neg_gfp5(q.u);
        PointTarget { x: q.x, z: q.z, u, t: q.t }
    }

    /// 1 iff the point is the identity (U = 0).
    pub fn is_zero_point(&mut self, q: PointTarget) -> (r: usize)
        requires
            old(self).wf(),
            has_pt(*old(self), q),
        ensures
            old(self).grows_to(*final(self)),
            final(self).constraints@ == old(self).constraints@,
            r < final(self).gates.len(),
            forall|gs: Seq<Gate>, inp: Seq<int>|
                extends(final(self).gates@, gs) ==> #[trigger] v(gs, inp, r) == b01(spec_is_zero(pt4(gs, inp, q))),
    {
        self.is_zero_gfp5(q.u)
    }

    /// 1 iff both points are the identity, or X1 Z2 = X2 Z1 and U1 T2 = U2 T1.
    pub fn is_equal_point(&mut self, a: PointTarget, b: PointTarget) -> (r: usize)
        requires
            old(self).wf(),
            has_pt(*old(self), a),
            has_pt(*old(self), b),
        ensures
            old(self).grows_to(*final(self)),
            final(self).constraints@ == old(self).constraints@,
            r < final(self).gates.len(),
            forall|gs: Seq<Gate>, inp: Seq<int>|
                extends(final(self).gates@, gs) ==> #[trigger] v(gs, inp, r) == b01(spec_equals(pt4(gs, inp, a), pt4(gs, inp, b))),
    {
        let az = self.is_zero_point(a);
        let ghost g1 = self.gates@;
        let bz = self.is_zero_point(b);
        let ghost g2 = self.gates@;
        let both = self.and(az, bz);
        let ghost g3 = self.gates@;
        let x1z2 = self.mul_gfp5(a.x, b.z);
        let ghost g4 = self.gates@;
        let x2z1 = self.mul_gfp5(b.x, a.z);
        let ghost g5 = self.gates@;
        let u1t2 = self.mul_gfp5(a.u, b.t);
        let ghost g6 = self.gates@;
        let u2t1 = self.mul_gfp5(b.u, a.t);
        let ghost g7 = self.gates@;
        let e1 = self.is_equal_gfp5(x1z2, x2z1);
        let ghost g8 = self.gates@;
        let e2 = self.is_equal_gfp5(u1t2, u2t1);
        let ghost g9 = self.gates@;
        let ne = self.and(e1, e2);
        let ghost g10 = self.gates@;
        let r = self.or(both, ne);
        proof {
            lemma_extends_trans_all();
            assert forall|gs: Seq<Gate>, inp: Seq<int>| extends(self.gates@, gs) implies #[trigger] v(gs, inp, r) == b01(spec_equals(pt4(gs, inp, a), pt4(gs, inp, b))) by {
                assert(extends(g10, gs) && extends(g9, gs) && extends(g8, gs) && extends(g7, gs) && extends(g6, gs));
                assert(extends(g5, gs) && extends(g4, gs) && extends(g3, gs) && extends(g2, gs) && extends(g1, gs));
                let (pa, pb) = (pt4(gs, inp, a), pt4(gs, inp, b));
                assert(v(gs, inp, az) == b01(spec_is_zero(pa)));
                assert(v(gs, inp, bz) == b01(spec_is_zero(pb)));
                assert(v(gs, inp, both) == b01(spec_is_zero(pa) && spec_is_zero(pb)));
                assert(t5(gs, inp, x1z2) == fp5_mul(pa.0, pb.1));
                assert(t5(gs, inp, x2z1) == fp5_mul(pb.0, pa.1));
                assert(t5(gs, inp, u1t2) == fp5_mul(pa.2, pb.3));
                assert(t5(gs, inp, u2t1) == fp5_mul(pb.2, pa.3));
                assert(v(gs, inp, e1) == b01(fp5_mul(pa.0, pb.1) == fp5_mul(pb.0, pa.1)));
                assert(v(gs, inp, e2) == b01(fp5_mul(pa.2, pb.3) == fp5_mul(pb.2, pa.3)));
                assert(v(gs, inp, ne) == b01(fp5_mul(pa.0, pb.1) == fp5_mul(pb.0, pa.1) && fp5_mul(pa.2, pb.3) == fp5_mul(pb.2, pa.3)));
            }
        }
        r
    }

    /// Per coordinate `c (a - b) + b`.
    pub fn select_point(&mut self, c: usize, a: PointTarget, b: PointTarget) -> (r: PointTarget)
        requires
            old(self).wf(),
            c < old(self).gates.len(),
            has_pt(*old(self), a),
            has_pt(*old(self), b),
        ensures
            old(self).grows_to(*final(self)),
            final(self).constraints@ == old(self).constraints@,
            has_pt(*final(self), r),
            forall|gs: Seq<Gate>, inp: Seq<int>|
                extends(final(self).gates@, gs) && is_bit(v(gs, inp, c)) && reduced(pt4(gs, inp, a)) && reduced(pt4(gs, inp, b))
                    ==> #[trigger] pt4(gs, inp, r) == if v(gs, inp, c) == 1 {
                    pt4(gs, inp, a)
                } else {
                    pt4(gs, inp, b)
                },
    {
        let x = self.select_gfp5(c, a.x, b.x);
        let ghost g1 = self.gates@;
        let z = self.select_gfp5(c, a.z, b.z);
        let ghost g2 = self.gates@;
        let u = self.select_gfp5(c, a.u, b.u);
        let ghost g3 = self.gates@;
        let t = self.select_gfp5(c, a.t, b.t);
        let r = PointTarget { x, z, u, t };
        proof {
            lemma_extends_trans_all();
            assert forall|gs: Seq<Gate>, inp: Seq<int>| extends(self.gates@, gs) && is_bit(v(gs, inp, c)) && reduced(pt4(gs, inp, a)) && reduced(pt4(gs, inp, b))
                implies #[trigger] pt4(gs, inp, r) == if v(gs, inp, c) == 1 {
                pt4(gs, inp, a)
            } else {
                pt4(gs, inp, b)
            } by {
                assert(extends(g3, gs) && extends(g2, gs) && extends(g1, gs));
                let cv = v(gs, inp, c);
                lemma_select5(cv, t5(gs, inp, a.x), t5(gs, inp, b.x));
                lemma_select5(cv, t5(gs, inp, a.z), t5(gs, inp, b.z));
                lemma_select5(cv, t5(gs, inp, a.u), t5(gs, inp, b.u));
                lemma_select5(cv, t5(gs, inp, a.t), t5(gs, inp, b.t));
            }
        }
        r
    }
}

impl Builder {
    /// 1 iff the point is the identity or satisfies the curve equation.
    #[verifier::rlimit(80)]
    pub fn on_curve_flag(&mut self, q: PointTarget) -> (r: usize)
        requires
            old(self).wf(),
            has_pt(*old(self), q),
        ensures
            old(self).grows_to(*final(self)),
            final(self).constraints@ == old(self).constraints@,
            r < final(self).gates.len(),
            forall|gs: Seq<Gate>, inp: Seq<int>|
                extends(final(self).gates@, gs) ==> #[trigger] v(gs, inp, r) == b01(spec_on_curve(pt4(gs, inp, q))),
    {
        let pz = self.is_zero_point(q);
        let ghost g1 = self.gates@;
        let u2 = self.mul_gfp5(q.u, q.u);
        let ghost g2 = self.gates@;
        let t2 = self.mul_gfp5(q.t, q.t);
        let ghost g3 = self.gates@;
        let x2 = self.mul_gfp5(q.x, q.x);
        let ghost g4 = self.gates@;
        let z2 = self.mul_gfp5(q.z, q.z);
        let ghost g5 = self.gates@;
        let xz = self.mul_gfp5(q.x, q.z);
        let ghost g6 = self.gates@;
        let axz = self.mul_by_a_gfp5(xz);
        let ghost g7 = self.gates@;
        let bz2 = self.mul_by_b_gfp5(z2);
        let ghost g8 = self.gates@;
        let s = self.add_gfp5(x2, axz);
        let ghost g9 = self.gates@;
        let inner = self.add_gfp5(s, bz2);
        let ghost g10 = self.gates@;
        let lhs = self.mul_gfp5(u2, inner);
        let ghost g11 = self.gates@;
        let rhs = self.mul_gfp5(xz, t2);
        let ghost g12 = self.gates@;
        let eq = self.is_equal_gfp5(lhs, rhs);
        let ghost g13 = self.gates@;
        let r = self.or(pz, eq);
        proof {
            lemma_extends_trans_all();
            assert forall|gs: Seq<Gate>, inp: Seq<int>| extends(self.gates@, gs) implies #[trigger] v(gs, inp, r) == b01(spec_on_curve(pt4(gs, inp, q))) by {
                assert(extends(g13, gs) && extends(g12, gs) && extends(g11, gs) && extends(g10, gs) && extends(g9, gs));
                assert(extends(g8, gs) && extends(g7, gs) && extends(g6, gs) && extends(g5, gs) && extends(g4, gs));
                assert(extends(g3, gs) && extends(g2, gs) && extends(g1, gs));
                let pq = pt4(gs, inp, q);
                let xzv = fp5_mul(pq.0, pq.1);
                let innerv = fp5_add(fp5_add(fp5_mul(pq.0, pq.0), fp5_add(xzv, xzv)), fp5_mul_small_k1(fp5_mul(pq.1, pq.1), B1 as int));
                assert(t5(gs, inp, inner) == innerv);
                assert(v(gs, inp, eq) == b01(fp5_mul(fp5_mul(pq.2, pq.2), innerv) == fp5_mul(xzv, fp5_mul(pq.3, pq.3))));
                assert(v(gs, inp, pz) == b01(spec_is_zero(pq)));
            }
        }
        r
    }

    /// Constrains the point to satisfy the curve equation unless it is the
    /// identity; returns the wire that must be one.
    pub fn assert_on_curve(&mut self, q: PointTarget) -> (ok: usize)
        requires
            old(self).wf(),
            has_pt(*old(self), q),
        ensures
            old(self).grows_to(*final(self)),
            final(self).constraints@ == old(self).constraints@.push(Constraint::AssertOne(ok)),
            ok < final(self).gates.len(),
            forall|gs: Seq<Gate>, inp: Seq<int>|
                extends(final(self).gates@, gs) ==> #[trigger] v(gs, inp, ok) == b01(spec_on_curve(pt4(gs, inp, q))),
    {
        let ok = self.on_curve_flag(q);
        let ghost g1 = self.gates@;
        self.add_constraint(Constraint::AssertOne(ok));
        proof {
            lemma_extends_trans_all();
        }
        ok
    }

    /// Constrains the point not to be the identity; returns the wire that must be zero.
    pub fn assert_non_zero_point(&mut self, q: PointTarget) -> (z: usize)
        requires
            old(self).wf(),
            has_pt(*old(self), q),
        ensures
            old(self).grows_to(*final(self)),
            final(self).constraints@ == old(self).constraints@.push(Constraint::AssertZero(z)),
            z < final(self).gates.len(),
            forall|gs: Seq<Gate>, inp: Seq<int>|
                extends(final(self).gates@, gs) ==> #[trigger] v(gs, inp, z) == b01(spec_is_zero(pt4(gs, inp, q))),
    {
        let z = self.is_zero_point(q);
        self.add_constraint(Constraint::AssertZero(z));
        proof {
            lemma_extends_trans_all();
        }
        z
    }

    /// Four fresh extension elements, constrained to lie on the curve.
    pub fn add_virtual_point_target(&mut self) -> (r: PointTarget)
        requires
            old(self).wf(),
        ensures
            old(self).grows_to(*final(self)),
            has_pt(*final(self), r),
            fresh_point(final(self).gates@, r, old(self).gates.len() as int),
            final(self).constraints@.len() == old(self).constraints@.len() + 1,
            final(self).constraints@.drop_last() == old(self).constraints@,
            on_curve_checked(final(self).gates@, r, final(self).constraints@.last()),
            forall|gs: Seq<Gate>, inp: Seq<int>|
                extends(final(self).gates@, gs) ==> #[trigger] reduced(pt4(gs, inp, r)),
    {
        let ghost g0 = self.gates@;
        let x = self.add_virtual_gfp5_target();
        let ghost g1 = self.gates@;
        let z = self.add_virtual_gfp5_target();
        let ghost g2 = self.gates@;
        let u = self.add_virtual_gfp5_target();
        let ghost g3 = self.gates@;
        let t = self.add_virtual_gfp5_target();
        let ghost g4 = self.gates@;
        let r = PointTarget { x, z, u, t };
        let ok = self.assert_on_curve(r);
        proof {
            lemma_extends_trans_all();
            let l = g0.len() as int;
            assert forall|k: int| 0 <= k < 20 implies #[trigger] point_wire_seq(r)[k] == l + k && l + k < self.gates@.len() && self.gates@[l + k] is Input by {
                let gs = self.gates@;
                if k < 5 {
                    assert(point_wire_seq(r)[k] == x.0[k]);
                    crate::circuit::lemma_extends_gate(g4, gs, l + k);
                    crate::circuit::lemma_extends_gate(g1, g4, l + k);
                } else if k < 10 {
                    assert(point_wire_seq(r)[k] == z.0[k - 5]);
                    crate::circuit::lemma_extends_gate(g4, gs, l + k);
                    crate::circuit::lemma_extends_gate(g2, g4, l + k);
                } else if k < 15 {
                    assert(point_wire_seq(r)[k] == u.0[k - 10]);
                    crate::circuit::lemma_extends_gate(g4, gs, l + k);
                    crate::circuit::lemma_extends_gate(g3, g4, l + k);
                } else {
                    assert(point_wire_seq(r)[k] == t.0[k - 15]);
                    crate::circuit::lemma_extends_gate(g4, gs, l + k);
                }
            }
            assert(self.constraints@.drop_last() =~= old(self).constraints@);
            assert forall|gs: Seq<Gate>, inp: Seq<int>| extends(self.gates@, gs) implies #[trigger] reduced(pt4(gs, inp, r)) by {
                assert(extends(g4, gs) && extends(g3, gs) && extends(g2, gs) && extends(g1, gs));
                assert forall|i: int| 0 <= i < 5 implies 0 <= #[trigger] t5(gs, inp, x)[i] < p() by {
                    assert(wire_val(gs, inp, x.0[i] as int) == inp[x.0[i] as int] % p());
                }
                assert forall|i: int| 0 <= i < 5 implies 0 <= #[trigger] t5(gs, inp, z)[i] < p() by {
                    assert(wire_val(gs, inp, z.0[i] as int) == inp[z.0[i] as int] % p());
                }
                assert forall|i: int| 0 <= i < 5 implies 0 <= #[trigger] t5(gs, inp, u)[i] < p() by {
                    assert(wire_val(gs, inp, u.0[i] as int) == inp[u.0[i] as int] % p());
                }
                assert forall|i: int| 0 <= i < 5 implies 0 <= #[trigger] t5(gs, inp, t)[i] < p() by {
                    assert(wire_val(gs, inp, t.0[i] as int) == inp[t.0[i] as int] % p());
                }
            }
        }
        r
    }

    /// Exposes X, Z, U, T in order as public inputs.
    pub fn register_point_public_input(&mut self, q: PointTarget)
        requires
            old(self).wf(),
        ensures
            old(self).grows_to(*final(self)),
            final(self).gates@ == old(self).gates@,
            final(self).constraints@ == old(self).constraints@ + Seq::new(
                20,
                |k: int| Constraint::PublicInput(point_wire_seq(q)[k]),
            ),
    {
        let ghost c0 = self.constraints@;
        self.register_gfp5_public_input(q.x);
        self.register_gfp5_public_input(q.z);
        self.register_gfp5_public_input(q.u);
        self.register_gfp5_public_input(q.t);
        proof {
            lemma_extends_trans_all();
            assert(self.constraints@ =~= c0 + Seq::new(20, |k: int| Constraint::PublicInput(point_wire_seq(q)[k])));
            assert(self.constraints@.subrange(0, old(self).constraints@.len() as int) =~= old(self).constraints@);
        }
    }
}

/// The booleans that bit wires hold (a wire holding 1 reads as true).
pub open spec fn bools(gs: Seq<Gate>, inp: Seq<int>, bits: Seq<usize>) -> Seq<bool> {
    Seq::new(bits.len(), |i: int| v(gs, inp, bits[i]) == 1)
}

/// Every listed wire holds 0 or 1.
pub open spec fn all_bits(gs: Seq<Gate>, inp: Seq<int>, bits: Seq<usize>) -> bool {
    forall|i: int| 0 <= i < bits.len() ==> is_bit(#[trigger] v(gs, inp, bits[i]))
}

/// The listed wires exist in the builder.
pub open spec fn has_all(b: Builder, ws: Seq<usize>) -> bool {
    forall|i: int| 0 <= i < ws.len() ==> #[trigger] ws[i] < b.gates.len()
}

impl Builder {
    /// `s G + e p` by Shamir's trick: per bit pair, top first, double the
    /// accumulator and add the identity, `p`, `G` or `G + p`, picked by
    /// selections on the bit pair.
    #[verifier::rlimit(80)]
    pub fn double_scalar_mul_shamir(&mut self, s: &Vec<usize>, e: &Vec<usize>, p: PointTarget) -> (r: PointTarget)
        requires
            old(self).wf(),
            s.len() == e.len(),
            has_all(*old(self), s@),
            has_all(*old(self), e@),
            has_pt(*old(self), p),
        ensures
            old(self).grows_to(*final(self)),
            final(self).constraints@ == old(self).constraints@,
            has_pt(*final(self), r),
            forall|gs: Seq<Gate>, inp: Seq<int>|
                extends(final(self).gates@, gs) && all_bits(gs, inp, s@) && all_bits(gs, inp, e@) && reduced(pt4(gs, inp, p))
                    ==> #[trigger] pt4(gs, inp, r) == spec_shamir_from(bools(gs, inp, s@), bools(gs, inp, e@), pt4(gs, inp, p), 0),
    {
        let ghost g0 = *self;
        let g = self.generator_point();
        let ghost g1 = self.gates@;
        let gp = self.add_point(g, p);
        let ghost g2 = self.gates@;
        let zero = self.zero_point();
        let mut acc = zero;
        let mut i: usize = s.len();
        proof {
            lemma_extends_trans_all();
            lemma_reduced_constants();
            assert forall|gs: Seq<Gate>, inp: Seq<int>| extends(self.gates@, gs) && all_bits(gs, inp, s@) && all_bits(gs, inp, e@) && reduced(pt4(gs, inp, p))
                implies #[trigger] pt4(gs, inp, acc) == spec_shamir_from(bools(gs, inp, s@), bools(gs, inp, e@), pt4(gs, inp, p), i as int) by {
            }
        }
        while i > 0
            invariant
                i <= s.len(),
                s.len() == e.len(),
                self.wf(),
                extends(g0.gates@, self.gates@),
                self.constraints@ == g0.constraints@,
                has_all(*self, s@),
                has_all(*self, e@),
                has_pt(*self, p),
                has_pt(*self, g),
                has_pt(*self, gp),
                has_pt(*self, zero),
                has_pt(*self, acc),
                forall|gs: Seq<Gate>, inp: Seq<int>|
                    extends(self.gates@, gs) ==> #[trigger] pt4(gs, inp, g) == spec_generator(),
                forall|gs: Seq<Gate>, inp: Seq<int>|
                    extends(self.gates@, gs) ==> #[trigger] pt4(gs, inp, gp) == spec_add(spec_generator(), pt4(gs, inp, p)),
                forall|gs: Seq<Gate>, inp: Seq<int>|
                    extends(self.gates@, gs) ==> #[trigger] pt4(gs, inp, zero) == spec_zero(),
                forall|gs: Seq<Gate>, inp: Seq<int>|
                    extends(self.gates@, gs) && all_bits(gs, inp, s@) && all_bits(gs, inp, e@) && reduced(pt4(gs, inp, p))
                        ==> #[trigger] pt4(gs, inp, acc) == spec_shamir_from(bools(gs, inp, s@), bools(gs, inp, e@), pt4(gs, inp, p), i as int),
            decreases i,
        {
            i = i - 1;
            let ghost h0 = self.gates@;
            let ghost acc0 = acc;
            let d = self.double_point(acc);
            let ghost h1 = self.gates@;
            let sb = s[i];
            let eb = e[i];
            let both = self.and(sb, eb);
            let ghost h2 = self.gates@;
            let not_eb = self.not(eb);
            let ghost h3 = self.gates@;
            let not_sb = self.not(sb);
            let ghost h4 = self.gates@;
            let sb_only = self.and(sb, not_eb);
            let ghost h5 = self.gates@;
            let eb_only = self.and(eb, not_sb);
            let ghost h6 = self.gates@;
            let t1 = self.select_point(eb_only, p, zero);
            let ghost h7 = self.gates@;
            let t2 = self.select_point(sb_only, g, t1);
            let ghost h8 = self.gates@;
            let t3 = self.select_point(both, gp, t2);
            let ghost h9 = self.gates@;
            acc = self.add_point(d, t3);
            proof {
                lemma_extends_trans_all();
                lemma_reduced_constants();
                assert forall|gs: Seq<Gate>, inp: Seq<int>| extends(self.gates@, gs) && all_bits(gs, inp, s@) && all_bits(gs, inp, e@) && reduced(pt4(gs, inp, p))
                    implies #[trigger] pt4(gs, inp, acc) == spec_shamir_from(bools(gs, inp, s@), bools(gs, inp, e@), pt4(gs, inp, p), i as int) by {
                    assert(extends(h9, gs) && extends(h8, gs) && extends(h7, gs) && extends(h6, gs) && extends(h5, gs));
                    assert(extends(h4, gs) && extends(h3, gs) && extends(h2, gs) && extends(h1, gs) && extends(h0, gs));
                    let pp = pt4(gs, inp, p);
                    let sbv = v(gs, inp, sb);
                    let ebv = v(gs, inp, eb);
                    assert(is_bit(sbv) && is_bit(ebv)) by {
                        assert(is_bit(v(gs, inp, s@[i as int])));
                        assert(is_bit(v(gs, inp, e@[i as int])));
                    }
                    lemma_reduced_add(spec_generator(), pp);
                    let g_ = spec_generator();
                    let gp_ = spec_add(g_, pp);
                    assert(pt4(gs, inp, t1) == if ebv == 1 && sbv == 0 { pp } else { spec_zero() });
                    assert(reduced(pt4(gs, inp, t1)));
                    assert(pt4(gs, inp, t2) == if sbv == 1 && ebv == 0 { g_ } else { pt4(gs, inp, t1) });
                    assert(reduced(pt4(gs, inp, t2)));
                    assert(pt4(gs, inp, t3) == if sbv == 1 && ebv == 1 { gp_ } else { pt4(gs, inp, t2) });
                    let sbits = bools(gs, inp, s@);
                    let ebits = bools(gs, inp, e@);
                    assert(sbits[i as int] == (sbv == 1));
                    assert(ebits[i as int] == (ebv == 1));
                    assert(pt4(gs, inp, t3) == spec_shamir_term(sbits[i as int], ebits[i as int], g_, pp, gp_));
                    assert(pt4(gs, inp, acc0) == spec_shamir_from(sbits, ebits, pp, i + 1));
                    assert(pt4(gs, inp, d) == spec_double(pt4(gs, inp, acc0)));
                }
            }
        }
        proof {
            lemma_extends_trans_all();
            assert(self.constraints@.subrange(0, g0.constraints@.len() as int) =~= g0.constraints@);
        }
        acc
    }
}

impl Builder {
    /// `bits * base` by double-and-add from the top bit, one doubling and
    /// one selected addition per bit.
    #[verifier::rlimit(40)]
    pub fn scalar_mul(&mut self, base: PointTarget, bits: &Vec<usize>) -> (r: PointTarget)
        requires
            old(self).wf(),
            has_all(*old(self), bits@),
            has_pt(*old(self), base),
        ensures
            old(self).grows_to(*final(self)),
            final(self).constraints@ == old(self).constraints@,
            has_pt(*final(self), r),
            forall|gs: Seq<Gate>, inp: Seq<int>|
                extends(final(self).gates@, gs) && all_bits(gs, inp, bits@) && reduced(pt4(gs, inp, base))
                    ==> #[trigger] pt4(gs, inp, r) == spec_scalar_mul_from(pt4(gs, inp, base), bools(gs, inp, bits@), 0),
    {
        let ghost g0 = *self;
        let mut acc = self.zero_point();
        let mut i: usize = bits.len();
        proof {
            lemma_extends_trans_all();
        }
        while i > 0
            invariant
                i <= bits.len(),
                self.wf(),
                extends(g0.gates@, self.gates@),
                self.constraints@ == g0.constraints@,
                has_all(*self, bits@),
                has_pt(*self, base),
                has_pt(*self, acc),
                forall|gs: Seq<Gate>, inp: Seq<int>|
                    extends(self.gates@, gs) && all_bits(gs, inp, bits@) && reduced(pt4(gs, inp, base))
                        ==> #[trigger] pt4(gs, inp, acc) == spec_scalar_mul_from(pt4(gs, inp, base), bools(gs, inp, bits@), i as int),
            decreases i,
        {
            i = i - 1;
            let ghost h0 = self.gates@;
            let ghost acc0 = acc;
            let d = self.double_point(acc);
            let ghost h1 = self.gates@;
            let plus = self.add_point(d, base);
            let ghost h2 = self.gates@;
            acc = self.select_point(bits[i], plus, d);
            proof {
                lemma_extends_trans_all();
                assert forall|gs: Seq<Gate>, inp: Seq<int>| extends(self.gates@, gs) && all_bits(gs, inp, bits@) && reduced(pt4(gs, inp, base))
                    implies #[trigger] pt4(gs, inp, acc) == spec_scalar_mul_from(pt4(gs, inp, base), bools(gs, inp, bits@), i as int) by {
                    assert(extends(h2, gs) && extends(h1, gs) && extends(h0, gs));
                    assert(is_bit(v(gs, inp, bits@[i as int])));
                    lemma_reduced_double(pt4(gs, inp, acc0));
                    lemma_reduced_add(pt4(gs, inp, d), pt4(gs, inp, base));
                    assert(bools(gs, inp, bits@)[i as int] == (v(gs, inp, bits@[i as int]) == 1));
                }
            }
        }
        proof {
            lemma_extends_trans_all();
            assert(self.constraints@.subrange(0, g0.constraints@.len() as int) =~= g0.constraints@);
        }
        acc
    }

    /// The Schnorr check `s G == R + e pk`, rewritten as `s G + e (-pk) == R`
    /// and computed in one Shamir pass; constrains the comparison to hold and
    /// returns its wire.
    pub fn schnorr_final_verification(&mut self, s: &Vec<usize>, e: &Vec<usize>, pk: PointTarget, r: PointTarget) -> (ok: usize)
        requires
            old(self).wf(),
            s.len() == e.len(),
            has_all(*old(self), s@),
            has_all(*old(self), e@),
            has_pt(*old(self), pk),
            has_pt(*old(self), r),
        ensures
            old(self).grows_to(*final(self)),
            final(self).constraints@ == old(self).constraints@.push(Constraint::AssertOne(ok)),
            ok < final(self).gates.len(),
            forall|gs: Seq<Gate>, inp: Seq<int>|
                extends(final(self).gates@, gs) && all_bits(gs, inp, s@) && all_bits(gs, inp, e@) && reduced(pt4(gs, inp, pk))
                    ==> #[trigger] v(gs, inp, ok) == b01(spec_equals(
                    spec_shamir_from(bools(gs, inp, s@), bools(gs, inp, e@), spec_neg(pt4(gs, inp, pk)), 0),
                    pt4(gs, inp, r),
                )),
    {
        let neg = self.neg_point(pk);
        let ghost g1 = self.gates@;
        let lhs = self.double_scalar_mul_shamir(s, e, neg);
        let ghost g2 = self.gates@;
        let ok = self.is_equal_point(lhs, r);
        let ghost g3 = self.gates@;
        self.add_constraint(Constraint::AssertOne(ok));
        proof {
            lemma_extends_trans_all();
            lemma_all_ops_reduced();
            assert forall|gs: Seq<Gate>, inp: Seq<int>| extends(self.gates@, gs) && all_bits(gs, inp, s@) && all_bits(gs, inp, e@) && reduced(pt4(gs, inp, pk))
                implies #[trigger] v(gs, inp, ok) == b01(spec_equals(
                spec_shamir_from(bools(gs, inp, s@), bools(gs, inp, e@), spec_neg(pt4(gs, inp, pk)), 0),
                pt4(gs, inp, r),
            )) by {
                assert(extends(g3, gs) && extends(g2, gs) && extends(g1, gs));
                assert(pt4(gs, inp, neg) == spec_neg(pt4(gs, inp, pk)));
                assert(reduced(pt4(gs, inp, neg)));
            }
        }
        ok
    }
}

} // verus!
