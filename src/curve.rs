//! The curve over GF(p^5) in (X : Z : U : T) coordinates, with x = X/Z and
//! u = U/T, and its group operations by complete formulas.
use crate::gfp5::{
    coords, fp5_add, fp5_mul, fp5_mul_small_k1, fp5_neg, fp5_one, fp5_scale, fp5_sub, fp5_zero,
    GFp5,
};
use crate::scalar::{Scalar, NB_BITS};
use vstd::prelude::*;

verus! {

/// The coefficient of `w` in the curve constant `b`.
pub const B1: u32 = 263;

/// A point as four elements of the model field: (X, Z, U, T).
pub type PointModel = (Seq<int>, Seq<int>, Seq<int>, Seq<int>);

/// A point of the curve in extended coordinates.
#[derive(Clone, Copy, Debug)]
pub struct Point {
    pub x: GFp5,
    pub z: GFp5,
    pub u: GFp5,
    pub t: GFp5,
}

pub open spec fn pt(p: Point) -> PointModel {
    (coords(p.x), coords(p.z), coords(p.u), coords(p.t))
}

/// The canonical identity (0 : 1 : 0 : 1).
pub open spec fn spec_zero() -> PointModel {
    (fp5_zero(), fp5_one(), fp5_zero(), fp5_one())
}

/// The conventional generator: u = 1/4, and x the root fixed by the curve equation.
pub open spec fn spec_generator() -> PointModel {
    (
        seq![12883135586176881569, 4356519642755055268, 5248930565894896907, 2165973894480315022, 2448410071095648785],
        fp5_one(),
        fp5_one(),
        seq![4, 0, 0, 0, 0],
    )
}

/// The identity is the only point with U = 0.
pub open spec fn spec_is_zero(p: PointModel) -> bool {
    p.2 == fp5_zero()
}

/// Two coordinate quadruples denote one point iff both are the identity, or
/// X1 Z2 = X2 Z1 and U1 T2 = U2 T1.
pub open spec fn spec_equals(p: PointModel, q: PointModel) -> bool {
    (spec_is_zero(p) && spec_is_zero(q)) || (fp5_mul(p.0, q.1) == fp5_mul(q.0, p.1) && fp5_mul(
        p.2,
        q.3,
    ) == fp5_mul(q.2, p.3))
}

/// The curve equation u^2 (x^2 + a x z + b z^2) = x z t^2, where a = 2 and
/// b = 263 w; the identity is exempt.
pub open spec fn spec_on_curve(p: PointModel) -> bool {
    let (x, z, u, t) = p;
    let xz = fp5_mul(x, z);
    let inner = fp5_add(
        fp5_add(fp5_mul(x, x), fp5_add(xz, xz)),
        fp5_mul_small_k1(fp5_mul(z, z), B1 as int),
    );
    spec_is_zero(p) || fp5_mul(fp5_mul(u, u), inner) == fp5_mul(xz, fp5_mul(t, t))
}

/// Negation flips the sign of U.
pub open spec fn spec_neg(p: PointModel) -> PointModel {
    (p.0, p.1, fp5_neg(p.2), p.3)
}

/// The complete addition formula.
#[verifier::opaque]
pub open spec fn spec_add(p: PointModel, q: PointModel) -> PointModel {
    let (x1, z1, u1, t1) = p;
    let (x2, z2, u2, t2) = q;
    let t1_ = fp5_mul(x1, x2);
    let t2_ = fp5_mul(z1, z2);
    let t3_ = fp5_mul(u1, u2);
    let t4_ = fp5_mul(t1, t2);
    let t5_ = fp5_sub(fp5_sub(fp5_mul(fp5_add(x1, z1), fp5_add(x2, z2)), t1_), t2_);
    let t6_ = fp5_sub(fp5_sub(fp5_mul(fp5_add(u1, t1), fp5_add(u2, t2)), t3_), t4_);
    let t2b = fp5_mul_small_k1(t2_, B1 as int);
    let t7_ = fp5_add(t1_, t2b);
    let t8_ = fp5_mul(t4_, t7_);
    let t9_ = fp5_mul(t3_, fp5_add(fp5_mul_small_k1(t5_, 2 * B1), fp5_add(t7_, t7_)));
    let t10_ = fp5_mul(fp5_add(t4_, fp5_add(t3_, t3_)), fp5_add(t5_, t7_));
    (
        fp5_mul_small_k1(fp5_sub(t10_, t8_), B1 as int),
        fp5_sub(t8_, t9_),
        fp5_mul(t6_, fp5_sub(t2b, t1_)),
        fp5_add(t8_, t9_),
    )
}

/// The doubling formula.
#[verifier::opaque]
pub open spec fn spec_double(p: PointModel) -> PointModel {
    let (x, z, u, t) = p;
    let t1 = fp5_mul(z, t);
    let t2 = fp5_mul(t1, t);
    let x1 = fp5_mul(t2, t2);
    let z1 = fp5_mul(t1, u);
    let t3 = fp5_mul(u, u);
    let xz = fp5_add(x, z);
    let w1 = fp5_sub(t2, fp5_mul(fp5_add(xz, xz), t3));
    let t4 = fp5_mul(z1, z1);
    let nz = fp5_mul(w1, w1);
    let s = fp5_add(w1, z1);
    (
        fp5_mul_small_k1(t4, 4 * B1),
        nz,
        fp5_sub(fp5_sub(fp5_mul(s, s), t4), nz),
        fp5_sub(fp5_sub(fp5_add(x1, x1), fp5_scale(t4, 4)), nz),
    )
}

/// Double-and-add over the bits from index `i` upward, top bit first.
pub open spec fn spec_scalar_mul_from(p: PointModel, bits: Seq<bool>, i: int) -> PointModel
    decreases bits.len() - i,
{
    if i < 0 || i >= bits.len() {
        spec_zero()
    } else {
        let d = spec_double(spec_scalar_mul_from(p, bits, i + 1));
        if bits[i] {
            spec_add(d, p)
        } else {
            d
        }
    }
}

/// `bits * p`, one doubling and one conditional addition per bit.
pub open spec fn spec_scalar_mul(p: PointModel, bits: Seq<bool>) -> PointModel {
    spec_scalar_mul_from(p, bits, 0)
}

/// The term that Shamir's trick adds for the bit pair `(s_i, e_i)`:
/// the identity, `p`, `g` or `g + p`.
pub open spec fn spec_shamir_term(sb: bool, eb: bool, g: PointModel, p: PointModel, gp: PointModel) -> PointModel {
    if sb && eb {
        gp
    } else if sb {
        g
    } else if eb {
        p
    } else {
        spec_zero()
    }
}

/// Shamir's trick over the bit pairs from index `i` upward.
pub open spec fn spec_shamir_from(s: Seq<bool>, e: Seq<bool>, p: PointModel, i: int) -> PointModel
    decreases s.len() - i,
{
    if i < 0 || i >= s.len() || i >= e.len() {
        spec_zero()
    } else {
        let g = spec_generator();
        let d = spec_double(spec_shamir_from(s, e, p, i + 1));
        spec_add(d, spec_shamir_term(s[i], e[i], g, p, spec_add(g, p)))
    }
}

/// `s G + e p` in one pass over the bit pairs, top first.
pub open spec fn spec_shamir(s: Seq<bool>, e: Seq<bool>, p: PointModel) -> PointModel {
    spec_shamir_from(s, e, p, 0)
}

/// The sum of a point and its negation is the identity: U vanishes, for
/// every coordinate quadruple.
pub proof fn lemma_add_neg_is_zero(q: PointModel)
    requires
        q.2.len() == 5,
        q.3.len() == 5,
    ensures
        spec_is_zero(spec_add(q, spec_neg(q))),
{
    reveal(spec_add);
    crate::gfp5::lemma_cross_cancels(q.2, q.3);
    let rest = fp5_sub(fp5_mul_small_k1(fp5_mul(q.1, q.1), B1 as int), fp5_mul(q.0, q.0));
    assert(rest.len() == 5) by {
        reveal(fp5_sub);
    }
    crate::gfp5::lemma_mul_zero_left(rest);
}

/// Doubling the identity gives back exactly the identity's coordinates.
pub proof fn lemma_double_zero()
    ensures
        spec_double(spec_zero()) == spec_zero(),
{
    reveal(spec_double);
    reveal(crate::gfp5::fp5_add);
    reveal(crate::gfp5::fp5_sub);
    reveal(crate::gfp5::fp5_mul);
    reveal(crate::gfp5::fp5_scale);
    reveal(crate::gfp5::fp5_mul_small_k1);
    crate::circuit::lemma_small_values();
    let z = fp5_zero();
    let o = fp5_one();
    assert(z[0] == 0 && z[1] == 0 && z[2] == 0 && z[3] == 0 && z[4] == 0);
    assert(o[0] == 1 && o[1] == 0 && o[2] == 0 && o[3] == 0 && o[4] == 0);
    assert(fp5_mul(o, o) =~= o);
    assert(fp5_mul(o, z) =~= z);
    assert(fp5_mul(z, z) =~= z);
    assert(fp5_add(o, o) =~= seq![2, 0, 0, 0, 0]);
    assert(fp5_add(z, o) =~= o);
    assert(fp5_add(o, z) =~= o);
    assert(fp5_mul(fp5_add(o, o), z) =~= z);
    assert(fp5_sub(o, z) =~= o);
    assert(fp5_mul_small_k1(z, 4 * B1) =~= z);
    assert(fp5_sub(fp5_sub(o, z), o) =~= z);
    assert(fp5_scale(z, 4) =~= z);
    assert(fp5_sub(fp5_sub(seq![2, 0, 0, 0, 0], z), o) =~= o);
}

/// Zero times any point is the identity: with every bit clear, each step
/// doubles the identity.
pub proof fn lemma_scalar_mul_zero(q: PointModel, bits: Seq<bool>, i: int)
    requires
        0 <= i,
        forall|j: int| 0 <= j < bits.len() ==> !#[trigger] bits[j],
    ensures
        spec_scalar_mul_from(q, bits, i) == spec_zero(),
    decreases bits.len() - i,
{
    if i < bits.len() {
        lemma_scalar_mul_zero(q, bits, i + 1);
        lemma_double_zero();
    }
}

impl Point {
    /// All coordinates canonical.
    pub open spec fn wf(&self) -> bool {
        self.x.wf() && self.z.wf() && self.u.wf() && self.t.wf()
    }

    /// The identity.
    pub fn zero() -> (r: Point)
        ensures
            r.wf(),
            pt(r) == spec_zero(),
    {
        Point { x: GFp5::zero(), z: GFp5::one(), u: GFp5::zero(), t: GFp5::one() }
    }

    /// The conventional generator G.
    pub fn generator() -> (r: Point)
        ensures
            r.wf(),
            pt(r) == spec_generator(),
    {
        let r = Point {
            x: GFp5(
                [
                    12883135586176881569,
                    4356519642755055268,
                    5248930565894896907,
                    2165973894480315022,
                    2448410071095648785,
                ],
            ),
            z: GFp5::one(),
            u: GFp5::one(),
            t: GFp5([4, 0, 0, 0, 0]),
        };
        assert(coords(r.x) =~= spec_generator().0);
        assert(coords(r.t) =~= spec_generator().3);
        r
    }

    /// True iff the point is the identity (U = 0).
    pub fn is_zero(&self) -> (r: bool)
        ensures
            r == spec_is_zero(pt(*self)),
    {
        self.u.is_zero()
    }

    /// Point equality by cross products; never a comparison of raw coordinates.
    pub fn equals(&self, q: &Point) -> (r: bool)
        requires
            self.wf(),
            q.wf(),
        ensures
            r == spec_equals(pt(*self), pt(*q)),
    {
        let both_zero = self.is_zero() && q.is_zero();
        let x1z2 = self.x.mul(&q.z);
        let x2z1 = q.x.mul(&self.z);
        let u1t2 = self.u.mul(&q.t);
        let u2t1 = q.u.mul(&self.t);
        both_zero || (x1z2.equals(&x2z1) && u1t2.equals(&u2t1))
    }

    /// True iff the point satisfies the curve equation or is the identity.
    pub fn is_on_curve(&self) -> (r: bool)
        requires
            self.wf(),
        ensures
            r == spec_on_curve(pt(*self)),
    {
        let u2 = self.u.mul(&self.u);
        let t2 = self.t.mul(&self.t);
        let x2 = self.x.mul(&self.x);
        let z2 = self.z.mul(&self.z);
        let xz = self.x.mul(&self.z);
        let axz = xz.mul_by_a();
        let bz2 = z2.mul_by_b();
        let inner = x2.add(&axz).add(&bz2);
        let lhs = u2.mul(&inner);
        let rhs = xz.mul(&t2);
        self.is_zero() || lhs.equals(&rhs)
    }

    /// `-p`: U changes sign, the other coordinates stay.
    pub fn neg(&self) -> (r: Point)
        requires
            self.wf(),
        ensures
            r.wf(),
            pt(r) == spec_neg(pt(*self)),
    {
        Point { x: self.x, z: self.z, u: self.u.neg(), t: self.t }
    }

    /// `p + q` by the complete formula.
    #[verifier::rlimit(40)]
    pub fn add(&self, q: &Point) -> (r: Point)
        requires
            self.wf(),
            q.wf(),
        ensures
            r.wf(),
            pt(r) == spec_add(pt(*self), pt(*q)),
    {
        proof {
            reveal(spec_add);
        }
        let t1 = self.x.mul(&q.x);
        let t2 = self.z.mul(&q.z);
        let t3 = self.u.mul(&q.u);
        let t4 = self.t.mul(&q.t);
        let t5 = self.x.add(&self.z).mul(&q.x.add(&q.z)).sub(&t1).sub(&t2);
        let t6 = self.u.add(&self.t).mul(&q.u.add(&q.t)).sub(&t3).sub(&t4);
        let t2b = t2.mul_small_k1(B1);
        let t7 = t1.add(&t2b);
        let t8 = t4.mul(&t7);
        let t9 = t3.mul(&t5.mul_small_k1(2 * B1).add(&t7.double()));
        let t10 = t4.add(&t3.double()).mul(&t5.add(&t7));
        Point {
            x: t10.sub(&t8).mul_small_k1(B1),
            z: t8.sub(&t9),
            u: t6.mul(&t2b.sub(&t1)),
            t: t8.add(&t9),
        }
    }

    /// `2 p` by the doubling formula.
    #[verifier::rlimit(40)]
    pub fn double(&self) -> (r: Point)
        requires
            self.wf(),
        ensures
            r.wf(),
            pt(r) == spec_double(pt(*self)),
    {
        proof {
            reveal(spec_double);
        }
        let t1 = self.z.mul(&self.t);
        let t2 = t1.mul(&self.t);
        let x1 = t2.mul(&t2);
        let z1 = t1.mul(&self.u);
        let t3 = self.u.mul(&self.u);
        let w1 = t2.sub(&self.x.add(&self.z).double().mul(&t3));
        let t4 = z1.mul(&z1);
        let nz = w1.mul(&w1);
        let s = w1.add(&z1);
        Point {
            x: t4.mul_small_k1(4 * B1),
            z: nz,
            u: s.mul(&s).sub(&t4).sub(&nz),
            t: x1.double().sub(&t4.mul_small(4)).sub(&nz),
        }
    }

    /// `bits * p` by double-and-add from the top bit, one doubling per bit
    /// whatever the bits hold.
    pub fn scalar_mul_bits(&self, bits: &Vec<bool>) -> (r: Point)
        requires
            self.wf(),
        ensures
            r.wf(),
            pt(r) == spec_scalar_mul(pt(*self), bits@),
    {
        let mut acc = Point::zero();
        let mut i: usize = bits.len();
        while i > 0
            invariant
                i <= bits.len(),
                self.wf(),
                acc.wf(),
                pt(acc) == spec_scalar_mul_from(pt(*self), bits@, i as int),
            decreases i,
        {
            i = i - 1;
            let d = acc.double();
            if bits[i] {
                acc = d.add(self);
            } else {
                acc = d;
            }
        }
        acc
    }

    /// `s * p`.
    pub fn scalar_mul(&self, s: &Scalar) -> (r: Point)
        requires
            self.wf(),
            s.wf(),
        ensures
            r.wf(),
            pt(r) == spec_scalar_mul(pt(*self), s.bits@),
    {
        self.scalar_mul_bits(&s.bits)
    }

    /// `s * G`.
    pub fn mulgen(s: &Scalar) -> (r: Point)
        requires
            s.wf(),
        ensures
            r.wf(),
            pt(r) == spec_scalar_mul(spec_generator(), s.bits@),
    {
        Point::generator().scalar_mul(s)
    }

    /// `s G + e p` by Shamir's trick: per bit pair, top first, double the
    /// accumulator and add one of the identity, `p`, `G` or `G + p`.
    pub fn double_scalar_mul_shamir(s: &Vec<bool>, e: &Vec<bool>, p: &Point) -> (r: Point)
        requires
            s.len() == e.len(),
            p.wf(),
        ensures
            r.wf(),
            pt(r) == spec_shamir(s@, e@, pt(*p)),
    {
        let g = Point::generator();
        let gp = g.add(p);
        let zero = Point::zero();
        let mut acc = zero;
        let mut i: usize = s.len();
        while i > 0
            invariant
                i <= s.len(),
                s.len() == e.len(),
                p.wf(),
                g.wf(),
                gp.wf(),
                zero.wf(),
                acc.wf(),
                pt(g) == spec_generator(),
                pt(gp) == spec_add(spec_generator(), pt(*p)),
                pt(zero) == spec_zero(),
                pt(acc) == spec_shamir_from(s@, e@, pt(*p), i as int),
            decreases i,
        {
            i = i - 1;
            let d = acc.double();
            let sb = s[i];
            let eb = e[i];
            let term = if sb && eb {
                gp
            } else if sb {
                g
            } else if eb {
                *p
            } else {
                zero
            };
            acc = d.add(&term);
        }
        acc
    }
}

/// The 20 base-field words of a point, in the order X, Z, U, T.
pub open spec fn point_words(p: Point) -> Seq<u64> {
    p.x.0@ + p.z.0@ + p.u.0@ + p.t.0@
}

impl Point {
    /// The point's 20 base-field words, in the order X, Z, U, T.
    pub fn to_words(&self) -> (r: Vec<u64>)
        ensures
            r@ == point_words(*self),
    {
        let mut r: Vec<u64> = Vec::with_capacity(20);
        let mut k: usize = 0;
        while k < 5
            invariant
                k <= 5,
                r@ == self.x.0@.subrange(0, k as int),
            decreases 5 - k,
        {
            r.push(self.x.0[k]);
            k = k + 1;
            assert(r@ =~= self.x.0@.subrange(0, k as int));
        }
        let ghost r1 = r@;
        assert(r1 =~= self.x.0@);
        k = 0;
        while k < 5
            invariant
                k <= 5,
                r@ == r1 + self.z.0@.subrange(0, k as int),
            decreases 5 - k,
        {
            r.push(self.z.0[k]);
            k = k + 1;
            assert(r@ =~= r1 + self.z.0@.subrange(0, k as int));
        }
        let ghost r2 = r@;
        assert(r2 =~= r1 + self.z.0@);
        k = 0;
        while k < 5
            invariant
                k <= 5,
                r@ == r2 + self.u.0@.subrange(0, k as int),
            decreases 5 - k,
        {
            r.push(self.u.0[k]);
            k = k + 1;
            assert(r@ =~= r2 + self.u.0@.subrange(0, k as int));
        }
        let ghost r3 = r@;
        assert(r3 =~= r2 + self.u.0@);
        k = 0;
        while k < 5
            invariant
                k <= 5,
                r@ == r3 + self.t.0@.subrange(0, k as int),
            decreases 5 - k,
        {
            r.push(self.t.0[k]);
            k = k + 1;
            assert(r@ =~= r3 + self.t.0@.subrange(0, k as int));
        }
        assert(r@ =~= point_words(*self));
        r
    }
}

} // verus!
