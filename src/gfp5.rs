//! The quintic extension GF(p^5) = GF(p)[w] / (w^5 - 3), basis {1, w, w^2, w^3, w^4}.
use crate::field::{
    canonical, gf_add, gf_mac, gf_mul, gf_neg, gf_sub, lemma_mod_add_left, lemma_mod_mul_left, p,
    P,
};
use vstd::prelude::*;

verus! {

/// An element of GF(p^5), five canonical base-field coordinates.
#[derive(Clone, Copy, Debug)]
pub struct GFp5(pub [u64; 5]);

/// The coordinates of an element as integers.
pub open spec fn coords(a: GFp5) -> Seq<int> {
    seq![a.0[0] as int, a.0[1] as int, a.0[2] as int, a.0[3] as int, a.0[4] as int]
}

/// Builds the five coordinates of a model element, each reduced modulo p.
pub open spec fn fp5(c0: int, c1: int, c2: int, c3: int, c4: int) -> Seq<int> {
    seq![c0 % p(), c1 % p(), c2 % p(), c3 % p(), c4 % p()]
}

/// Coordinate-wise sum.
#[verifier::opaque]
pub open spec fn fp5_add(a: Seq<int>, b: Seq<int>) -> Seq<int> {
    fp5(a[0] + b[0], a[1] + b[1], a[2] + b[2], a[3] + b[3], a[4] + b[4])
}

/// Coordinate-wise difference.
#[verifier::opaque]
pub open spec fn fp5_sub(a: Seq<int>, b: Seq<int>) -> Seq<int> {
    fp5(a[0] - b[0], a[1] - b[1], a[2] - b[2], a[3] - b[3], a[4] - b[4])
}

/// Coordinate-wise negation.
#[verifier::opaque]
pub open spec fn fp5_neg(a: Seq<int>) -> Seq<int> {
    fp5(0 - a[0], 0 - a[1], 0 - a[2], 0 - a[3], 0 - a[4])
}

/// Multiplies every coordinate by the base-field integer `k`.
#[verifier::opaque]
pub open spec fn fp5_scale(a: Seq<int>, k: int) -> Seq<int> {
    fp5(k * a[0], k * a[1], k * a[2], k * a[3], k * a[4])
}

/// Schoolbook product: a cross term `a_i b_j` with `i + j >= 5` lands on
/// `w^(i+j-5)` multiplied by 3, since `w^5 = 3`.
#[verifier::opaque]
pub open spec fn fp5_mul(a: Seq<int>, b: Seq<int>) -> Seq<int> {
    fp5(
        a[0] * b[0] + 3 * (a[1] * b[4] + a[2] * b[3] + a[3] * b[2] + a[4] * b[1]),
        a[0] * b[1] + a[1] * b[0] + 3 * (a[2] * b[4] + a[3] * b[3] + a[4] * b[2]),
        a[0] * b[2] + a[1] * b[1] + a[2] * b[0] + 3 * (a[3] * b[4] + a[4] * b[3]),
        a[0] * b[3] + a[1] * b[2] + a[2] * b[1] + a[3] * b[0] + 3 * (a[4] * b[4]),
        a[0] * b[4] + a[1] * b[3] + a[2] * b[2] + a[3] * b[1] + a[4] * b[0],
    )
}

/// Multiplication by `k * w`: the coordinates shift up one place and the top
/// one wraps around to the constant term multiplied by 3.
#[verifier::opaque]
pub open spec fn fp5_mul_small_k1(a: Seq<int>, k: int) -> Seq<int> {
    fp5(3 * k * a[4], k * a[0], k * a[1], k * a[2], k * a[3])
}

/// Zero, as model coordinates.
pub open spec fn fp5_zero() -> Seq<int> {
    seq![0, 0, 0, 0, 0]
}

/// One, as model coordinates.
pub open spec fn fp5_one() -> Seq<int> {
    seq![1, 0, 0, 0, 0]
}

impl GFp5 {
    /// Every coordinate is canonical.
    pub open spec fn wf(&self) -> bool {
        forall|i: int| 0 <= i < 5 ==> #[trigger] canonical(self.0[i])
    }

    pub open spec fn spec_is_zero(&self) -> bool {
        coords(*self) == fp5_zero()
    }

    pub fn zero() -> (r: GFp5)
        ensures
            r.wf(),
            coords(r) == fp5_zero(),
    {
        GFp5([0, 0, 0, 0, 0])
    }

    pub fn one() -> (r: GFp5)
        ensures
            r.wf(),
            coords(r) == fp5_one(),
    {
        GFp5([1, 0, 0, 0, 0])
    }

    /// The element with the given coordinates, each reduced modulo p.
    pub fn from_u64_reduce(c: [u64; 5]) -> (r: GFp5)
        ensures
            r.wf(),
            coords(r) == fp5(c[0] as int, c[1] as int, c[2] as int, c[3] as int, c[4] as int),
    {
        GFp5([c[0] % P, c[1] % P, c[2] % P, c[3] % P, c[4] % P])
    }

    pub fn add(&self, b: &GFp5) -> (r: GFp5)
        requires
            self.wf(),
            b.wf(),
        ensures
            r.wf(),
            coords(r) == fp5_add(coords(*self), coords(*b)),
    {
        let a = self;
        proof {
            assert(canonical(a.0[0]) && canonical(a.0[1]) && canonical(a.0[2]) && canonical(a.0[3]) && canonical(a.0[4]));
            assert(canonical(b.0[0]) && canonical(b.0[1]) && canonical(b.0[2]) && canonical(b.0[3]) && canonical(b.0[4]));
        }
        let r = GFp5([
            gf_add(a.0[0], b.0[0]),
            gf_add(a.0[1], b.0[1]),
            gf_add(a.0[2], b.0[2]),
            gf_add(a.0[3], b.0[3]),
            gf_add(a.0[4], b.0[4]),
        ]);
        reveal(fp5_add);
        assert(coords(r) =~= fp5_add(coords(*self), coords(*b)));
        r
    }

    pub fn sub(&self, b: &GFp5) -> (r: GFp5)
        requires
            self.wf(),
            b.wf(),
        ensures
            r.wf(),
            coords(r) == fp5_sub(coords(*self), coords(*b)),
    {
        let a = self;
        proof {
            assert(canonical(a.0[0]) && canonical(a.0[1]) && canonical(a.0[2]) && canonical(a.0[3]) && canonical(a.0[4]));
            assert(canonical(b.0[0]) && canonical(b.0[1]) && canonical(b.0[2]) && canonical(b.0[3]) && canonical(b.0[4]));
        }
        let r = GFp5([
            gf_sub(a.0[0], b.0[0]),
            gf_sub(a.0[1], b.0[1]),
            gf_sub(a.0[2], b.0[2]),
            gf_sub(a.0[3], b.0[3]),
            gf_sub(a.0[4], b.0[4]),
        ]);
        reveal(fp5_sub);
        assert(coords(r) =~= fp5_sub(coords(*self), coords(*b)));
        r
    }

    pub fn neg(&self) -> (r: GFp5)
        requires
            self.wf(),
        ensures
            r.wf(),
            coords(r) == fp5_neg(coords(*self)),
    {
        let a = self;
        proof {
            assert(canonical(a.0[0]) && canonical(a.0[1]) && canonical(a.0[2]) && canonical(a.0[3]) && canonical(a.0[4]));
        }
        let r = GFp5([gf_neg(a.0[0]), gf_neg(a.0[1]), gf_neg(a.0[2]), gf_neg(a.0[3]), gf_neg(a.0[4])]);
        reveal(fp5_neg);
        assert(coords(r) =~= fp5_neg(coords(*self)));
        r
    }

    /// `2 a`, computed as `a + a`.
    pub fn double(&self) -> (r: GFp5)
        requires
            self.wf(),
        ensures
            r.wf(),
            coords(r) == fp5_add(coords(*self), coords(*self)),
    {
        self.add(self)
    }

    /// Multiplication by the curve constant `a = 2`: a doubling.
    pub fn mul_by_a(&self) -> (r: GFp5)
        requires
            self.wf(),
        ensures
            r.wf(),
            coords(r) == fp5_add(coords(*self), coords(*self)),
    {
        self.double()
    }

    /// Multiplies every coordinate by the small integer `k`.
    pub fn mul_small(&self, k: u32) -> (r: GFp5)
        requires
            self.wf(),
        ensures
            r.wf(),
            coords(r) == fp5_scale(coords(*self), k as int),
    {
        let a = self;
        proof {
            assert(canonical(a.0[0]) && canonical(a.0[1]) && canonical(a.0[2]) && canonical(a.0[3]) && canonical(a.0[4]));
        }
        let k64 = k as u64;
        let r = GFp5([gf_mul(k64, a.0[0]), gf_mul(k64, a.0[1]), gf_mul(k64, a.0[2]), gf_mul(k64, a.0[3]), gf_mul(k64, a.0[4])]);
        reveal(fp5_scale);
        assert(coords(r) =~= fp5_scale(coords(*self), k as int));
        r
    }

    /// Multiplication by `k w`.
    pub fn mul_small_k1(&self, k: u32) -> (r: GFp5)
        requires
            self.wf(),
        ensures
            r.wf(),
            coords(r) == fp5_mul_small_k1(coords(*self), k as int),
    {
        let a = self;
        proof {
            assert(canonical(a.0[0]) && canonical(a.0[1]) && canonical(a.0[2]) && canonical(a.0[3]) && canonical(a.0[4]));
        }
        let k64 = k as u64;
        let k3 = 3 * k64;
        let r = GFp5([gf_mul(k3, a.0[4]), gf_mul(k64, a.0[0]), gf_mul(k64, a.0[1]), gf_mul(k64, a.0[2]), gf_mul(k64, a.0[3])]);
        reveal(fp5_mul_small_k1);
        assert(coords(r) =~= fp5_mul_small_k1(coords(*self), k as int));
        r
    }

    /// Multiplication by the curve constant `b = 263 w`.
    pub fn mul_by_b(&self) -> (r: GFp5)
        requires
            self.wf(),
        ensures
            r.wf(),
            coords(r) == fp5_mul_small_k1(coords(*self), 263),
    {
        self.mul_small_k1(263)
    }

    /// The product in GF(p^5).
    pub fn mul(&self, b: &GFp5) -> (r: GFp5)
        requires
            self.wf(),
            b.wf(),
        ensures
            r.wf(),
            coords(r) == fp5_mul(coords(*self), coords(*b)),
    {
        let a = self;
        proof {
            assert(canonical(a.0[0]) && canonical(a.0[1]) && canonical(a.0[2]) && canonical(a.0[3]) && canonical(a.0[4]));
            assert(canonical(b.0[0]) && canonical(b.0[1]) && canonical(b.0[2]) && canonical(b.0[3]) && canonical(b.0[4]));
        }
        let (a0, a1, a2, a3, a4) = (a.0[0], a.0[1], a.0[2], a.0[3], a.0[4]);
        let (b0, b1, b2, b3, b4) = (b.0[0], b.0[1], b.0[2], b.0[3], b.0[4]);
        let c0 = mul_coord(a0, b0, a1, b4, a2, b3, a3, b2, a4, b1);
        let c1 = mul_coord2(a0, b1, a1, b0, a2, b4, a3, b3, a4, b2);
        let c2 = mul_coord3(a0, b2, a1, b1, a2, b0, a3, b4, a4, b3);
        let c3 = mul_coord4(a0, b3, a1, b2, a2, b1, a3, b0, a4, b4);
        let c4 = gf_mac(gf_mac(gf_mac(gf_mac(gf_mul(a0, b4), a1, b3), a2, b2), a3, b1), a4, b0);
        proof {
            let (x0, x1, x2, x3, x4) = (a0 as int, a1 as int, a2 as int, a3 as int, a4 as int);
            let (y0, y1, y2, y3, y4) = (b0 as int, b1 as int, b2 as int, b3 as int, b4 as int);
            lemma_mod_add_left(x0 * y4, x1 * y3);
            lemma_mod_add_left(x0 * y4 + x1 * y3, x2 * y2);
            lemma_mod_add_left(x0 * y4 + x1 * y3 + x2 * y2, x3 * y1);
            lemma_mod_add_left(x0 * y4 + x1 * y3 + x2 * y2 + x3 * y1, x4 * y0);
        }
        let r = GFp5([c0, c1, c2, c3, c4]);
        reveal(fp5_mul);
        assert(coords(r) =~= fp5_mul(coords(*self), coords(*b)));
        r
    }

    /// Coordinate-wise equality.
    pub fn equals(&self, b: &GFp5) -> (r: bool)
        ensures
            r == (coords(*self) == coords(*b)),
    {
        let r = self.0[0] == b.0[0] && self.0[1] == b.0[1] && self.0[2] == b.0[2] && self.0[3] == b.0[3]
            && self.0[4] == b.0[4];
        proof {
            if coords(*self) == coords(*b) {
                assert(coords(*self)[0] == coords(*b)[0]);
                assert(coords(*self)[1] == coords(*b)[1]);
                assert(coords(*self)[2] == coords(*b)[2]);
                assert(coords(*self)[3] == coords(*b)[3]);
                assert(coords(*self)[4] == coords(*b)[4]);
            }
            if r {
                assert(coords(*self) =~= coords(*b));
            }
        }
        r
    }

    /// True iff every coordinate is zero.
    pub fn is_zero(&self) -> (r: bool)
        ensures
            r == (coords(*self) == fp5_zero()),
    {
        let z = GFp5::zero();
        self.equals(&z)
    }
}

/// Each coordinate of the model lies in `[0, p)`.
pub open spec fn reduced_fp5(a: Seq<int>) -> bool {
    a.len() == 5 && forall|i: int| 0 <= i < 5 ==> 0 <= #[trigger] a[i] < p()
}

/// Multiplication in GF(p^5) is commutative.
pub proof fn lemma_mul_commutative(a: Seq<int>, b: Seq<int>)
    ensures
        fp5_mul(a, b) == fp5_mul(b, a),
{
    reveal(fp5_mul);
    assert forall|x: int, y: int| #[trigger] (x * y) == y * x by {
        vstd::arithmetic::mul::lemma_mul_is_commutative(x, y);
    }
    assert(fp5_mul(a, b) =~= fp5_mul(b, a));
}

/// Addition in GF(p^5) is commutative.
pub proof fn lemma_add_commutative(a: Seq<int>, b: Seq<int>)
    ensures
        fp5_add(a, b) == fp5_add(b, a),
{
    reveal(fp5_add);
    assert(fp5_add(a, b) =~= fp5_add(b, a));
}

/// Addition in GF(p^5) is associative.
pub proof fn lemma_add_associative(a: Seq<int>, b: Seq<int>, c: Seq<int>)
    ensures
        fp5_add(fp5_add(a, b), c) == fp5_add(a, fp5_add(b, c)),
{
    reveal(fp5_add);
    assert forall|i: int| 0 <= i < 5 implies #[trigger] fp5_add(fp5_add(a, b), c)[i] == fp5_add(a, fp5_add(b, c))[i] by {
        lemma_mod_add_left(a[i] + b[i], c[i]);
        crate::field::lemma_mod_add_right(a[i], b[i] + c[i]);
    }
    assert(fp5_add(fp5_add(a, b), c) =~= fp5_add(a, fp5_add(b, c)));
}

/// One is the multiplicative identity of GF(p^5).
pub proof fn lemma_mul_one(a: Seq<int>)
    requires
        reduced_fp5(a),
    ensures
        fp5_mul(a, fp5_one()) == a,
{
    reveal(fp5_mul);
    let o = fp5_one();
    assert(o[0] == 1 && o[1] == 0 && o[2] == 0 && o[3] == 0 && o[4] == 0);
    assert(0 <= a[0] < p() && 0 <= a[1] < p() && 0 <= a[2] < p() && 0 <= a[3] < p() && 0 <= a[4] < p());
    vstd::arithmetic::div_mod::lemma_small_mod(a[0] as nat, p() as nat);
    vstd::arithmetic::div_mod::lemma_small_mod(a[1] as nat, p() as nat);
    vstd::arithmetic::div_mod::lemma_small_mod(a[2] as nat, p() as nat);
    vstd::arithmetic::div_mod::lemma_small_mod(a[3] as nat, p() as nat);
    vstd::arithmetic::div_mod::lemma_small_mod(a[4] as nat, p() as nat);
    assert(fp5_mul(a, o) =~= a);
}

/// `w0 a0 x0 + ... + w4 a4 x4`.
pub open spec fn dot5(w: Seq<int>, a: Seq<int>, x: Seq<int>) -> int {
    w[0] * (a[0] * x[0]) + w[1] * (a[1] * x[1]) + w[2] * (a[2] * x[2]) + w[3] * (a[3] * x[3]) + w[4] * (a[4]
        * x[4])
}

proof fn lemma_term_shift(w: int, a: int, y: int, q: int, m: int)
    ensures
        w * (a * (y + m * q)) == w * (a * y) + m * (w * (a * q)),
{
    assert(w * (a * (y + m * q)) == w * (a * y) + m * (w * (a * q))) by (nonlinear_arith);
}

proof fn lemma_term_split(w: int, a: int, x: int, y: int)
    ensures
        w * (a * (x + y)) == w * (a * x) + w * (a * y),
{
    assert(w * (a * (x + y)) == w * (a * x) + w * (a * y)) by (nonlinear_arith);
}

/// Replacing the `x` of a weighted dot product by congruent values keeps its residue.
pub proof fn lemma_dot5_congruent(w: Seq<int>, a: Seq<int>, x: Seq<int>, y: Seq<int>)
    requires
        w.len() == 5,
        a.len() == 5,
        x.len() == 5,
        y.len() == 5,
        forall|k: int| 0 <= k < 5 ==> #[trigger] x[k] % p() == y[k] % p(),
    ensures
        dot5(w, a, x) % p() == dot5(w, a, y) % p(),
{
    let m = p();
    let q = Seq::new(5, |k: int| (x[k] - y[k]) / m);
    assert forall|k: int| 0 <= k < 5 implies #[trigger] x[k] == y[k] + m * q[k] by {
        vstd::arithmetic::div_mod::lemma_sub_mod_noop(x[k], y[k], m);
        vstd::arithmetic::div_mod::lemma_fundamental_div_mod(x[k] - y[k], m);
        assert((x[k] % m - y[k] % m) % m == 0) by {
            vstd::arithmetic::div_mod::lemma_small_mod(0, m as nat);
        }
    }
    let extra = w[0] * (a[0] * q[0]) + w[1] * (a[1] * q[1]) + w[2] * (a[2] * q[2]) + w[3] * (a[3] * q[3]) + w[4] * (a[4] * q[4]);
    lemma_term_shift(w[0], a[0], y[0], q[0], m);
    lemma_term_shift(w[1], a[1], y[1], q[1], m);
    lemma_term_shift(w[2], a[2], y[2], q[2], m);
    lemma_term_shift(w[3], a[3], y[3], q[3], m);
    lemma_term_shift(w[4], a[4], y[4], q[4], m);
    assert(dot5(w, a, x) == m * extra + dot5(w, a, y));
    vstd::arithmetic::div_mod::lemma_mod_multiples_vanish(extra, dot5(w, a, y), m);
}

/// A weighted dot product is additive in its last argument.
proof fn lemma_dot5_additive(w: Seq<int>, a: Seq<int>, x: Seq<int>, y: Seq<int>, s: Seq<int>)
    requires
        w.len() == 5,
        a.len() == 5,
        x.len() == 5,
        y.len() == 5,
        s.len() == 5,
        forall|k: int| 0 <= k < 5 ==> #[trigger] s[k] == x[k] + y[k],
    ensures
        dot5(w, a, s) == dot5(w, a, x) + dot5(w, a, y),
{
    lemma_term_split(w[0], a[0], x[0], y[0]);
    lemma_term_split(w[1], a[1], x[1], y[1]);
    lemma_term_split(w[2], a[2], x[2], y[2]);
    lemma_term_split(w[3], a[3], x[3], y[3]);
    lemma_term_split(w[4], a[4], x[4], y[4]);
}

proof fn lemma_small_weight(w: int, t: int)
    ensures
        w == 3 ==> w * t == 3 * t,
        w == 1 ==> w * t == t,
{
}

/// The weights and the order in which coordinate `i` of a product reads its right operand.
pub open spec fn coef_weights(i: int) -> Seq<int> {
    if i == 0 {
        seq![1, 3, 3, 3, 3]
    } else if i == 1 {
        seq![1, 1, 3, 3, 3]
    } else if i == 2 {
        seq![1, 1, 1, 3, 3]
    } else if i == 3 {
        seq![1, 1, 1, 1, 3]
    } else {
        seq![1, 1, 1, 1, 1]
    }
}

pub open spec fn permuted(b: Seq<int>, i: int) -> Seq<int> {
    if i == 0 {
        seq![b[0], b[4], b[3], b[2], b[1]]
    } else if i == 1 {
        seq![b[1], b[0], b[4], b[3], b[2]]
    } else if i == 2 {
        seq![b[2], b[1], b[0], b[4], b[3]]
    } else if i == 3 {
        seq![b[3], b[2], b[1], b[0], b[4]]
    } else {
        seq![b[4], b[3], b[2], b[1], b[0]]
    }
}

/// Coordinate `i` of a product is a weighted dot product, reduced.
pub proof fn lemma_mul_coord_dot(a: Seq<int>, b: Seq<int>, i: int)
    requires
        0 <= i < 5,
        a.len() == 5,
        b.len() == 5,
    ensures
        fp5_mul(a, b).len() == 5,
        fp5_mul(a, b)[i] == dot5(coef_weights(i), a, permuted(b, i)) % p(),
{
    reveal(fp5_mul);
    let w = coef_weights(i);
    let x = permuted(b, i);
    assert(x.len() == 5);
    assert forall|k: int| 0 <= k < 5 implies #[trigger] (w[k] * (a[k] * x[k])) == (if w[k] == 3 {
        3 * (a[k] * x[k])
    } else {
        a[k] * x[k]
    }) by {
        lemma_small_weight(w[k], a[k] * x[k]);
    }
    if i == 0 {
        assert(w[0] == 1 && w[1] == 3 && w[2] == 3 && w[3] == 3 && w[4] == 3);
        assert(x[1] == b[4] && x[2] == b[3] && x[3] == b[2] && x[4] == b[1] && x[0] == b[0]);
        assert(dot5(w, a, x) == a[0] * b[0] + 3 * (a[1] * b[4] + a[2] * b[3] + a[3] * b[2] + a[4] * b[1]));
    } else if i == 1 {
        assert(w[0] == 1 && w[1] == 1 && w[2] == 3 && w[3] == 3 && w[4] == 3);
        assert(x[1] == b[0] && x[2] == b[4] && x[3] == b[3] && x[4] == b[2] && x[0] == b[1]);
        assert(dot5(w, a, x) == a[0] * b[1] + a[1] * b[0] + 3 * (a[2] * b[4] + a[3] * b[3] + a[4] * b[2]));
    } else if i == 2 {
        assert(w[0] == 1 && w[1] == 1 && w[2] == 1 && w[3] == 3 && w[4] == 3);
        assert(x[1] == b[1] && x[2] == b[0] && x[3] == b[4] && x[4] == b[3] && x[0] == b[2]);
        assert(dot5(w, a, x) == a[0] * b[2] + a[1] * b[1] + a[2] * b[0] + 3 * (a[3] * b[4] + a[4] * b[3]));
    } else if i == 3 {
        assert(w[0] == 1 && w[1] == 1 && w[2] == 1 && w[3] == 1 && w[4] == 3);
        assert(x[1] == b[2] && x[2] == b[1] && x[3] == b[0] && x[4] == b[4] && x[0] == b[3]);
        assert(dot5(w, a, x) == a[0] * b[3] + a[1] * b[2] + a[2] * b[1] + a[3] * b[0] + 3 * (a[4] * b[4]));
    } else {
        assert(w[0] == 1 && w[1] == 1 && w[2] == 1 && w[3] == 1 && w[4] == 1);
        assert(x[0] == b[4] && x[1] == b[3] && x[2] == b[2] && x[3] == b[1] && x[4] == b[0]);
        assert(dot5(w, a, x) == a[0] * b[4] + a[1] * b[3] + a[2] * b[2] + a[3] * b[1] + a[4] * b[0]);
    }
}

/// Multiplication distributes over addition in GF(p^5).
pub proof fn lemma_mul_distributes(a: Seq<int>, b: Seq<int>, c: Seq<int>)
    requires
        a.len() == 5,
        b.len() == 5,
        c.len() == 5,
    ensures
        fp5_mul(a, fp5_add(b, c)) == fp5_add(fp5_mul(a, b), fp5_mul(a, c)),
{
    reveal(fp5_add);
    let s = fp5_add(b, c);
    let lhs = fp5_mul(a, s);
    let rhs = fp5_add(fp5_mul(a, b), fp5_mul(a, c));
    assert forall|i: int| 0 <= i < 5 implies #[trigger] lhs[i] == rhs[i] by {
        let w = coef_weights(i);
        let ps = permuted(s, i);
        let pb = permuted(b, i);
        let pc = permuted(c, i);
        let sum = Seq::new(5, |k: int| pb[k] + pc[k]);
        lemma_mul_coord_dot(a, s, i);
        lemma_mul_coord_dot(a, b, i);
        lemma_mul_coord_dot(a, c, i);
        assert forall|k: int| 0 <= k < 5 implies #[trigger] ps[k] % p() == sum[k] % p() by {
            assert(ps[k] == (pb[k] + pc[k]) % p());
            vstd::arithmetic::div_mod::lemma_mod_twice(pb[k] + pc[k], p());
        }
        lemma_dot5_congruent(w, a, ps, sum);
        lemma_dot5_additive(w, a, pb, pc, sum);
        vstd::arithmetic::div_mod::lemma_add_mod_noop(dot5(w, a, pb), dot5(w, a, pc), p());
        assert(rhs[i] == ((fp5_mul(a, b)[i]) + (fp5_mul(a, c)[i])) % p());
    }
    lemma_mul_coord_dot(a, s, 0);
    assert(lhs =~= rhs);
}

/// The two operands of a weighted dot product can trade places.
pub proof fn lemma_dot5_swap(w: Seq<int>, a: Seq<int>, x: Seq<int>)
    ensures
        dot5(w, a, x) == dot5(w, x, a),
{
    vstd::arithmetic::mul::lemma_mul_is_commutative(a[0], x[0]);
    vstd::arithmetic::mul::lemma_mul_is_commutative(a[1], x[1]);
    vstd::arithmetic::mul::lemma_mul_is_commutative(a[2], x[2]);
    vstd::arithmetic::mul::lemma_mul_is_commutative(a[3], x[3]);
    vstd::arithmetic::mul::lemma_mul_is_commutative(a[4], x[4]);
}

/// One pair of the product `(u + t)(t - u) + u u - t t`, the part that does not cancel.
proof fn lemma_cross_term(w: int, uj: int, tj: int, ul: int, tl: int)
    ensures
        w * ((uj + tj) * (tl - ul)) - w * (uj * (0 - ul)) - w * (tj * tl) == w * (uj * tl) - w * (ul * tj),
{
    assert((uj + tj) * (tl - ul) == uj * tl - uj * ul + tj * tl - tj * ul) by (nonlinear_arith);
    assert(uj * (0 - ul) == 0 - uj * ul) by (nonlinear_arith);
    assert(tj * ul == ul * tj) by (nonlinear_arith);
    let x = (uj + tj) * (tl - ul);
    let y = uj * (0 - ul);
    let z = tj * tl;
    assert(x - y - z == uj * tl - ul * tj);
    assert(w * x - w * y - w * z == w * (x - y - z)) by (nonlinear_arith)
        requires
            x == (uj + tj) * (tl - ul),
    ;
    assert(w * (uj * tl - ul * tj) == w * (uj * tl) - w * (ul * tj)) by (nonlinear_arith);
}

/// In `(u + t)(-u + t) - u(-u) - t t` the cross terms cancel: the result is zero.
pub proof fn lemma_cross_cancels(u: Seq<int>, t: Seq<int>)
    requires
        u.len() == 5,
        t.len() == 5,
    ensures
        fp5_sub(
            fp5_sub(fp5_mul(fp5_add(u, t), fp5_add(fp5_neg(u), t)), fp5_mul(u, fp5_neg(u))),
            fp5_mul(t, t),
        ) == fp5_zero(),
{
    reveal(fp5_sub);
    let r = fp5_sub(
        fp5_sub(fp5_mul(fp5_add(u, t), fp5_add(fp5_neg(u), t)), fp5_mul(u, fp5_neg(u))),
        fp5_mul(t, t),
    );
    assert forall|k: int| 0 <= k < 5 implies #[trigger] r[k] == 0 by {
        lemma_cross_coord(u, t, k);
    }
    assert(r =~= fp5_zero());
}

/// Permuting congruent vectors the same way keeps them congruent.
proof fn lemma_permuted_congruent(x: Seq<int>, y: Seq<int>, k: int)
    requires
        x.len() == 5,
        y.len() == 5,
        forall|j: int| 0 <= j < 5 ==> #[trigger] x[j] % p() == y[j] % p(),
    ensures
        forall|j: int| 0 <= j < 5 ==> #[trigger] permuted(x, k)[j] % p() == permuted(y, k)[j] % p(),
{
    assert(x[0] % p() == y[0] % p() && x[1] % p() == y[1] % p() && x[2] % p() == y[2] % p());
    assert(x[3] % p() == y[3] % p() && x[4] % p() == y[4] % p());
}

/// Coordinate `k` of `(u + t)(-u + t)`, before reduction, is the dot
/// product of the unreduced sums.
#[verifier::rlimit(40)]
proof fn lemma_first_product(u: Seq<int>, t: Seq<int>, k: int)
    requires
        u.len() == 5,
        t.len() == 5,
        0 <= k < 5,
    ensures
        fp5_mul(fp5_add(u, t), fp5_add(fp5_neg(u), t))[k] == dot5(
            coef_weights(k),
            Seq::new(5, |j: int| u[j] + t[j]),
            permuted(Seq::new(5, |j: int| t[j] - u[j]), k),
        ) % p(),
{
    reveal(fp5_add);
    reveal(fp5_neg);
    let m = p();
    let a2 = fp5_add(u, t);
    let nu2 = fp5_neg(u);
    let b2 = fp5_add(nu2, t);
    let a = Seq::new(5, |j: int| u[j] + t[j]);
    let b = Seq::new(5, |j: int| t[j] - u[j]);
    let w = coef_weights(k);
    lemma_mul_coord_dot(a2, b2, k);
    assert forall|j: int| 0 <= j < 5 implies #[trigger] a2[j] % m == a[j] % m by {
        vstd::arithmetic::div_mod::lemma_mod_twice(u[j] + t[j], m);
    }
    assert forall|j: int| 0 <= j < 5 implies #[trigger] b2[j] % m == b[j] % m by {
        vstd::arithmetic::div_mod::lemma_mod_twice(nu2[j] + t[j], m);
        lemma_mod_add_left(0 - u[j], t[j]);
    }
    lemma_permuted_congruent(b2, b, k);
    let pb2 = permuted(b2, k);
    let pb = permuted(b, k);
    lemma_dot5_congruent(w, a2, pb2, pb);
    lemma_dot5_swap(w, a2, pb);
    lemma_dot5_congruent(w, pb, a2, a);
    lemma_dot5_swap(w, pb, a);
}

/// Coordinate `k` of `u (-u)`, before reduction.
#[verifier::rlimit(40)]
proof fn lemma_second_product(u: Seq<int>, k: int)
    requires
        u.len() == 5,
        0 <= k < 5,
    ensures
        fp5_mul(u, fp5_neg(u))[k] == dot5(coef_weights(k), u, permuted(Seq::new(5, |j: int| 0 - u[j]), k)) % p(),
{
    reveal(fp5_neg);
    let m = p();
    let nu2 = fp5_neg(u);
    let nu = Seq::new(5, |j: int| 0 - u[j]);
    lemma_mul_coord_dot(u, nu2, k);
    assert forall|j: int| 0 <= j < 5 implies #[trigger] nu2[j] % m == nu[j] % m by {
        vstd::arithmetic::div_mod::lemma_mod_twice(0 - u[j], m);
    }
    lemma_permuted_congruent(nu2, nu, k);
    lemma_dot5_congruent(coef_weights(k), u, permuted(nu2, k), permuted(nu, k));
}

/// One coordinate of the cross cancellation.
proof fn lemma_cross_coord(u: Seq<int>, t: Seq<int>, k: int)
    requires
        u.len() == 5,
        t.len() == 5,
        0 <= k < 5,
    ensures
        fp5_sub(
            fp5_sub(fp5_mul(fp5_add(u, t), fp5_add(fp5_neg(u), t)), fp5_mul(u, fp5_neg(u))),
            fp5_mul(t, t),
        )[k] == 0,
{
    reveal(fp5_sub);
    let m = p();
    let w = coef_weights(k);
    let d1 = dot5(w, Seq::new(5, |j: int| u[j] + t[j]), permuted(Seq::new(5, |j: int| t[j] - u[j]), k));
    let d2 = dot5(w, u, permuted(Seq::new(5, |j: int| 0 - u[j]), k));
    let d3 = dot5(w, t, permuted(t, k));
    lemma_first_product(u, t, k);
    lemma_second_product(u, k);
    lemma_mul_coord_dot(t, t, k);
    crate::field::lemma_mod_sub_both(d1, d2);
    crate::field::lemma_mod_sub_both(d1 - d2, d3);
    vstd::arithmetic::div_mod::lemma_mod_twice(d1 - d2, m);
    lemma_cross_sum_zero(u, t, k);
    vstd::arithmetic::div_mod::lemma_small_mod(0, m as nat);
}

/// The cross terms of one coefficient cancel in pairs.
proof fn lemma_cross_sum_zero(u: Seq<int>, t: Seq<int>, k: int)
    requires
        u.len() == 5,
        t.len() == 5,
        0 <= k < 5,
    ensures
        dot5(coef_weights(k), Seq::new(5, |j: int| u[j] + t[j]), permuted(Seq::new(5, |j: int| t[j] - u[j]), k))
            - dot5(coef_weights(k), u, permuted(Seq::new(5, |j: int| 0 - u[j]), k))
            - dot5(coef_weights(k), t, permuted(t, k)) == 0,
{
    let w = coef_weights(k);
    let a = Seq::new(5, |j: int| u[j] + t[j]);
    let b = Seq::new(5, |j: int| t[j] - u[j]);
    let nu = Seq::new(5, |j: int| 0 - u[j]);
    let pb = permuted(b, k);
    let pn = permuted(nu, k);
    let pt = permuted(t, k);
    if k == 0 {
        assert(w[0] == 1 && w[1] == 3 && w[2] == 3 && w[3] == 3 && w[4] == 3);
        assert(pb[0] == b[0] && pn[0] == nu[0] && pt[0] == t[0] && pb[1] == b[4] && pn[1] == nu[4] && pt[1] == t[4] && pb[2] == b[3] && pn[2] == nu[3] && pt[2] == t[3] && pb[3] == b[2] && pn[3] == nu[2] && pt[3] == t[2] && pb[4] == b[1] && pn[4] == nu[1] && pt[4] == t[1]);
        lemma_cross_term(1, u[0], t[0], u[0], t[0]);
        lemma_cross_term(3, u[1], t[1], u[4], t[4]);
        lemma_cross_term(3, u[2], t[2], u[3], t[3]);
        lemma_cross_term(3, u[3], t[3], u[2], t[2]);
        lemma_cross_term(3, u[4], t[4], u[1], t[1]);
    } else if k == 1 {
        assert(w[0] == 1 && w[1] == 1 && w[2] == 3 && w[3] == 3 && w[4] == 3);
        assert(pb[0] == b[1] && pn[0] == nu[1] && pt[0] == t[1] && pb[1] == b[0] && pn[1] == nu[0] && pt[1] == t[0] && pb[2] == b[4] && pn[2] == nu[4] && pt[2] == t[4] && pb[3] == b[3] && pn[3] == nu[3] && pt[3] == t[3] && pb[4] == b[2] && pn[4] == nu[2] && pt[4] == t[2]);
        lemma_cross_term(1, u[0], t[0], u[1], t[1]);
        lemma_cross_term(1, u[1], t[1], u[0], t[0]);
        lemma_cross_term(3, u[2], t[2], u[4], t[4]);
        lemma_cross_term(3, u[3], t[3], u[3], t[3]);
        lemma_cross_term(3, u[4], t[4], u[2], t[2]);
    } else if k == 2 {
        assert(w[0] == 1 && w[1] == 1 && w[2] == 1 && w[3] == 3 && w[4] == 3);
        assert(pb[0] == b[2] && pn[0] == nu[2] && pt[0] == t[2] && pb[1] == b[1] && pn[1] == nu[1] && pt[1] == t[1] && pb[2] == b[0] && pn[2] == nu[0] && pt[2] == t[0] && pb[3] == b[4] && pn[3] == nu[4] && pt[3] == t[4] && pb[4] == b[3] && pn[4] == nu[3] && pt[4] == t[3]);
        lemma_cross_term(1, u[0], t[0], u[2], t[2]);
        lemma_cross_term(1, u[1], t[1], u[1], t[1]);
        lemma_cross_term(1, u[2], t[2], u[0], t[0]);
        lemma_cross_term(3, u[3], t[3], u[4], t[4]);
        lemma_cross_term(3, u[4], t[4], u[3], t[3]);
    } else if k == 3 {
        assert(w[0] == 1 && w[1] == 1 && w[2] == 1 && w[3] == 1 && w[4] == 3);
        assert(pb[0] == b[3] && pn[0] == nu[3] && pt[0] == t[3] && pb[1] == b[2] && pn[1] == nu[2] && pt[1] == t[2] && pb[2] == b[1] && pn[2] == nu[1] && pt[2] == t[1] && pb[3] == b[0] && pn[3] == nu[0] && pt[3] == t[0] && pb[4] == b[4] && pn[4] == nu[4] && pt[4] == t[4]);
        lemma_cross_term(1, u[0], t[0], u[3], t[3]);
        lemma_cross_term(1, u[1], t[1], u[2], t[2]);
        lemma_cross_term(1, u[2], t[2], u[1], t[1]);
        lemma_cross_term(1, u[3], t[3], u[0], t[0]);
        lemma_cross_term(3, u[4], t[4], u[4], t[4]);
    } else {
        assert(w[0] == 1 && w[1] == 1 && w[2] == 1 && w[3] == 1 && w[4] == 1);
        assert(pb[0] == b[4] && pn[0] == nu[4] && pt[0] == t[4] && pb[1] == b[3] && pn[1] == nu[3] && pt[1] == t[3] && pb[2] == b[2] && pn[2] == nu[2] && pt[2] == t[2] && pb[3] == b[1] && pn[3] == nu[1] && pt[3] == t[1] && pb[4] == b[0] && pn[4] == nu[0] && pt[4] == t[0]);
        lemma_cross_term(1, u[0], t[0], u[4], t[4]);
        lemma_cross_term(1, u[1], t[1], u[3], t[3]);
        lemma_cross_term(1, u[2], t[2], u[2], t[2]);
        lemma_cross_term(1, u[3], t[3], u[1], t[1]);
        lemma_cross_term(1, u[4], t[4], u[0], t[0]);
    }
}

/// Zero times anything is zero.
pub proof fn lemma_mul_zero_left(x: Seq<int>)
    requires
        x.len() == 5,
    ensures
        fp5_mul(fp5_zero(), x) == fp5_zero(),
{
    reveal(fp5_mul);
    vstd::arithmetic::div_mod::lemma_small_mod(0, p() as nat);
    let z = fp5_zero();
    assert(z[0] == 0 && z[1] == 0 && z[2] == 0 && z[3] == 0 && z[4] == 0);
    assert(fp5_mul(z, x) =~= fp5_zero());
}

/// `(x0 y0 + 3 (x1 y1 + x2 y2 + x3 y3 + x4 y4)) mod p`, the shape of the constant term.
fn mul_coord(
    x0: u64, y0: u64, x1: u64, y1: u64, x2: u64, y2: u64, x3: u64, y3: u64, x4: u64, y4: u64,
) -> (r: u64)
    requires
        x0 < P, y0 < P, x1 < P, y1 < P, x2 < P, y2 < P, x3 < P, y3 < P, x4 < P, y4 < P,
    ensures
        r < P,
        r as int == (x0 as int * y0 as int + 3 * (x1 as int * y1 as int + x2 as int * y2 as int
            + x3 as int * y3 as int + x4 as int * y4 as int)) % p(),
{
    let t = gf_mac(gf_mac(gf_mac(gf_mul(x4, y4), x3, y3), x2, y2), x1, y1);
    let t3 = gf_mul(t, 3);
    let r = gf_mac(t3, x0, y0);
    proof {
        let (a1, a2, a3, a4) = (x1 as int * y1 as int, x2 as int * y2 as int, x3 as int * y3 as int, x4 as int * y4 as int);
        lemma_mod_add_left(a4, a3);
        lemma_mod_add_left(a4 + a3, a2);
        lemma_mod_add_left(a4 + a3 + a2, a1);
        lemma_mod_mul_left(a4 + a3 + a2 + a1, 3);
        lemma_mod_add_left((a4 + a3 + a2 + a1) * 3, x0 as int * y0 as int);
        assert((a4 + a3 + a2 + a1) * 3 + x0 as int * y0 as int == x0 as int * y0 as int + 3 * (a1 + a2 + a3 + a4));
    }
    r
}

/// `(x0 y0 + x1 y1 + 3 (x2 y2 + x3 y3 + x4 y4)) mod p`.
fn mul_coord2(
    x0: u64, y0: u64, x1: u64, y1: u64, x2: u64, y2: u64, x3: u64, y3: u64, x4: u64, y4: u64,
) -> (r: u64)
    requires
        x0 < P, y0 < P, x1 < P, y1 < P, x2 < P, y2 < P, x3 < P, y3 < P, x4 < P, y4 < P,
    ensures
        r < P,
        r as int == (x0 as int * y0 as int + x1 as int * y1 as int + 3 * (x2 as int * y2 as int
            + x3 as int * y3 as int + x4 as int * y4 as int)) % p(),
{
    let t = gf_mac(gf_mac(gf_mul(x4, y4), x3, y3), x2, y2);
    let t3 = gf_mul(t, 3);
    let r = gf_mac(gf_mac(t3, x1, y1), x0, y0);
    proof {
        let (a0, a1, a2, a3, a4) = (x0 as int * y0 as int, x1 as int * y1 as int, x2 as int * y2 as int, x3 as int * y3 as int, x4 as int * y4 as int);
        lemma_mod_add_left(a4, a3);
        lemma_mod_add_left(a4 + a3, a2);
        lemma_mod_mul_left(a4 + a3 + a2, 3);
        lemma_mod_add_left((a4 + a3 + a2) * 3, a1);
        lemma_mod_add_left((a4 + a3 + a2) * 3 + a1, a0);
        assert((a4 + a3 + a2) * 3 + a1 + a0 == a0 + a1 + 3 * (a2 + a3 + a4));
    }
    r
}

/// `(x0 y0 + x1 y1 + x2 y2 + 3 (x3 y3 + x4 y4)) mod p`.
fn mul_coord3(
    x0: u64, y0: u64, x1: u64, y1: u64, x2: u64, y2: u64, x3: u64, y3: u64, x4: u64, y4: u64,
) -> (r: u64)
    requires
        x0 < P, y0 < P, x1 < P, y1 < P, x2 < P, y2 < P, x3 < P, y3 < P, x4 < P, y4 < P,
    ensures
        r < P,
        r as int == (x0 as int * y0 as int + x1 as int * y1 as int + x2 as int * y2 as int + 3 * (
        x3 as int * y3 as int + x4 as int * y4 as int)) % p(),
{
    let t = gf_mac(gf_mul(x4, y4), x3, y3);
    let t3 = gf_mul(t, 3);
    let r = gf_mac(gf_mac(gf_mac(t3, x2, y2), x1, y1), x0, y0);
    proof {
        let (a0, a1, a2, a3, a4) = (x0 as int * y0 as int, x1 as int * y1 as int, x2 as int * y2 as int, x3 as int * y3 as int, x4 as int * y4 as int);
        lemma_mod_add_left(a4, a3);
        lemma_mod_mul_left(a4 + a3, 3);
        lemma_mod_add_left((a4 + a3) * 3, a2);
        lemma_mod_add_left((a4 + a3) * 3 + a2, a1);
        lemma_mod_add_left((a4 + a3) * 3 + a2 + a1, a0);
        assert((a4 + a3) * 3 + a2 + a1 + a0 == a0 + a1 + a2 + 3 * (a3 + a4));
    }
    r
}

/// `(x0 y0 + x1 y1 + x2 y2 + x3 y3 + 3 x4 y4) mod p`.
fn mul_coord4(
    x0: u64, y0: u64, x1: u64, y1: u64, x2: u64, y2: u64, x3: u64, y3: u64, x4: u64, y4: u64,
) -> (r: u64)
    requires
        x0 < P, y0 < P, x1 < P, y1 < P, x2 < P, y2 < P, x3 < P, y3 < P, x4 < P, y4 < P,
    ensures
        r < P,
        r as int == (x0 as int * y0 as int + x1 as int * y1 as int + x2 as int * y2 as int
            + x3 as int * y3 as int + 3 * (x4 as int * y4 as int)) % p(),
{
    let t = gf_mul(x4, y4);
    let t3 = gf_mul(t, 3);
    let r = gf_mac(gf_mac(gf_mac(gf_mac(t3, x3, y3), x2, y2), x1, y1), x0, y0);
    proof {
        let (a0, a1, a2, a3, a4) = (x0 as int * y0 as int, x1 as int * y1 as int, x2 as int * y2 as int, x3 as int * y3 as int, x4 as int * y4 as int);
        lemma_mod_mul_left(a4, 3);
        lemma_mod_add_left(a4 * 3, a3);
        lemma_mod_add_left(a4 * 3 + a3, a2);
        lemma_mod_add_left(a4 * 3 + a3 + a2, a1);
        lemma_mod_add_left(a4 * 3 + a3 + a2 + a1, a0);
        assert(a4 * 3 + a3 + a2 + a1 + a0 == a0 + a1 + a2 + a3 + 3 * a4);
    }
    r
}

} // verus!
