//! Scalars: little-endian bit vectors of fixed length, read as integers
//! modulo the order of the curve's group.
use crate::bits::{
    add_bits, b2n, bits_val, high_val, lemma_bits_val_bound, lemma_high_val_ends,
    lemma_high_val_step, sub_bits, u64_to_bits_le, weight,
};
use vstd::arithmetic::div_mod::{
    lemma_add_mod_noop, lemma_mod_multiples_vanish, lemma_mod_twice, lemma_small_mod,
};
use vstd::arithmetic::power2::pow2;
use vstd::prelude::*;

verus! {

/// Bit length of the group order, and so of every scalar.
pub const NB_BITS: usize = 319;

/// The group order, least significant 64-bit limb first.
pub const ORDER_LIMB_0: u64 = 0xE80F_D996_948B_FFE1;
pub const ORDER_LIMB_1: u64 = 0xE888_5C39_D724_A09C;
pub const ORDER_LIMB_2: u64 = 0x7FFF_FFE6_CFB8_0639;
pub const ORDER_LIMB_3: u64 = 0x7FFF_FFF1_0000_0016;
pub const ORDER_LIMB_4: u64 = 0x7FFF_FFFD_8000_0007;

pub open spec fn order_limb(k: int) -> u64 {
    if k == 0 {
        ORDER_LIMB_0
    } else if k == 1 {
        ORDER_LIMB_1
    } else if k == 2 {
        ORDER_LIMB_2
    } else if k == 3 {
        ORDER_LIMB_3
    } else {
        ORDER_LIMB_4
    }
}

/// Bit `i` of the group order.
pub open spec fn order_bit(i: int) -> bool {
    (order_limb(i / 64) >> ((i % 64) as u64)) & 1 == 1
}

/// The group order's bit pattern.
pub open spec fn order_bits() -> Seq<bool> {
    Seq::new(NB_BITS as nat, |i: int| order_bit(i))
}

/// The group order.
pub open spec fn order() -> nat {
    bits_val(order_bits())
}

/// The integer that a bit vector denotes.
pub open spec fn value_of(bits: Seq<bool>) -> nat {
    bits_val(bits)
}

/// The group order is odd, hence positive, and below `2^NB_BITS`.
pub proof fn lemma_order_bounds()
    ensures
        0 < order() < pow2(NB_BITS as nat),
{
    lemma_bits_val_bound(order_bits());
    assert((0xE80F_D996_948B_FFE1u64 >> 0u64) & 1u64 == 1u64) by (bit_vector);
    assert(order_bits()[0]);
}

/// Bit `i` of the group order, computed from its limbs.
pub fn order_bit_at(i: usize) -> (r: bool)
    requires
        i < NB_BITS,
    ensures
        r == order_bit(i as int),
{
    let k = i / 64;
    let limb = if k == 0 {
        ORDER_LIMB_0
    } else if k == 1 {
        ORDER_LIMB_1
    } else if k == 2 {
        ORDER_LIMB_2
    } else if k == 3 {
        ORDER_LIMB_3
    } else {
        ORDER_LIMB_4
    };
    (limb >> ((i % 64) as u64)) & 1 == 1
}

/// The group order's bit pattern as a vector.
pub fn order_bits_vec() -> (r: Vec<bool>)
    ensures
        r@ == order_bits(),
{
    let mut r: Vec<bool> = Vec::with_capacity(NB_BITS);
    let mut i: usize = 0;
    while i < NB_BITS
        invariant
            i <= NB_BITS,
            r@ == order_bits().subrange(0, i as int),
        decreases NB_BITS - i,
    {
        let b = order_bit_at(i);
        r.push(b);
        i = i + 1;
        assert(r@ =~= order_bits().subrange(0, i as int));
    }
    assert(r@ =~= order_bits());
    r
}

/// Compares two bit vectors of one length by walking from the top bit down,
/// keeping "strictly below so far" and "equal so far".
pub fn compare_bits(a: &Vec<bool>, b: &Vec<bool>) -> (r: (bool, bool))
    requires
        a.len() == b.len(),
    ensures
        r.0 == (bits_val(a@) < bits_val(b@)),
        r.1 == (bits_val(a@) == bits_val(b@)),
{
    let n = a.len();
    let mut lt = false;
    let mut eq = true;
    let mut i: usize = n;
    proof {
        lemma_high_val_ends(a@);
        lemma_high_val_ends(b@);
    }
    while i > 0
        invariant
            i <= n,
            n == a.len(),
            n == b.len(),
            lt == (high_val(a@, i as int) < high_val(b@, i as int)),
            eq == (high_val(a@, i as int) == high_val(b@, i as int)),
        decreases i,
    {
        i = i - 1;
        let x = a[i];
        let y = b[i];
        proof {
            lemma_high_val_step(a@, i as int);
            lemma_high_val_step(b@, i as int);
        }
        lt = lt || (eq && !x && y);
        eq = eq && (x == y);
    }
    proof {
        lemma_high_val_ends(a@);
        lemma_high_val_ends(b@);
    }
    (lt, eq)
}

/// The range check: true iff the bits denote an integer below the group order.
pub fn is_canonical(bits: &Vec<bool>) -> (r: bool)
    requires
        bits.len() == NB_BITS,
    ensures
        r == (value_of(bits@) < order()),
{
    let n = order_bits_vec();
    let (lt, _) = compare_bits(bits, &n);
    lt
}

proof fn lemma_mod_add_left_m(x: int, y: int, m: int)
    requires
        m > 0,
    ensures
        ((x % m) + y) % m == (x + y) % m,
{
    lemma_add_mod_noop(x, y, m);
    lemma_add_mod_noop(x % m, y, m);
    lemma_mod_twice(x, m);
}

/// Reducing the right operand of a sum first does not change the residue.
pub proof fn lemma_mod_add_right_m(x: int, y: int, m: int)
    requires
        m > 0,
    ensures
        (x + (y % m)) % m == (x + y) % m,
{
    lemma_mod_add_left_m(y, x, m);
}

/// A scalar: `NB_BITS` little-endian bits denoting an integer below the group order.
#[derive(Clone, Debug)]
pub struct Scalar {
    pub bits: Vec<bool>,
}

impl Scalar {
    pub open spec fn wf(&self) -> bool {
        self.bits.len() == NB_BITS && value_of(self.bits@) < order()
    }

    pub open spec fn value(&self) -> nat {
        value_of(self.bits@)
    }

    pub fn zero() -> (r: Scalar)
        ensures
            r.wf(),
            r.value() == 0,
    {
        let mut bits: Vec<bool> = Vec::with_capacity(NB_BITS);
        let mut i: usize = 0;
        while i < NB_BITS
            invariant
                i <= NB_BITS,
                bits@ == Seq::new(i as nat, |j: int| false),
            decreases NB_BITS - i,
        {
            bits.push(false);
            i = i + 1;
            assert(bits@ =~= Seq::new(i as nat, |j: int| false));
        }
        proof {
            lemma_high_zero(bits@, 0);
            lemma_high_val_ends(bits@);
            lemma_below_order_when_top_clear(bits@);
        }
        Scalar { bits }
    }

    /// The scalar whose low 64 bits are those of `v`, all others clear.
    pub fn from_u64(v: u64) -> (r: Scalar)
        ensures
            r.wf(),
            r.bits@ == Seq::new(NB_BITS as nat, |j: int| j < 64 && (v >> (j as u64)) & 1 == 1),
    {
        let mut bits: Vec<bool> = Vec::with_capacity(NB_BITS);
        u64_to_bits_le(v, &mut bits, 64);
        let mut i: usize = 64;
        while i < NB_BITS
            invariant
                64 <= i <= NB_BITS,
                bits@ == Seq::new(i as nat, |j: int| j < 64 && (v >> (j as u64)) & 1 == 1),
            decreases NB_BITS - i,
        {
            bits.push(false);
            i = i + 1;
            assert(bits@ =~= Seq::new(i as nat, |j: int| j < 64 && (v >> (j as u64)) & 1 == 1));
        }
        proof {
            assert(bits@ =~= Seq::new(NB_BITS as nat, |j: int| j < 64 && (v >> (j as u64)) & 1 == 1));
            lemma_below_order_when_top_clear(bits@);
        }
        Scalar { bits }
    }

    /// Decodes a little-endian bit vector; `None` unless it has `NB_BITS`
    /// bits denoting an integer below the group order.
    pub fn from_bits_le(bits: &Vec<bool>) -> (r: Option<Scalar>)
        ensures
            r.is_some() == (bits.len() == NB_BITS && value_of(bits@) < order()),
            r.is_some() ==> r.unwrap().wf() && r.unwrap().bits@ == bits@,
    {
        if bits.len() != NB_BITS {
            return None;
        }
        if is_canonical(bits) {
            Some(Scalar { bits: bits.clone() })
        } else {
            None
        }
    }

    /// The little-endian bits.
    pub fn to_bits_le(&self) -> (r: Vec<bool>)
        ensures
            r@ == self.bits@,
    {
        self.bits.clone()
    }

    /// `(a + b) mod order`.
    pub fn add(&self, b: &Scalar) -> (r: Scalar)
        requires
            self.wf(),
            b.wf(),
        ensures
            r.wf(),
            r.value() == (self.value() + b.value()) % order(),
    {
        let (s, carry) = add_bits(&self.bits, &b.bits);
        let n = order_bits_vec();
        let (d, borrow) = sub_bits(&s, &n);
        proof {
            lemma_order_bounds();
            lemma_bits_val_bound(d@);
            lemma_bits_val_bound(s@);
            let x = self.value() + b.value();
            let m = order() as int;
            if carry || !borrow {
                assert(bits_val(d@) == x - m);
                lemma_small_mod((x - m) as nat, m as nat);
                lemma_mod_multiples_vanish(1, x - m, m);
            } else {
                lemma_small_mod(x as nat, m as nat);
            }
        }
        if carry || !borrow {
            Scalar { bits: d }
        } else {
            Scalar { bits: s }
        }
    }

    /// `(a * e) mod order`, where the bits of `e` may denote any integer
    /// (a challenge need not lie below the order): double-and-add from the top bit.
    pub fn mul_bits(&self, e: &Vec<bool>) -> (r: Scalar)
        requires
            self.wf(),
        ensures
            r.wf(),
            r.value() == (self.value() * value_of(e@)) % order(),
    {
        let mut acc = Scalar::zero();
        let mut i: usize = e.len();
        let ghost m = order() as int;
        proof {
            lemma_order_bounds();
            lemma_high_val_ends(e@);
            assert(self.value() * 0 == 0);
            lemma_small_mod(0, m as nat);
        }
        while i > 0
            invariant
                i <= e.len(),
                self.wf(),
                acc.wf(),
                m == order(),
                m > 0,
                acc.value() as int == (self.value() * high_val(e@, i as int)) as int % m,
            decreases i,
        {
            i = i - 1;
            let ghost h = high_val(e@, (i + 1) as int);
            let ghost a = self.value() as int;
            proof {
                lemma_high_val_step(e@, i as int);
            }
            let dbl = acc.add(&acc);
            proof {
                lemma_add_mod_noop(a * h, a * h, m);
                assert(dbl.value() == (2 * (a * h)) % m);
            }
            if e[i] {
                let next = dbl.add(self);
                proof {
                    lemma_mod_add_left_m(2 * (a * h), a, m);
                    assert(2 * (a * h) + a == a * (1 + 2 * h)) by (nonlinear_arith);
                }
                acc = next;
            } else {
                proof {
                    assert(2 * (a * h) == a * (2 * h)) by (nonlinear_arith);
                }
                acc = dbl;
            }
        }
        proof {
            lemma_high_val_ends(e@);
        }
        acc
    }

    /// `(a * b) mod order`.
    pub fn mul(&self, b: &Scalar) -> (r: Scalar)
        requires
            self.wf(),
            b.wf(),
        ensures
            r.wf(),
            r.value() == (self.value() * b.value()) % order(),
    {
        self.mul_bits(&b.bits)
    }

    /// True iff the scalar is zero.
    pub fn is_zero(&self) -> (r: bool)
        requires
            self.wf(),
        ensures
            r == (self.value() == 0),
    {
        let z = Scalar::zero();
        let (_, eq) = compare_bits(&self.bits, &z.bits);
        eq
    }

    /// True iff both scalars denote the same integer.
    pub fn equals(&self, b: &Scalar) -> (r: bool)
        requires
            self.wf(),
            b.wf(),
        ensures
            r == (self.value() == b.value()),
    {
        let (_, eq) = compare_bits(&self.bits, &b.bits);
        eq
    }
}

/// Clear bits from `k` upward make a zero high part.
proof fn lemma_high_zero(s: Seq<bool>, k: int)
    requires
        0 <= k <= s.len(),
        forall|j: int| k <= j < s.len() ==> !#[trigger] s[j],
    ensures
        high_val(s, k) == 0,
    decreases s.len() - k,
{
    if k == s.len() {
        lemma_high_val_ends(s);
    } else {
        lemma_high_val_step(s, k);
        lemma_high_zero(s, k + 1);
    }
}

/// A set bit at or above `k` makes the high part positive.
proof fn lemma_high_pos(s: Seq<bool>, k: int, j: int)
    requires
        0 <= k <= j < s.len(),
        s[j],
    ensures
        high_val(s, k) > 0,
    decreases j - k,
{
    lemma_high_val_step(s, k);
    if k < j {
        lemma_high_pos(s, k + 1, j);
    }
}

/// When the high parts compare strictly, the whole numbers compare the same way.
proof fn lemma_high_lt(a: Seq<bool>, b: Seq<bool>, k: int)
    requires
        a.len() == b.len(),
        0 <= k <= a.len(),
        high_val(a, k) < high_val(b, k),
    ensures
        bits_val(a) < bits_val(b),
    decreases k,
{
    if k == 0 {
        lemma_high_val_ends(a);
        lemma_high_val_ends(b);
    } else {
        lemma_high_val_step(a, k - 1);
        lemma_high_val_step(b, k - 1);
        lemma_high_lt(a, b, k - 1);
    }
}

/// A vector of `NB_BITS` bits whose bits from 64 upward are clear lies below the order.
proof fn lemma_below_order_when_top_clear(s: Seq<bool>)
    requires
        s.len() == NB_BITS,
        forall|j: int| 64 <= j < NB_BITS ==> !#[trigger] s[j],
    ensures
        bits_val(s) < order(),
{
    lemma_high_zero(s, 64);
    assert((0x7FFF_FFFD_8000_0007u64 >> 62u64) & 1u64 == 1u64) by (bit_vector);
    assert(order_bits()[318]);
    lemma_high_pos(order_bits(), 64, 318);
    lemma_high_lt(s, order_bits(), 64);
}

} // verus!
