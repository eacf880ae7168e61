//! Arithmetic in the Goldilocks prime field, elements held as canonical `u64`.
use vstd::arithmetic::div_mod::{lemma_add_mod_noop, lemma_mod_twice, lemma_mul_mod_noop_general};
use vstd::prelude::*;

verus! {

/// The Goldilocks prime `2^64 - 2^32 + 1`.
pub const P: u64 = 0xffff_ffff_0000_0001;

/// The field modulus as a mathematical integer.
pub open spec fn p() -> int {
    P as int
}

/// A `u64` is a canonical field element when it lies in `[0, p)`.
pub open spec fn canonical(x: u64) -> bool {
    x < P
}

/// `(a + b) mod p`.
pub fn gf_add(a: u64, b: u64) -> (r: u64)
    requires
        a < P,
        b < P,
    ensures
        r < P,
        r as int == (a as int + b as int) % p(),
{
    let s: u128 = a as u128 + b as u128;
    (s % (P as u128)) as u64
}

/// `(a - b) mod p`, in `[0, p)`.
pub fn gf_sub(a: u64, b: u64) -> (r: u64)
    requires
        a < P,
        b < P,
    ensures
        r < P,
        r as int == (a as int - b as int) % p(),
{
    let s: u128 = a as u128 + (P - b) as u128;
    proof {
        assert((a as int - b as int) % p() == (a as int + (p() - b as int)) % p()) by {
            lemma_mod_add_multiple(a as int - b as int, 1);
        }
    }
    (s % (P as u128)) as u64
}

/// `-a mod p`.
pub fn gf_neg(a: u64) -> (r: u64)
    requires
        a < P,
    ensures
        r < P,
        r as int == (0 - a as int) % p(),
{
    gf_sub(0, a)
}

/// `(a * b) mod p`.
pub fn gf_mul(a: u64, b: u64) -> (r: u64)
    requires
        a < P,
        b < P,
    ensures
        r < P,
        r as int == (a as int * b as int) % p(),
{
    proof {
        lemma_product_bound(a, b);
    }
    let s: u128 = a as u128 * b as u128;
    (s % (P as u128)) as u64
}

/// `(acc + a * b) mod p`, one multiply-accumulate step.
pub fn gf_mac(acc: u64, a: u64, b: u64) -> (r: u64)
    requires
        acc < P,
        a < P,
        b < P,
    ensures
        r < P,
        r as int == (acc as int + a as int * b as int) % p(),
{
    proof {
        lemma_product_bound(a, b);
    }
    let s: u128 = acc as u128 + a as u128 * b as u128;
    (s % (P as u128)) as u64
}

/// The product of two canonical elements leaves room for one more in a `u128`.
pub proof fn lemma_product_bound(a: u64, b: u64)
    requires
        a < P,
        b < P,
    ensures
        a as int * b as int <= 0xffff_fffe_0000_0002_0000_0000_0000_0000,
{
    assert(a as int * b as int <= 0xffff_ffff_0000_0000 * 0xffff_ffff_0000_0000) by (nonlinear_arith)
        requires
            a <= 0xffff_ffff_0000_0000u64,
            b <= 0xffff_ffff_0000_0000u64,
    ;
}

/// Adding a multiple of `p` does not change a residue.
pub proof fn lemma_mod_add_multiple(x: int, k: int)
    ensures
        (x + k * p()) % p() == x % p(),
{
    vstd::arithmetic::div_mod::lemma_mod_multiples_vanish(k, x, p());
}

/// Reducing the left operand of a sum first does not change the residue.
pub proof fn lemma_mod_add_left(x: int, y: int)
    ensures
        ((x % p()) + y) % p() == (x + y) % p(),
{
    lemma_add_mod_noop(x, y, p());
    lemma_add_mod_noop(x % p(), y, p());
    lemma_mod_twice(x, p());
}

/// Reducing both operands of a difference first does not change the residue.
pub proof fn lemma_mod_sub_both(x: int, y: int)
    ensures
        ((x % p()) - (y % p())) % p() == (x - y) % p(),
{
    vstd::arithmetic::div_mod::lemma_sub_mod_noop(x, y, p());
}

/// Reducing the right operand of a sum first does not change the residue.
pub proof fn lemma_mod_add_right(x: int, y: int)
    ensures
        (x + (y % p())) % p() == (x + y) % p(),
{
    lemma_mod_add_left(y, x);
}

/// Reducing a factor first does not change the residue of a product.
pub proof fn lemma_mod_mul_left(x: int, y: int)
    ensures
        ((x % p()) * y) % p() == (x * y) % p(),
        (y * (x % p())) % p() == (y * x) % p(),
{
    lemma_mul_mod_noop_general(x, y, p());
    lemma_mul_mod_noop_general(y, x, p());
}

} // verus!
