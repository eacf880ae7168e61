//! Little-endian bit vectors read as natural numbers, and ripple-carry
//! addition and subtraction over them.
use vstd::arithmetic::power2::{lemma_pow2_pos, lemma_pow2_unfold, pow2};
use vstd::prelude::*;

verus! {

pub open spec fn b2n(b: bool) -> nat {
    if b {
        1
    } else {
        0
    }
}

/// `2^k` when the bit is set, else zero.
pub open spec fn weight(b: bool, k: nat) -> nat {
    if b {
        pow2(k)
    } else {
        0
    }
}

/// The number whose little-endian binary digits are `s`.
pub open spec fn bits_val(s: Seq<bool>) -> nat
    decreases s.len(),
{
    if s.len() == 0 {
        0
    } else {
        b2n(s[0]) + 2 * bits_val(s.subrange(1, s.len() as int))
    }
}

/// The value of the bits from index `i` upward.
pub open spec fn high_val(s: Seq<bool>, i: int) -> nat {
    bits_val(s.subrange(i, s.len() as int))
}

/// Peeling off the lowest of the high bits: `high(i) = s[i] + 2 high(i + 1)`.
pub proof fn lemma_high_val_step(s: Seq<bool>, i: int)
    requires
        0 <= i < s.len(),
    ensures
        high_val(s, i) == b2n(s[i]) + 2 * high_val(s, i + 1),
{
    let t = s.subrange(i, s.len() as int);
    assert(t.subrange(1, t.len() as int) =~= s.subrange(i + 1, s.len() as int));
}

/// All the bits of `s` make `high_val(s, 0)`; none make zero.
pub proof fn lemma_high_val_ends(s: Seq<bool>)
    ensures
        high_val(s, 0) == bits_val(s),
        high_val(s, s.len() as int) == 0,
{
    assert(s.subrange(0, s.len() as int) =~= s);
}

/// Appending a top bit adds it at weight `2^len`.
pub proof fn lemma_bits_val_push(s: Seq<bool>, b: bool)
    ensures
        bits_val(s.push(b)) == bits_val(s) + weight(b, s.len()),
    decreases s.len(),
{
    let t = s.push(b);
    if s.len() == 0 {
        assert(t.subrange(1, t.len() as int) =~= Seq::<bool>::empty());
        assert(bits_val(Seq::<bool>::empty()) == 0);
        assert(pow2(0) == 1) by {
            vstd::arithmetic::power2::lemma_pow2(0);
            vstd::arithmetic::power::lemma_pow0(2);
        }
        assert(t[0] == b);
        assert(bits_val(t) == b2n(b));
    } else {
        let rest = s.subrange(1, s.len() as int);
        assert(t.subrange(1, t.len() as int) =~= rest.push(b));
        lemma_bits_val_push(rest, b);
        lemma_pow2_unfold(s.len());
        assert(t[0] == s[0]);
        assert(bits_val(t) == b2n(s[0]) + 2 * bits_val(rest.push(b)));
        assert(weight(b, s.len()) == 2 * weight(b, rest.len()));
    }
}

/// A number of `n` bits is below `2^n`.
pub proof fn lemma_bits_val_bound(s: Seq<bool>)
    ensures
        bits_val(s) < pow2(s.len()),
    decreases s.len(),
{
    if s.len() == 0 {
        vstd::arithmetic::power2::lemma_pow2(0);
        vstd::arithmetic::power::lemma_pow0(2);
    } else {
        lemma_bits_val_bound(s.subrange(1, s.len() as int));
        lemma_pow2_unfold(s.len());
    }
}

/// `s[..i+1]` is `s[..i]` with `s[i]` on top.
pub proof fn lemma_prefix_step(s: Seq<bool>, i: int)
    requires
        0 <= i < s.len(),
    ensures
        bits_val(s.subrange(0, i + 1)) == bits_val(s.subrange(0, i)) + weight(s[i], i as nat),
{
    assert(s.subrange(0, i + 1) =~= s.subrange(0, i).push(s[i]));
    lemma_bits_val_push(s.subrange(0, i), s[i]);
}

/// Adds two bit vectors of one length: the sum bits and the carry out of the top.
pub fn add_bits(a: &Vec<bool>, b: &Vec<bool>) -> (r: (Vec<bool>, bool))
    requires
        a.len() == b.len(),
    ensures
        r.0.len() == a.len(),
        bits_val(r.0@) + weight(r.1, a.len() as nat) == bits_val(a@) + bits_val(b@),
{
    let n = a.len();
    let mut out: Vec<bool> = Vec::with_capacity(n);
    let mut carry = false;
    let mut i: usize = 0;
    proof {
        assert(a@.subrange(0, 0) =~= Seq::<bool>::empty());
        assert(b@.subrange(0, 0) =~= Seq::<bool>::empty());
        assert(out@ =~= Seq::<bool>::empty());
        vstd::arithmetic::power2::lemma_pow2(0);
        vstd::arithmetic::power::lemma_pow0(2);
    }
    while i < n
        invariant
            i <= n,
            n == a.len(),
            n == b.len(),
            out.len() == i,
            bits_val(out@) + weight(carry, i as nat) == bits_val(a@.subrange(0, i as int))
                + bits_val(b@.subrange(0, i as int)),
        decreases n - i,
    {
        let x = a[i];
        let y = b[i];
        let s: u8 = (x as u8) + (y as u8) + (carry as u8);
        let bit = s % 2 == 1;
        proof {
            lemma_prefix_step(a@, i as int);
            lemma_prefix_step(b@, i as int);
            lemma_bits_val_push(out@, bit);
            lemma_pow2_unfold((i + 1) as nat);
        }
        out.push(bit);
        carry = s >= 2;
        i = i + 1;
    }
    proof {
        assert(a@.subrange(0, n as int) =~= a@);
        assert(b@.subrange(0, n as int) =~= b@);
    }
    (out, carry)
}

/// Subtracts `b` from `a`, both of one length: the difference bits modulo
/// `2^len` and the borrow out of the top.
pub fn sub_bits(a: &Vec<bool>, b: &Vec<bool>) -> (r: (Vec<bool>, bool))
    requires
        a.len() == b.len(),
    ensures
        r.0.len() == a.len(),
        bits_val(r.0@) - weight(r.1, a.len() as nat) == bits_val(a@) - bits_val(b@),
{
    let n = a.len();
    let mut out: Vec<bool> = Vec::with_capacity(n);
    let mut borrow = false;
    let mut i: usize = 0;
    proof {
        assert(a@.subrange(0, 0) =~= Seq::<bool>::empty());
        assert(b@.subrange(0, 0) =~= Seq::<bool>::empty());
        assert(out@ =~= Seq::<bool>::empty());
        vstd::arithmetic::power2::lemma_pow2(0);
        vstd::arithmetic::power::lemma_pow0(2);
    }
    while i < n
        invariant
            i <= n,
            n == a.len(),
            n == b.len(),
            out.len() == i,
            bits_val(out@) - weight(borrow, i as nat) == bits_val(a@.subrange(0, i as int))
                - bits_val(b@.subrange(0, i as int)),
        decreases n - i,
    {
        let x = a[i];
        let y = b[i];
        let d: i8 = (x as i8) - (y as i8) - (borrow as i8);
        let bit = d == 1 || d == -1;
        proof {
            lemma_prefix_step(a@, i as int);
            lemma_prefix_step(b@, i as int);
            lemma_bits_val_push(out@, bit);
            lemma_pow2_unfold((i + 1) as nat);
        }
        out.push(bit);
        borrow = d < 0;
        i = i + 1;
    }
    proof {
        assert(a@.subrange(0, n as int) =~= a@);
        assert(b@.subrange(0, n as int) =~= b@);
    }
    (out, borrow)
}

/// Pushes the `n` low bits of `v`, least significant first.
pub fn u64_to_bits_le(v: u64, out: &mut Vec<bool>, n: usize)
    requires
        n <= 64,
    ensures
        final(out)@ == old(out)@ + Seq::new(n as nat, |j: int| (v >> (j as u64)) & 1 == 1),
{
    let ghost start = out@;
    let mut i: usize = 0;
    while i < n
        invariant
            i <= n,
            n <= 64,
            out@ == start + Seq::new(i as nat, |j: int| (v >> (j as u64)) & 1 == 1),
        decreases n - i,
    {
        let bit = (v >> (i as u64)) & 1 == 1;
        out.push(bit);
        i = i + 1;
        assert(out@ =~= start + Seq::new(i as nat, |j: int| (v >> (j as u64)) & 1 == 1));
    }
}

} // verus!
