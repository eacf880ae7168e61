use zkyc::curve::Point;
use zkyc::field::P;
use zkyc::gfp5::GFp5;
use zkyc::scalar::{is_canonical, order_bits_vec, Scalar, NB_BITS};

fn e(c: [u64; 5]) -> GFp5 {
    GFp5::from_u64_reduce(c)
}

fn mulmod(a: u64, b: u64) -> u64 {
    ((a as u128 * b as u128) % P as u128) as u64
}

fn addmod(a: u64, b: u64) -> u64 {
    ((a as u128 + b as u128) % P as u128) as u64
}

/// Independent schoolbook product with folding of w^5 = 3.
fn reference_mul(a: [u64; 5], b: [u64; 5]) -> [u64; 5] {
    let mut c = [0u64; 5];
    for i in 0..5 {
        for j in 0..5 {
            let t = mulmod(a[i], b[j]);
            if i + j >= 5 {
                c[i + j - 5] = addmod(c[i + j - 5], mulmod(3, t));
            } else {
                c[i + j] = addmod(c[i + j], t);
            }
        }
    }
    c
}

fn sample(seed: u64) -> GFp5 {
    let mut s = seed;
    let mut c = [0u64; 5];
    for x in c.iter_mut() {
        s = s.wrapping_mul(6364136223846793005).wrapping_add(1442695040888963407);
        *x = s % P;
    }
    GFp5(c)
}

#[test]
fn gfp5_mul_matches_schoolbook_reference() {
    for k in 0..20 {
        let a = sample(k);
        let b = sample(k + 100);
        assert_eq!(a.mul(&b).0, reference_mul(a.0, b.0));
    }
    let a = e([11, 13, 17, 19, 23]);
    let b = e([29, 31, 1, 2, 3]);
    // c0 = 11*29 + 3*(13*3 + 17*2 + 19*1 + 23*31)
    assert_eq!(a.mul(&b).0[0], 11 * 29 + 3 * (13 * 3 + 17 * 2 + 19 + 23 * 31));
}

#[test]
fn gfp5_is_a_commutative_ring_on_samples() {
    for k in 0..10 {
        let (a, b, c) = (sample(k), sample(k + 7), sample(k + 13));
        assert!(a.mul(&b).equals(&b.mul(&a)));
        assert!(a.mul(&b).mul(&c).equals(&a.mul(&b.mul(&c))));
        assert!(a.mul(&b.add(&c)).equals(&a.mul(&b).add(&a.mul(&c))));
        assert!(a.add(&b).add(&c).equals(&a.add(&b.add(&c))));
        assert!(a.mul(&GFp5::one()).equals(&a));
        assert!(a.add(&a.neg()).is_zero());
        assert!(a.sub(&b).add(&b).equals(&a));
        assert!(a.double().equals(&a.add(&a)));
    }
}

#[test]
fn gfp5_small_multipliers() {
    let a = e([101, 102, 103, 104, 105]);
    assert_eq!(a.mul_small(10).0, [1010, 1020, 1030, 1040, 1050]);
    assert_eq!(a.mul_small_k1(10).0, [3150, 1010, 1020, 1030, 1040]);
    assert_eq!(a.mul_by_b().0, [3 * 263 * 105, 263 * 101, 263 * 102, 263 * 103, 263 * 104]);
    let w = e([0, 10, 0, 0, 0]);
    assert!(a.mul_small_k1(10).equals(&a.mul(&w)));
    assert!(a.mul_by_a().equals(&a.double()));
    assert_eq!(e([P, P + 1, 2, 3, 4]).0, [0, 1, 2, 3, 4]);
    assert_eq!(e([0, 0, 0, 0, 0]).neg().0, [0; 5]);
    assert_eq!(e([1, 0, 0, 0, 0]).neg().0, [P - 1, 0, 0, 0, 0]);
}

fn scalar(v: u64) -> Scalar {
    Scalar::from_u64(v)
}

fn g() -> Point {
    Point::generator()
}

#[test]
fn generator_is_on_curve_and_tampering_is_detected() {
    let gen = g();
    assert!(gen.is_on_curve());
    assert!(!gen.is_zero());
    let mut bad = gen;
    bad.x.0[0] = (bad.x.0[0] + 1) % P;
    assert!(!bad.is_on_curve());
    let mut zero_u = Point::zero();
    zero_u.x = e([123, 0, 0, 0, 0]);
    zero_u.z = e([456, 0, 0, 0, 0]);
    zero_u.t = e([789, 0, 0, 0, 0]);
    assert!(zero_u.is_on_curve());
}

#[test]
fn group_identity_and_inverse() {
    let o = Point::zero();
    let p = Point::mulgen(&scalar(12345));
    assert!(p.is_on_curve());
    assert!(p.add(&o).equals(&p));
    assert!(o.add(&p).equals(&p));
    assert!(p.add(&p.neg()).is_zero());
    assert!(p.add(&p.neg()).equals(&o));
    assert!(o.add(&o).equals(&o));
    assert!(o.double().equals(&o));
    assert!(o.is_zero());
    assert!(!p.equals(&o));
}

#[test]
fn doubling_agrees_with_addition() {
    let mut p = g();
    for _ in 0..5 {
        assert!(p.double().equals(&p.add(&p)));
        assert!(p.double().is_on_curve());
        p = p.add(&g());
    }
}

#[test]
fn scalar_mul_small_cases() {
    let p = Point::mulgen(&scalar(99));
    assert!(p.scalar_mul(&scalar(0)).is_zero());
    assert!(p.scalar_mul(&scalar(1)).equals(&p));
    assert!(p.scalar_mul(&scalar(2)).equals(&p.double()));
    let mut q = p;
    for i in 0..10u32 {
        assert!(p.scalar_mul(&scalar(1u64 << i)).equals(&q));
        q = q.double();
    }
}

#[test]
fn scalar_mul_distributes_over_small_sums() {
    let p = g();
    for (a, b) in [(15u64, 12u64), (3, 5), (0, 7), (1, 1)] {
        let lhs = p.scalar_mul(&scalar(a + b));
        let rhs = p.scalar_mul(&scalar(a)).add(&p.scalar_mul(&scalar(b)));
        assert!(lhs.equals(&rhs));
    }
}

#[test]
fn group_order_annihilates_generator() {
    let n = order_bits_vec();
    assert!(g().scalar_mul_bits(&n).is_zero());
}

#[test]
fn shamir_three_five_on_generator() {
    let s = scalar(3);
    let e5 = scalar(5);
    let lhs = Point::double_scalar_mul_shamir(&s.bits, &e5.bits, &g());
    let rhs = Point::mulgen(&s).add(&g().scalar_mul(&e5));
    assert!(lhs.equals(&rhs));
    assert!(lhs.equals(&Point::mulgen(&scalar(8))));
}

#[test]
fn shamir_with_zero_e_is_mulgen() {
    let p = Point::mulgen(&scalar(4242));
    for s in [0u64, 1, 2, 77, 123456789] {
        let sc = scalar(s);
        let r = Point::double_scalar_mul_shamir(&sc.bits, &scalar(0).bits, &p);
        assert!(r.equals(&Point::mulgen(&sc)));
    }
}

#[test]
fn shamir_matches_two_multiplications_on_samples() {
    let p = Point::mulgen(&scalar(31337));
    for (s, e) in [(11u64, 14u64), (0, 16), (17, 0), (u64::MAX, 31), (1 << 40, 1 << 50)] {
        let (s, e) = (scalar(s), scalar(e));
        let lhs = Point::double_scalar_mul_shamir(&s.bits, &e.bits, &p);
        let rhs = Point::mulgen(&s).add(&p.scalar_mul(&e));
        assert!(lhs.equals(&rhs));
    }
}

#[test]
fn point_equality_is_projective() {
    let p = Point::mulgen(&scalar(5));
    let k = e([11, 0, 0, 0, 0]);
    let q = Point { x: p.x.mul(&k), z: p.z.mul(&k), u: p.u.mul(&k), t: p.t.mul(&k) };
    assert!(p.equals(&q));
    let r = Point { x: p.x.mul(&k), z: p.z, u: p.u, t: p.t };
    assert!(!p.equals(&r));
}

#[test]
fn range_check_accepts_below_order() {
    let zero = vec![false; NB_BITS];
    assert!(is_canonical(&zero));
    let mut one = zero.clone();
    one[0] = true;
    assert!(is_canonical(&one));
    let mut n_minus_1 = order_bits_vec();
    assert!(n_minus_1[0]);
    n_minus_1[0] = false;
    assert!(is_canonical(&n_minus_1));
    assert!(Scalar::from_bits_le(&n_minus_1).is_some());
}

#[test]
fn range_check_rejects_order_and_above() {
    let n = order_bits_vec();
    assert!(!is_canonical(&n));
    assert!(!n[1]);
    let mut n_plus_2 = n.clone();
    n_plus_2[1] = true;
    assert!(!is_canonical(&n_plus_2));
    let all_ones = vec![true; NB_BITS];
    assert!(!is_canonical(&all_ones));
    let highest_zero = (0..NB_BITS).rev().find(|&i| !n[i]).unwrap();
    let mut above = n.clone();
    above[highest_zero] = true;
    assert!(!is_canonical(&above));
    let mut below = vec![false; NB_BITS];
    below[NB_BITS - 1] = true;
    below[NB_BITS - 2] = true;
    assert!(is_canonical(&below));
    assert!(Scalar::from_bits_le(&n).is_none());
    assert!(Scalar::from_bits_le(&vec![false; NB_BITS - 1]).is_none());
}

#[test]
fn scalar_arithmetic_modulo_order() {
    let a = scalar(1_000_000_007);
    let b = scalar(998_244_353);
    assert!(a.add(&b).equals(&scalar(1_000_000_007 + 998_244_353)));
    let prod = a.mul(&b);
    let expected = 1_000_000_007u128 * 998_244_353u128;
    let mut bits = vec![false; NB_BITS];
    for (i, bit) in bits.iter_mut().enumerate().take(128) {
        *bit = (expected >> i) & 1 == 1;
    }
    assert_eq!(prod.to_bits_le(), bits);
    let mut n_minus_1 = order_bits_vec();
    n_minus_1[0] = false;
    let m = Scalar::from_bits_le(&n_minus_1).unwrap();
    assert!(m.add(&scalar(1)).is_zero());
    assert!(m.mul(&m).equals(&scalar(1)));
    assert!(scalar(0).is_zero());
    assert!(!scalar(1).is_zero());
}
