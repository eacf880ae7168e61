use rand::rngs::StdRng;
use rand::SeedableRng;
use zkyc::circuit::{Builder, WitnessError};
use zkyc::curve::Point;
use zkyc::curve_gadget::PointTarget;
use zkyc::encoding::{FrenchPassportNumber, Public, PublicInputs, String as Words, REFERENCE_CUTOFF18_DAYS};
use zkyc::field::P;
use zkyc::gfp5::GFp5;
use zkyc::gfp5_gadget::GFp5Target;
use zkyc::keys::{PublicKey, SecretKey};
use zkyc::policy::{circuit, point_wires};
use zkyc::scalar::{order_bits_vec, Scalar, NB_BITS};
use zkyc::signature::{self, Signature};
use zkyc::transcript::{hash, poseidon_xof_bits_native, SIG_TAG};

fn e(c: [u64; 5]) -> GFp5 {
    GFp5::from_u64_reduce(c)
}

fn inputs(b: &Builder, assigned: &[(usize, u64)]) -> Vec<u64> {
    let mut v = vec![0u64; b.gates.len()];
    for &(w, x) in assigned {
        v[w] = x;
    }
    v
}

fn assign5(t: GFp5Target, x: GFp5) -> Vec<(usize, u64)> {
    (0..5).map(|i| (t.0[i], x.0[i])).collect()
}

fn assign_point(t: &PointTarget, p: &Point) -> Vec<(usize, u64)> {
    point_wires(t).into_iter().zip(p.to_words()).collect()
}

fn read5(vals: &[u64], t: GFp5Target) -> [u64; 5] {
    [vals[t.0[0]], vals[t.0[1]], vals[t.0[2]], vals[t.0[3]], vals[t.0[4]]]
}

fn read_point(vals: &[u64], t: &PointTarget) -> Point {
    Point { x: GFp5(read5(vals, t.x)), z: GFp5(read5(vals, t.z)), u: GFp5(read5(vals, t.u)), t: GFp5(read5(vals, t.t)) }
}

#[test]
fn test_zero_one_constant() {
    let mut b = Builder::new();
    let z = b.zero_gfp5();
    let o = b.one_gfp5();
    let c = b.constant_gfp5(e([10, 11, 12, 13, 15]));
    let vals = b.evaluate(&inputs(&b, &[]));
    assert_eq!(read5(&vals, z), [0; 5]);
    assert_eq!(read5(&vals, o), [1, 0, 0, 0, 0]);
    assert_eq!(read5(&vals, c), [10, 11, 12, 13, 15]);
}

#[test]
fn test_add_sub_neg_double() {
    let (x, y) = (e([10, 20, 30, 40, 50]), e([15, 15, 15, 15, P - 1]));
    let mut b = Builder::new();
    let (a, c) = (b.add_virtual_gfp5_target(), b.add_virtual_gfp5_target());
    let s = b.add_gfp5(a, c);
    let d = b.sub_gfp5(a, c);
    let n = b.neg_gfp5(a);
    let t = b.double_gfp5(a);
    let mut asg = assign5(a, x);
    asg.extend(assign5(c, y));
    let vals = b.evaluate(&inputs(&b, &asg));
    assert_eq!(read5(&vals, s), x.add(&y).0);
    assert_eq!(read5(&vals, d), x.sub(&y).0);
    assert_eq!(read5(&vals, n), x.neg().0);
    assert_eq!(read5(&vals, t), x.double().0);
}

#[test]
fn test_mul_matches_native() {
    let (x, y) = (e([11, 13, 17, 19, 23]), e([29, 31, 37, 41, P - 2]));
    let mut b = Builder::new();
    let (a, c) = (b.add_virtual_gfp5_target(), b.add_virtual_gfp5_target());
    let m = b.mul_gfp5(a, c);
    let mut asg = assign5(a, x);
    asg.extend(assign5(c, y));
    let vals = b.evaluate(&inputs(&b, &asg));
    assert_eq!(read5(&vals, m), x.mul(&y).0);
}

#[test]
fn test_mul_const_matches_general_mul() {
    let k = e([101, 102, 103, 104, 105]);
    let x = e([11, 0, 7, 0, 10]);
    let mut b = Builder::new();
    let a = b.add_virtual_gfp5_target();
    let m = b.mul_const_gfp5(k, a);
    let vals = b.evaluate(&inputs(&b, &assign5(a, x)));
    assert_eq!(read5(&vals, m), k.mul(&x).0);
}

#[test]
fn test_mul_by_b_and_small_variants() {
    let x = e([42, 10, 15, 1, 2]);
    let mut b = Builder::new();
    let a = b.add_virtual_gfp5_target();
    let mb = b.mul_by_b_gfp5(a);
    let ms = b.mul_small_gfp5(a, 10);
    let mk = b.mul_small_k1_gfp5(a, 15);
    let vals = b.evaluate(&inputs(&b, &assign5(a, x)));
    assert_eq!(read5(&vals, mb), x.mul_by_b().0);
    assert_eq!(read5(&vals, ms), x.mul_small(10).0);
    assert_eq!(read5(&vals, mk), x.mul_small_k1(15).0);
}

#[test]
fn test_is_equal_is_zero_select() {
    let (x, y) = (e([1, 2, 3, 4, 5]), e([1, 2, 3, 4, 6]));
    let mut b = Builder::new();
    let (a, c) = (b.add_virtual_gfp5_target(), b.add_virtual_gfp5_target());
    let z = b.zero_gfp5();
    let eq_aa = b.is_equal_gfp5(a, a);
    let eq_ac = b.is_equal_gfp5(a, c);
    let za = b.is_zero_gfp5(a);
    let zz = b.is_zero_gfp5(z);
    let bit = b.add_virtual_target();
    let sel = b.select_gfp5(bit, a, c);
    for (bv, expected) in [(1u64, x), (0u64, y)] {
        let mut asg = assign5(a, x);
        asg.extend(assign5(c, y));
        asg.push((bit, bv));
        let vals = b.evaluate(&inputs(&b, &asg));
        assert_eq!(vals[eq_aa], 1);
        assert_eq!(vals[eq_ac], 0);
        assert_eq!(vals[za], 0);
        assert_eq!(vals[zz], 1);
        assert_eq!(read5(&vals, sel), expected.0);
    }
}

#[test]
fn test_zero_point_is_zero_and_has_expected_limbs() {
    let mut b = Builder::new();
    let o = b.zero_point();
    let z = b.is_zero_point(o);
    let vals = b.evaluate(&inputs(&b, &[]));
    assert_eq!(vals[z], 1);
    let p = read_point(&vals, &o);
    assert_eq!(p.x.0, [0; 5]);
    assert_eq!(p.z.0, [1, 0, 0, 0, 0]);
    assert_eq!(p.u.0, [0; 5]);
    assert_eq!(p.t.0, [1, 0, 0, 0, 0]);
}

#[test]
fn test_generator_matches_native() {
    let mut b = Builder::new();
    let g = b.generator_point();
    let vals = b.evaluate(&inputs(&b, &[]));
    assert_eq!(read_point(&vals, &g).to_words(), Point::generator().to_words());
}

#[test]
fn test_is_equal_point_zero_vs_nonzero() {
    let mut b = Builder::new();
    let o = b.zero_point();
    let g = b.generator_point();
    let e_og = b.is_equal_point(o, g);
    let e_oo = b.is_equal_point(o, o);
    let e_gg = b.is_equal_point(g, g);
    let vals = b.evaluate(&inputs(&b, &[]));
    assert_eq!(vals[e_og], 0);
    assert_eq!(vals[e_oo], 1);
    assert_eq!(vals[e_gg], 1);
}

#[test]
fn test_is_equal_point_projective_equivalence() {
    let p = Point::mulgen(&Scalar::from_u64(7));
    let k = e([11, 0, 0, 0, 0]);
    let q = Point { x: p.x.mul(&k), z: p.z.mul(&k), u: p.u.mul(&k), t: p.t.mul(&k) };
    let r = Point { x: p.x.mul(&k), z: p.z, u: p.u, t: p.t };
    let mut b = Builder::new();
    let (tp, tq, tr) = (b.add_virtual_point_target(), b.add_virtual_point_target(), b.add_virtual_point_target());
    let pq = b.is_equal_point(tp, tq);
    let pr = b.is_equal_point(tp, tr);
    let mut asg = assign_point(&tp, &p);
    asg.extend(assign_point(&tq, &q));
    asg.extend(assign_point(&tr, &r));
    let vals = b.evaluate(&inputs(&b, &asg));
    assert_eq!(vals[pq], 1, "p and q should be equal by cross-product checks");
    assert_eq!(vals[pr], 0, "p and r should not be equal");
}

fn on_curve_satisfied(p: &Point) -> bool {
    let mut b = Builder::new();
    let t = b.add_virtual_point_target();
    let asg = assign_point(&t, p);
    let inp = inputs(&b, &asg);
    b.is_satisfied(&inp)
}

#[test]
fn test_assert_on_curve_accepts_native_points() {
    let g = Point::generator();
    assert!(on_curve_satisfied(&g));
    assert!(on_curve_satisfied(&g.double()));
    assert!(on_curve_satisfied(&Point::mulgen(&Scalar::from_u64(12345))));
}

#[test]
fn test_assert_on_curve_accepts_additions_and_doublings() {
    let g = Point::generator();
    let mut p = g;
    for _ in 0..4 {
        p = p.add(&g).double();
        assert!(on_curve_satisfied(&p));
    }
}

#[test]
fn test_assert_on_curve_rejects_tampered_x() {
    let mut g = Point::generator();
    g.x.0[0] = (g.x.0[0] + 1) % P;
    assert!(!on_curve_satisfied(&g));
}

#[test]
fn test_assert_on_curve_bypasses_when_u_is_zero() {
    let p = Point { x: e([123, 0, 0, 0, 0]), z: e([456, 0, 0, 0, 0]), u: e([0; 5]), t: e([789, 0, 0, 0, 0]) };
    assert!(on_curve_satisfied(&p));
}

#[test]
fn test_neg_point_properties_circuit() {
    let p = Point::mulgen(&Scalar::from_u64(99));
    let mut b = Builder::new();
    let t = b.add_virtual_point_target();
    let n = b.neg_point(t);
    let s = b.add_point(t, n);
    let z = b.is_zero_point(s);
    let vals = b.evaluate(&inputs(&b, &assign_point(&t, &p)));
    assert_eq!(read_point(&vals, &n).to_words(), p.neg().to_words());
    assert_eq!(vals[z], 1);
}

#[test]
fn test_add_point_matches_native() {
    let p = Point::mulgen(&Scalar::from_u64(10));
    let q = Point::mulgen(&Scalar::from_u64(15));
    let mut b = Builder::new();
    let (tp, tq) = (b.add_virtual_point_target(), b.add_virtual_point_target());
    let s = b.add_point(tp, tq);
    let mut asg = assign_point(&tp, &p);
    asg.extend(assign_point(&tq, &q));
    let vals = b.evaluate(&inputs(&b, &asg));
    assert_eq!(read_point(&vals, &s).to_words(), p.add(&q).to_words());
}

#[test]
fn test_double_point_matches_native_on_generator() {
    let mut b = Builder::new();
    let g = b.generator_point();
    let d = b.double_point(g);
    let vals = b.evaluate(&inputs(&b, &[]));
    assert_eq!(read_point(&vals, &d).to_words(), Point::generator().double().to_words());
}

fn bit_targets(b: &mut Builder, n: usize) -> Vec<usize> {
    (0..n).map(|_| b.add_virtual_target()).collect()
}

fn shamir_in_circuit(s: &Scalar, ev: &Scalar, p: &Point) -> Point {
    let mut b = Builder::new();
    let tp = b.add_virtual_point_target();
    let sb = bit_targets(&mut b, NB_BITS);
    let eb = bit_targets(&mut b, NB_BITS);
    let r = b.double_scalar_mul_shamir(&sb, &eb, tp);
    let mut asg = assign_point(&tp, p);
    for i in 0..NB_BITS {
        asg.push((sb[i], s.bits[i] as u64));
        asg.push((eb[i], ev.bits[i] as u64));
    }
    let vals = b.evaluate(&inputs(&b, &asg));
    read_point(&vals, &r)
}

#[test]
fn test_double_scalar_mul_shamir_matches_native() {
    let p = Point::mulgen(&Scalar::from_u64(5));
    let (s, ev) = (Scalar::from_u64(3), Scalar::from_u64(5));
    let r = shamir_in_circuit(&s, &ev, &p);
    assert_eq!(r.to_words(), Point::double_scalar_mul_shamir(&s.bits, &ev.bits, &p).to_words());
    assert!(r.equals(&Point::mulgen(&Scalar::from_u64(28))));
}

#[test]
fn test_shamir_reduces_to_mulgen_when_e_is_zero() {
    let p = Point::mulgen(&Scalar::from_u64(77));
    let s = Scalar::from_u64(123456);
    let r = shamir_in_circuit(&s, &Scalar::from_u64(0), &p);
    assert!(r.equals(&Point::mulgen(&s)));
}

#[test]
fn test_scalar_mul_small_scalars_match_native() {
    let g = Point::generator();
    for k in [0u64, 1, 2, 14, 31] {
        let s = Scalar::from_u64(k);
        let mut b = Builder::new();
        let tg = b.generator_point();
        let bits = bit_targets(&mut b, NB_BITS);
        let r = b.scalar_mul(tg, &bits);
        let asg: Vec<(usize, u64)> = (0..NB_BITS).map(|i| (bits[i], s.bits[i] as u64)).collect();
        let vals = b.evaluate(&inputs(&b, &asg));
        assert_eq!(read_point(&vals, &r).to_words(), g.scalar_mul(&s).to_words());
    }
}

fn scalar_target_satisfied(bits: &[bool]) -> bool {
    let mut b = Builder::new();
    let (wires, _) = b.add_virtual_scalar_target();
    let asg: Vec<(usize, u64)> = (0..NB_BITS).map(|i| (wires[i], bits[i] as u64)).collect();
    let inp = inputs(&b, &asg);
    b.is_satisfied(&inp)
}

#[test]
fn test_scalar_accepts_zero_one_modulus_minus_one() {
    assert!(scalar_target_satisfied(&vec![false; NB_BITS]));
    let mut one = vec![false; NB_BITS];
    one[0] = true;
    assert!(scalar_target_satisfied(&one));
    let mut m = order_bits_vec();
    m[0] = false;
    assert!(scalar_target_satisfied(&m));
}

#[test]
fn test_scalar_rejects_modulus_equal() {
    assert!(!scalar_target_satisfied(&order_bits_vec()));
    assert!(!scalar_target_satisfied(&vec![true; NB_BITS]));
}

#[test]
fn signature_test_hash_e_matches_native() {
    let base: Vec<u64> = vec![SIG_TAG, 1, 2, 3, 4, 5, 6, 7, 8, 9, 10, 11];
    let mut b = Builder::new();
    let wires: Vec<usize> = (0..base.len()).map(|_| b.add_virtual_target()).collect();
    let bits = b.hash_challenge(&wires);
    let asg: Vec<(usize, u64)> = wires.iter().cloned().zip(base.iter().cloned()).collect();
    let vals = b.evaluate(&inputs(&b, &asg));
    let circuit_bits: Vec<bool> = bits.iter().map(|&w| vals[w] == 1).collect();
    assert_eq!(circuit_bits, poseidon_xof_bits_native(&base));
}

fn keypair(seed: u64) -> (SecretKey, PublicKey) {
    let mut rng = StdRng::seed_from_u64(seed);
    let sk = SecretKey::random(&mut rng).unwrap();
    let pk = PublicKey::from(&sk);
    (sk, pk)
}

fn credential_words(issuer: &PublicKey, birth_date: u64, nationality: u64) -> Vec<u64> {
    let mut w = Words::from_bytes(b"Marie").0;
    w.extend(Words::from_bytes(b"Curie").0);
    w.extend(Words::from_bytes(b"Warsaw").0);
    w.extend(FrenchPassportNumber(*b"12AB34567").to_field().0);
    w.extend([birth_date, 50000, 1, nationality]);
    w.extend(issuer.0.to_words());
    w
}

fn signed(sk: &SecretKey, pk: &PublicKey, words: &Vec<u64>) -> Signature {
    let ctx = signature::Context::new(pk, words);
    let mut rng = StdRng::seed_from_u64(9);
    Signature::sign_with_rng(sk, &ctx, &mut rng).unwrap()
}

#[test]
fn test_hash_e_matches_native_for_credentials() {
    let (sk, pk) = keypair(1);
    let words = credential_words(&pk, 30000, 250);
    let sig = signed(&sk, &pk, &words);
    let mut c = circuit();
    let public = Public::new_with_pk(pk).to_inputs();
    let w = c.witness(&words, &sig.0.r, &sig.0.s, &public).unwrap();
    let e_native = hash(&sig.0.r, &signature::Context::new(&pk, &words).to_context());
    let e2 = c.builder.signature_challenge(&c.credential, &c.signature);
    let mut inp = w.to_inputs();
    inp.resize(c.builder.gates.len(), 0);
    let vals = c.builder.evaluate(&inp);
    let e_circuit: Vec<bool> = e2.iter().map(|&x| vals[x] == 1).collect();
    assert_eq!(e_circuit, e_native);
}

#[test]
fn prove_and_verify_accept_matching_inputs() {
    let (sk, pk) = keypair(1);
    let words = credential_words(&pk, 30000, 250);
    let sig = signed(&sk, &pk, &words);
    assert!(sig.verify(&signature::Context::new(&pk, &words)));
    let c = circuit();
    let public = Public::new_with_pk(pk).to_inputs();
    let w = c.witness(&words, &sig.0.r, &sig.0.s, &public).unwrap();
    assert!(c.is_satisfied_by(&w));
}

#[test]
fn prove_rejects_wrong_issuer_public_input() {
    let (sk, pk) = keypair(1);
    let (_, other) = keypair(2);
    let words = credential_words(&pk, 30000, 250);
    let sig = signed(&sk, &pk, &words);
    let c = circuit();
    let public = Public::new_with_pk(other).to_inputs();
    assert_eq!(c.witness(&words, &sig.0.r, &sig.0.s, &public).err(), Some(WitnessError::Conflict));
}

#[test]
fn prove_rejects_wrong_nationality_public_input() {
    let (sk, pk) = keypair(1);
    let words = credential_words(&pk, 30000, 250);
    let sig = signed(&sk, &pk, &words);
    let c = circuit();
    let mut public = Public::new_with_pk(pk).to_inputs();
    public.nat_code = 251;
    assert_eq!(c.witness(&words, &sig.0.r, &sig.0.s, &public).err(), Some(WitnessError::Conflict));
}

#[test]
fn prove_rejects_non_french_credential() {
    let (sk, pk) = keypair(3);
    let words = credential_words(&pk, 30000, 251);
    let sig = signed(&sk, &pk, &words);
    let c = circuit();
    let public = Public::new_with_pk(pk).to_inputs();
    assert!(c.witness(&words, &sig.0.r, &sig.0.s, &public).is_err());
}

#[test]
fn prove_rejects_non_french_credential_even_with_matching_public_input() {
    let (sk, pk) = keypair(3);
    let words = credential_words(&pk, 30000, 251);
    let sig = signed(&sk, &pk, &words);
    let c = circuit();
    let mut public = Public::new_with_pk(pk).to_inputs();
    public.nat_code = 251;
    let w = c.witness(&words, &sig.0.r, &sig.0.s, &public).unwrap();
    assert!(!c.is_satisfied_by(&w));
}

#[test]
fn witness_rejects_non_canonical_words() {
    let (sk, pk) = keypair(4);
    let mut words = credential_words(&pk, 30000, 250);
    let sig = signed(&sk, &pk, &words);
    let c = circuit();
    let mut public = Public::new_with_pk(pk).to_inputs();
    public.cutoff18_days = P;
    assert_eq!(c.witness(&words, &sig.0.r, &sig.0.s, &public).err(), Some(WitnessError::NotCanonical));
    words[0] = P + 1;
    let public = Public::new_with_pk(pk).to_inputs();
    assert_eq!(c.witness(&words, &sig.0.r, &sig.0.s, &public).err(), Some(WitnessError::NotCanonical));
}

#[test]
fn witness_places_every_input() {
    let (sk, pk) = keypair(5);
    let words = credential_words(&pk, 30000, 250);
    let sig = signed(&sk, &pk, &words);
    let c = circuit();
    let public = Public::new_with_pk(pk).to_inputs();
    let w = c.witness(&words, &sig.0.r, &sig.0.s, &public).unwrap();
    for (k, &f) in c.credential.fields.iter().enumerate() {
        assert_eq!(w.values[f], Some(words[k]));
    }
    for (k, t) in point_wires(&c.signature.r).into_iter().enumerate() {
        assert_eq!(w.values[t], Some(sig.0.r.to_words()[k]));
    }
    for (i, &t) in c.signature.s.iter().enumerate() {
        assert_eq!(w.values[t], Some(sig.0.s.bits[i] as u64));
    }
    assert_eq!(w.values[c.public_inputs.cutoff18_days], Some(REFERENCE_CUTOFF18_DAYS));
}

#[test]
fn prove_rejects_underage_credential() {
    let (sk, pk) = keypair(1);
    let words = credential_words(&pk, REFERENCE_CUTOFF18_DAYS + 100, 250);
    let sig = signed(&sk, &pk, &words);
    let c = circuit();
    let public = Public::new_with_pk(pk).to_inputs();
    let w = c.witness(&words, &sig.0.r, &sig.0.s, &public).unwrap();
    assert!(!c.is_satisfied_by(&w));
}

#[test]
fn prove_rejects_signature_with_wrong_secret() {
    let (_sk, pk) = keypair(1);
    let (wrong, _) = keypair(2);
    let words = credential_words(&pk, 30000, 250);
    let sig = signed(&wrong, &pk, &words);
    let c = circuit();
    let public = Public::new_with_pk(pk).to_inputs();
    let w = c.witness(&words, &sig.0.r, &sig.0.s, &public).unwrap();
    assert!(!c.is_satisfied_by(&w));
}

#[test]
fn verify_rejects_mismatched_public_inputs() {
    let (_, pk) = keypair(1);
    let expected = PublicInputs::new(REFERENCE_CUTOFF18_DAYS, &pk);
    let list = expected.to_list();
    assert_eq!(list.len(), 22);
    assert_eq!(list[0], 250);
    assert_eq!(list[1], REFERENCE_CUTOFF18_DAYS);
    assert!(expected.check(&list));
    let mut wrong = list.clone();
    wrong[0] = 251;
    assert!(!expected.check(&wrong));
    let back = PublicInputs::from_list(&list);
    assert_eq!(back.to_list(), list);
}

#[test]
fn zk_proof() {
    let (sk, pk) = keypair(11);
    let words = credential_words(&pk, 1000, 250);
    let sig = signed(&sk, &pk, &words);
    let c = circuit();
    let public = Public::new_with_pk(pk).to_inputs();
    let w = c.witness(&words, &sig.0.r, &sig.0.s, &public).unwrap();
    assert!(c.is_satisfied_by(&w));
}

#[test]
fn it_works() {
    let (sk, pk) = keypair(12);
    let words = credential_words(&pk, 1000, 250);
    let ctx = signature::Context::new(&pk, &words);
    let sig = Signature::sign(&sk, &ctx).unwrap();
    assert!(sig.verify(&ctx));
}

#[test]
fn witness_rejects_conflicts_and_bad_values() {
    let mut w = zkyc::circuit::Witness::new(3);
    assert_eq!(w.set_target(0, 5), Ok(()));
    assert_eq!(w.set_target(0, 5), Ok(()));
    assert_eq!(w.set_target(0, 6), Err(WitnessError::Conflict));
    assert_eq!(w.set_target(3, 1), Err(WitnessError::NoSuchWire));
    assert_eq!(w.set_target(1, P), Err(WitnessError::NotCanonical));
    assert_eq!(w.set_bool_target(2, true), Ok(()));
    assert_eq!(w.to_inputs(), vec![5, 0, 1]);
}
