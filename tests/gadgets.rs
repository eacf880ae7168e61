use rand::rngs::StdRng;
use rand::SeedableRng;
use zkyc::auth_gadget::AuthContextTarget;
use zkyc::authentification::{self, Authentification};
use zkyc::circuit::{Builder, Constraint, Witness};
use zkyc::curve::Point;
use zkyc::curve_gadget::PointTarget;
use zkyc::encoding::{Public, PublicInputs, REFERENCE_CUTOFF18_DAYS};
use zkyc::keys::{PublicKey, SecretKey};
use zkyc::policy::{point_wires, SignatureTarget};
use zkyc::scalar::{Scalar, NB_BITS};
use zkyc::transcript::hash;

fn keypair(seed: u64) -> (SecretKey, PublicKey) {
    let mut rng = StdRng::seed_from_u64(seed);
    let sk = SecretKey::random(&mut rng).unwrap();
    let pk = PublicKey::from(&sk);
    (sk, pk)
}

fn set_point(w: &mut Witness, t: &PointTarget, p: &Point) {
    for (wire, v) in point_wires(t).into_iter().zip(p.to_words()) {
        w.set_target(wire, v).unwrap();
    }
}

fn read_point(vals: &[u64], t: &PointTarget) -> Point {
    let f = |g: zkyc::gfp5_gadget::GFp5Target| zkyc::gfp5::GFp5([vals[g.0[0]], vals[g.0[1]], vals[g.0[2]], vals[g.0[3]], vals[g.0[4]]]);
    Point { x: f(t.x), z: f(t.z), u: f(t.u), t: f(t.t) }
}

fn eval(b: &Builder, w: &Witness) -> Vec<u64> {
    b.evaluate(&w.to_inputs())
}

struct AuthCircuit {
    b: Builder,
    ctx: AuthContextTarget,
    proof: SignatureTarget,
}

fn auth_circuit() -> AuthCircuit {
    let mut b = Builder::new();
    let ctx = b.add_virtual_authentification_context_target();
    let proof = b.add_virtual_schnorr_target();
    b.verify_authentification(&ctx, &proof);
    AuthCircuit { b, ctx, proof }
}

fn auth_witness(c: &AuthCircuit, ctx: &authentification::Context, auth: &Authentification) -> Witness {
    let mut w = Witness::new(c.b.gates.len());
    set_point(&mut w, &c.ctx.public_key, &ctx.public_key.0);
    for i in 0..5 {
        w.set_target(c.ctx.service[i], ctx.service[i]).unwrap();
        w.set_target(c.ctx.nonce[i], ctx.nonce[i]).unwrap();
    }
    set_point(&mut w, &c.proof.r, &auth.0.r);
    for i in 0..NB_BITS {
        w.set_bool_target(c.proof.s[i], auth.0.s.bits[i]).unwrap();
    }
    w
}

fn signed_auth(seed: u64, service: &[u8], nonce: &[u8]) -> (PublicKey, Authentification) {
    let (sk, pk) = keypair(seed);
    let ctx = authentification::Context::new(&pk, service, nonce);
    let mut rng = StdRng::seed_from_u64(seed + 1000);
    (pk, Authentification::sign_with_rng(&sk, &ctx, &mut rng).unwrap())
}

#[test]
fn test_verify_auth_accepts() {
    let (pk, auth) = signed_auth(1, b"service-A", b"nonce-1");
    let ctx = authentification::Context::new(&pk, b"service-A", b"nonce-1");
    let c = auth_circuit();
    let w = auth_witness(&c, &ctx, &auth);
    assert!(c.b.is_satisfied(&w.to_inputs()));
}

#[test]
fn test_verify_auth_fails_if_service_changes() {
    let (pk, auth) = signed_auth(2, b"service-A", b"nonce-1");
    let ctx_bad = authentification::Context::new(&pk, b"service-B", b"nonce-1");
    let c = auth_circuit();
    let w = auth_witness(&c, &ctx_bad, &auth);
    assert!(!c.b.is_satisfied(&w.to_inputs()));
}

#[test]
fn test_verify_auth_fails_if_nonce_changes() {
    let (pk, auth) = signed_auth(3, b"service-A", b"nonce-1");
    let ctx_bad = authentification::Context::new(&pk, b"service-A", b"nonce-2");
    let c = auth_circuit();
    let w = auth_witness(&c, &ctx_bad, &auth);
    assert!(!c.b.is_satisfied(&w.to_inputs()));
}

#[test]
fn test_verify_auth_fails_if_public_key_changes() {
    let (_pk, auth) = signed_auth(4, b"service-A", b"nonce-1");
    let (_, other) = keypair(5);
    let ctx_bad = authentification::Context::new(&other, b"service-A", b"nonce-1");
    let c = auth_circuit();
    let w = auth_witness(&c, &ctx_bad, &auth);
    assert!(!c.b.is_satisfied(&w.to_inputs()));
}

#[test]
fn test_hash_auth_matches_native() {
    let (pk, auth) = signed_auth(6, b"service-A", b"nonce-1");
    let ctx = authentification::Context::new(&pk, b"service-A", b"nonce-1");
    let mut c = auth_circuit();
    let w = auth_witness(&c, &ctx, &auth);
    let e = c.b.hash_authentification(&c.ctx, &c.proof);
    let mut inputs = w.to_inputs();
    inputs.resize(c.b.gates.len(), 0);
    let vals = c.b.evaluate(&inputs);
    let bits: Vec<bool> = e.iter().map(|&x| vals[x] == 1).collect();
    assert_eq!(bits, hash(&auth.0.r, &ctx.to_context()));
}

#[test]
fn schnorr_test_hash_e_matches_native() {
    let (pk, auth) = signed_auth(7, b"svc", b"n");
    let ctx = authentification::Context::new(&pk, b"svc", b"n");
    let mut c = auth_circuit();
    let w = auth_witness(&c, &ctx, &auth);
    let e = c.b.hash_authentification(&c.ctx, &c.proof);
    let mut inputs = w.to_inputs();
    inputs.resize(c.b.gates.len(), 0);
    let vals = c.b.evaluate(&inputs);
    let bits: Vec<bool> = e.iter().map(|&x| vals[x] == 1).collect();
    assert_eq!(bits, hash(&auth.0.r, &ctx.to_context()));
}

#[test]
fn test_select_point() {
    let p = Point::mulgen(&Scalar::from_u64(11));
    let q = Point::mulgen(&Scalar::from_u64(12));
    let mut b = Builder::new();
    let (tp, tq) = (b.add_virtual_point_target(), b.add_virtual_point_target());
    let c = b.add_virtual_target();
    let s = b.select_point(c, tp, tq);
    for (bit, expected) in [(true, p), (false, q)] {
        let mut w = Witness::new(b.gates.len());
        set_point(&mut w, &tp, &p);
        set_point(&mut w, &tq, &q);
        w.set_bool_target(c, bit).unwrap();
        let vals = eval(&b, &w);
        assert_eq!(read_point(&vals, &s).to_words(), expected.to_words());
    }
}

#[test]
fn test_zero_point_group_identities() {
    let p = Point::mulgen(&Scalar::from_u64(13));
    let mut b = Builder::new();
    let tp = b.add_virtual_point_target();
    let o = b.zero_point();
    let po = b.add_point(tp, o);
    let op = b.add_point(o, tp);
    let oo = b.add_point(o, o);
    let d = b.double_point(o);
    let e1 = b.is_equal_point(po, tp);
    let e2 = b.is_equal_point(op, tp);
    let e3 = b.is_equal_point(oo, o);
    let e4 = b.is_equal_point(d, o);
    let z = b.is_zero_point(o);
    let nz = b.is_zero_point(tp);
    let mut w = Witness::new(b.gates.len());
    set_point(&mut w, &tp, &p);
    let vals = eval(&b, &w);
    assert_eq!([vals[e1], vals[e2], vals[e3], vals[e4], vals[z], vals[nz]], [1, 1, 1, 1, 1, 0]);
}

#[test]
fn test_assert_non_zero_point_rejects_zero() {
    let mut b = Builder::new();
    let tp = b.add_virtual_point_target();
    b.assert_non_zero_point(tp);
    let mut w = Witness::new(b.gates.len());
    set_point(&mut w, &tp, &Point::zero());
    assert!(!b.is_satisfied(&w.to_inputs()));
    let mut w2 = Witness::new(b.gates.len());
    set_point(&mut w2, &tp, &Point::generator());
    assert!(b.is_satisfied(&w2.to_inputs()));
}

#[test]
fn test_generator_matches_native_and_is_valid() {
    let mut b = Builder::new();
    let g = b.generator_point();
    b.assert_on_curve(g);
    let w = Witness::new(b.gates.len());
    assert!(b.is_satisfied(&w.to_inputs()));
    let vals = eval(&b, &w);
    assert_eq!(read_point(&vals, &g).to_words(), Point::generator().to_words());
}

#[test]
fn test_partial_witness_point_set_then_get_roundtrip() {
    let p = Point::mulgen(&Scalar::from_u64(40));
    let mut b = Builder::new();
    let tp = b.add_virtual_point_target();
    let mut w = Witness::new(b.gates.len());
    set_point(&mut w, &tp, &p);
    let vals = eval(&b, &w);
    assert_eq!(read_point(&vals, &tp).to_words(), p.to_words());
}

#[test]
fn test_partial_witness_point_populates_public_inputs_correctly() {
    let p = Point::mulgen(&Scalar::from_u64(15));
    let mut b = Builder::new();
    let tp = b.add_virtual_point_target();
    b.register_point_public_input(tp);
    let mut w = Witness::new(b.gates.len());
    set_point(&mut w, &tp, &p);
    let vals = eval(&b, &w);
    let public: Vec<u64> = b
        .constraints
        .iter()
        .filter_map(|c| match c {
            Constraint::PublicInput(x) => Some(vals[*x]),
            _ => None,
        })
        .collect();
    assert_eq!(public, p.to_words());
}

fn scalar_mul_circuit(base: &Point, s: &Scalar) -> Point {
    let mut b = Builder::new();
    let tp = b.add_virtual_point_target();
    let bits: Vec<usize> = (0..NB_BITS).map(|_| b.add_virtual_target()).collect();
    let r = b.scalar_mul(tp, &bits);
    let mut w = Witness::new(b.gates.len());
    set_point(&mut w, &tp, base);
    for i in 0..NB_BITS {
        w.set_bool_target(bits[i], s.bits[i]).unwrap();
    }
    let vals = eval(&b, &w);
    read_point(&vals, &r)
}

#[test]
fn test_scalar_mul_zero_is_neutral() {
    assert!(scalar_mul_circuit(&Point::generator(), &Scalar::from_u64(0)).is_zero());
}

#[test]
fn test_scalar_mul_one_is_identity() {
    let g = Point::generator();
    assert!(scalar_mul_circuit(&g, &Scalar::from_u64(1)).equals(&g));
}

#[test]
fn test_scalar_mul_two_is_double() {
    let g = Point::generator();
    assert!(scalar_mul_circuit(&g, &Scalar::from_u64(2)).equals(&g.double()));
}

#[test]
fn test_scalar_mul_powers_of_two_are_repeated_doubles() {
    let g = Point::generator();
    let mut d = g;
    for _ in 0..10 {
        d = d.double();
    }
    assert!(scalar_mul_circuit(&g, &Scalar::from_u64(1 << 10)).equals(&d));
}

#[test]
fn test_scalar_mul_distributive_on_small_scalars() {
    let g = Point::generator();
    let lhs = scalar_mul_circuit(&g, &Scalar::from_u64(15 + 12));
    let rhs = scalar_mul_circuit(&g, &Scalar::from_u64(15)).add(&scalar_mul_circuit(&g, &Scalar::from_u64(12)));
    assert!(lhs.equals(&rhs));
}

#[test]
fn test_double_scalar_mul_shamir_random_samples() {
    let mut rng = StdRng::seed_from_u64(2024);
    let p = Point::mulgen(&zkyc::keys::random_scalar(&mut rng).unwrap());
    for _ in 0..2 {
        let s = zkyc::keys::random_scalar(&mut rng).unwrap();
        let e = zkyc::keys::random_scalar(&mut rng).unwrap();
        let mut b = Builder::new();
        let tp = b.add_virtual_point_target();
        let sb: Vec<usize> = (0..NB_BITS).map(|_| b.add_virtual_target()).collect();
        let eb: Vec<usize> = (0..NB_BITS).map(|_| b.add_virtual_target()).collect();
        let r = b.double_scalar_mul_shamir(&sb, &eb, tp);
        let mut w = Witness::new(b.gates.len());
        set_point(&mut w, &tp, &p);
        for i in 0..NB_BITS {
            w.set_bool_target(sb[i], s.bits[i]).unwrap();
            w.set_bool_target(eb[i], e.bits[i]).unwrap();
        }
        let vals = eval(&b, &w);
        let expected = Point::mulgen(&s).add(&p.scalar_mul(&e));
        assert!(read_point(&vals, &r).equals(&expected));
    }
}

#[test]
fn test_set_get_scalar_roundtrip() {
    let s = Scalar::from_u64(0xdead_beef);
    let mut b = Builder::new();
    let (bits, _) = b.add_virtual_scalar_target();
    let mut w = Witness::new(b.gates.len());
    for i in 0..NB_BITS {
        w.set_bool_target(bits[i], s.bits[i]).unwrap();
    }
    let vals = eval(&b, &w);
    let got: Vec<bool> = bits.iter().map(|&x| vals[x] == 1).collect();
    assert_eq!(got, s.to_bits_le());
    assert!(b.is_satisfied(&w.to_inputs()));
}

#[test]
fn test_add_virtual_signature_target_distinct() {
    let mut b = Builder::new();
    let s1 = b.add_virtual_schnorr_target();
    let s2 = b.add_virtual_schnorr_target();
    assert_ne!(point_wires(&s1.r), point_wires(&s2.r));
    assert_ne!(s1.s, s2.s);
}

#[test]
fn test_register_signature_public_input_count() {
    let mut b = Builder::new();
    let s = b.add_virtual_schnorr_target();
    let before = b.constraints.len();
    b.register_point_public_input(s.r);
    b.register_scalar_public_input(&s.s);
    assert_eq!(b.constraints.len() - before, 20 + NB_BITS);
}

#[test]
fn test_set_get_signature_roundtrip() {
    let (sk, pk) = keypair(21);
    let ctx = authentification::Context::new(&pk, b"a", b"b");
    let mut rng = StdRng::seed_from_u64(3);
    let auth = Authentification::sign_with_rng(&sk, &ctx, &mut rng).unwrap();
    let mut b = Builder::new();
    let s = b.add_virtual_schnorr_target();
    let mut w = Witness::new(b.gates.len());
    set_point(&mut w, &s.r, &auth.0.r);
    for i in 0..NB_BITS {
        w.set_bool_target(s.s[i], auth.0.s.bits[i]).unwrap();
    }
    let vals = eval(&b, &w);
    assert_eq!(read_point(&vals, &s.r).to_words(), auth.0.r.to_words());
    let bits: Vec<bool> = s.s.iter().map(|&x| vals[x] == 1).collect();
    assert_eq!(bits, auth.0.s.to_bits_le());
    assert!(b.is_satisfied(&w.to_inputs()));
}

#[test]
fn test_verify_accepts() {
    let (pk, auth) = signed_auth(31, b"service-A", b"nonce-1");
    let ctx = authentification::Context::new(&pk, b"service-A", b"nonce-1");
    assert!(auth.verify(&ctx));
    let c = auth_circuit();
    let w = auth_witness(&c, &ctx, &auth);
    assert!(c.b.is_satisfied(&w.to_inputs()));
}

#[test]
fn verify_rejects_wrong_issuer_publc_input() {
    let (_, pk) = keypair(1);
    let (_, other) = keypair(2);
    let expected = Public::new_with_pk(pk).to_inputs();
    let proved = Public::new_with_pk(other).to_inputs().to_list();
    assert!(!expected.check(&proved));
    assert!(expected.check(&expected.to_list()));
}

#[test]
fn verify_rejects_wrong_nationality_public_input() {
    let (_, pk) = keypair(1);
    let expected = PublicInputs::new(REFERENCE_CUTOFF18_DAYS, &pk);
    let mut proved = expected.to_list();
    proved[0] = 251;
    assert!(!expected.check(&proved));
}

#[test]
fn scenario_keypair_seed_one_service_change() {
    let (sk, pk) = keypair(1);
    let ctx = authentification::Context::new(&pk, b"service-A", b"nonce-1");
    let auth = Authentification::sign(&sk, &ctx).unwrap();
    assert!(auth.verify(&ctx));
    let ctx_b = authentification::Context::new(&pk, b"service-B", b"nonce-1");
    assert!(!auth.verify(&ctx_b));
}

#[test]
fn nationality_code_is_iso_numeric() {
    assert_eq!(zkyc::encoding::Nationality::FR.code(), 250);
    assert!(zkyc::encoding::FrenchPassportNumber(*b"12AB34567").check());
    assert!(!zkyc::encoding::FrenchPassportNumber(*b"12ab34567").check());
    assert!(!zkyc::encoding::FrenchPassportNumber(*b"1XAB34567").check());
}
