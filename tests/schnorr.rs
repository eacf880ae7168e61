use rand::rngs::StdRng;
use rand::SeedableRng;
use zkyc::authentification::{self, Authentification};
use zkyc::curve::Point;
use zkyc::keys::{PublicKey, SecretKey};
use zkyc::scalar::Scalar;
use zkyc::signature::{self, Signature};
use zkyc::transcript::{hash, poseidon_xof_bits_native, Context};

fn keypair_from_seed(seed: u64) -> (SecretKey, PublicKey) {
    let mut rng = StdRng::seed_from_u64(seed);
    let sk = SecretKey::random(&mut rng).unwrap();
    let pk = PublicKey::from(&sk);
    (sk, pk)
}

fn pk_from_seed(seed: u64) -> PublicKey {
    keypair_from_seed(seed).1
}

fn nonce_point_from_seed(seed: u64) -> Point {
    let mut rng = StdRng::seed_from_u64(seed);
    let k = zkyc::keys::random_scalar(&mut rng).unwrap();
    Point::mulgen(&k)
}

#[test]
fn auth_sign_then_verify_ok() {
    let (sk, pk) = keypair_from_seed(1);
    let ctx = authentification::Context::new(&pk, b"service-A", b"nonce-1");
    let auth = Authentification::sign(&sk, &ctx).unwrap();
    assert!(auth.verify(&ctx));
}

#[test]
fn verify_fails_if_service_changes() {
    let (sk, pk) = keypair_from_seed(2);
    let ctx_good = authentification::Context::new(&pk, b"service-A", b"nonce-1");
    let auth = Authentification::sign(&sk, &ctx_good).unwrap();
    let ctx_bad = authentification::Context::new(&pk, b"service-B", b"nonce-1");
    assert!(!auth.verify(&ctx_bad));
}

#[test]
fn verify_fails_if_nonce_changes() {
    let (sk, pk) = keypair_from_seed(3);
    let ctx_good = authentification::Context::new(&pk, b"service-A", b"nonce-1");
    let auth = Authentification::sign(&sk, &ctx_good).unwrap();
    let ctx_bad = authentification::Context::new(&pk, b"service-A", b"nonce-2");
    assert!(!auth.verify(&ctx_bad));
}

#[test]
fn authentification_verify_fails_if_public_key_changes() {
    let (sk1, pk1) = keypair_from_seed(4);
    let (_sk2, pk2) = keypair_from_seed(5);
    let ctx1 = authentification::Context::new(&pk1, b"service-A", b"nonce-1");
    let auth = Authentification::sign(&sk1, &ctx1).unwrap();
    let ctx_other_pk = authentification::Context::new(&pk2, b"service-A", b"nonce-1");
    assert!(!auth.verify(&ctx_other_pk));
}

#[test]
fn auth_with_seeded_nonce_round_trips() {
    let (sk, pk) = keypair_from_seed(1);
    let ctx = authentification::Context::new(&pk, b"service-A", b"nonce-1");
    let mut rng = StdRng::seed_from_u64(77);
    let auth = Authentification::sign_with_rng(&sk, &ctx, &mut rng).unwrap();
    assert!(auth.verify(&ctx));
    let ctx_b = authentification::Context::new(&pk, b"service-B", b"nonce-1");
    assert!(!auth.verify(&ctx_b));
}

fn message(seed: u64) -> Vec<u64> {
    (0..42u64).map(|i| (seed * 1000 + i) % 0xffff_ffff).collect()
}

#[test]
fn sign_then_verify_ok() {
    let (sk, pk) = keypair_from_seed(1);
    let ctx = signature::Context::new(&pk, &message(1));
    let sig = Signature::sign(&sk, &ctx).unwrap();
    assert!(sig.verify(&ctx));
}

#[test]
fn verify_fails_if_message_changes() {
    let (sk, pk) = keypair_from_seed(2);
    let ctx_good = signature::Context::new(&pk, &message(2));
    let sig = Signature::sign(&sk, &ctx_good).unwrap();
    let ctx_bad = signature::Context::new(&pk, &message(3));
    assert!(!sig.verify(&ctx_bad));
    let mut one_word = message(2);
    one_word[5] += 1;
    assert!(!sig.verify(&signature::Context::new(&pk, &one_word)));
}

#[test]
fn signature_verify_fails_if_public_key_changes() {
    let (sk1, pk1) = keypair_from_seed(4);
    let (_sk2, pk2) = keypair_from_seed(5);
    let ctx1 = signature::Context::new(&pk1, &message(4));
    let sig = Signature::sign(&sk1, &ctx1).unwrap();
    let ctx_other_pk = signature::Context::new(&pk2, &message(4));
    assert!(!sig.verify(&ctx_other_pk));
}

#[test]
fn verify_rejects_tampered_response() {
    let (sk, pk) = keypair_from_seed(6);
    let ctx = signature::Context::new(&pk, &message(6));
    let mut rng = StdRng::seed_from_u64(8);
    let sig = Signature::sign_with_rng(&sk, &ctx, &mut rng).unwrap();
    assert!(sig.verify(&ctx));
    let s2 = sig.0.s.add(&Scalar::from_u64(1));
    let forged = Signature(zkyc::schnorr::SchnorrProof { r: sig.0.r, s: s2 });
    assert!(!forged.verify(&ctx));
}

#[test]
fn public_key_from_secret_key_matches_mulgen() {
    let mut rng = StdRng::seed_from_u64(42);
    let sk = SecretKey::random(&mut rng).unwrap();
    let pk = PublicKey::from(&sk);
    let expected = Point::generator().scalar_mul(&sk.0);
    assert!(pk.0.equals(&expected));
}

#[test]
fn secret_key_random_is_deterministic_for_seeded_rng() {
    let mut rng1 = StdRng::seed_from_u64(123456);
    let mut rng2 = StdRng::seed_from_u64(123456);
    let sk1 = SecretKey::random(&mut rng1).unwrap();
    let sk2 = SecretKey::random(&mut rng2).unwrap();
    let pk1 = PublicKey::from(&sk1);
    let pk2 = PublicKey::from(&sk2);
    assert!(pk1.0.equals(&pk2.0));
}

#[test]
fn secret_key_random_changes_with_rng_state() {
    let mut rng = StdRng::seed_from_u64(999);
    let sk1 = SecretKey::random(&mut rng).unwrap();
    let sk2 = SecretKey::random(&mut rng).unwrap();
    let pk1 = PublicKey::from(&sk1);
    let pk2 = PublicKey::from(&sk2);
    assert!(!pk1.0.equals(&pk2.0));
}

#[test]
fn secret_key_from_os_generator() {
    let sk = SecretKey::new().unwrap();
    assert!(!sk.0.is_zero());
    assert!(SecretKey::from_scalar(Scalar::from_u64(0)).is_none());
}

#[test]
fn message_length_prefix_makes_hash_injective_over_trailing_zeros() {
    let pk = pk_from_seed(1);
    let r = nonce_point_from_seed(2);
    let ctx1 = signature::Context::from_bytes(&pk, &[1]);
    let ctx2 = signature::Context::from_bytes(&pk, &[1, 0]);
    let e1 = hash(&r, &ctx1.to_context());
    let e2 = hash(&r, &ctx2.to_context());
    assert_ne!(e1, e2, "hash should differ when message length differs");
}

#[test]
fn signature_hash_changes_when_message_changes() {
    let pk = pk_from_seed(10);
    let r = nonce_point_from_seed(20);
    let ctx_a = signature::Context::from_bytes(&pk, b"hello");
    let ctx_b = signature::Context::from_bytes(&pk, b"hellp");
    let e_a = hash(&r, &ctx_a.to_context());
    let e_b = hash(&r, &ctx_b.to_context());
    assert_ne!(e_a, e_b, "signature challenge must change when message changes");
}

#[test]
fn auth_hash_changes_when_service_or_nonce_changes() {
    let pk = pk_from_seed(100);
    let r = nonce_point_from_seed(200);
    let ctx1 = authentification::Context::new(&pk, b"svcA", b"nonce1");
    let ctx2 = authentification::Context::new(&pk, b"svcB", b"nonce1");
    let ctx3 = authentification::Context::new(&pk, b"svcA", b"nonce2");
    let e1 = hash(&r, &ctx1.to_context());
    let e2 = hash(&r, &ctx2.to_context());
    let e3 = hash(&r, &ctx3.to_context());
    assert_ne!(e1, e2, "auth challenge must change when service changes");
    assert_ne!(e1, e3, "auth challenge must change when server nonce changes");
}

#[test]
fn domain_separation_auth_vs_sig_differs_even_with_same_bytes() {
    let pk = pk_from_seed(7);
    let r = nonce_point_from_seed(8);
    let bytes = b"same payload".to_vec();
    let auth_ctx = authentification::Context::new(&pk, &bytes, &bytes);
    let mut words = auth_ctx.service.clone();
    words.extend_from_slice(&auth_ctx.nonce);
    let sig_ctx = signature::Context::new(&pk, &words);
    let e_auth = hash(&r, &auth_ctx.to_context());
    let e_sig = hash(&r, &sig_ctx.to_context());
    assert_ne!(e_auth, e_sig, "domain separation tags must prevent Auth and Sig transcripts from colliding");
}

#[test]
fn auth_challenge_is_bound_to_public_key() {
    let r = nonce_point_from_seed(4242);
    let msg = b"bind-me".to_vec();
    let pk1 = pk_from_seed(1);
    let pk2 = pk_from_seed(2);
    let ctx_pk1 = authentification::Context::new(&pk1, &msg, &msg);
    let ctx_pk2 = authentification::Context::new(&pk2, &msg, &msg);
    let e1 = hash(&r, &ctx_pk1.to_context());
    let e2 = hash(&r, &ctx_pk2.to_context());
    assert_ne!(e1, e2, "authentification challenge must depend on the public key");
}

#[test]
fn challenge_has_scalar_length_and_depends_on_input() {
    let a = poseidon_xof_bits_native(&vec![1, 2, 3]);
    let b = poseidon_xof_bits_native(&vec![1, 2, 4]);
    assert_eq!(a.len(), zkyc::scalar::NB_BITS);
    assert_ne!(a, b);
    assert_eq!(a, poseidon_xof_bits_native(&vec![1, 2, 3]));
    let pk = pk_from_seed(3);
    let ctx = signature::Context::new(&pk, &vec![5, 6]);
    let r = nonce_point_from_seed(9);
    let mut base = vec![zkyc::transcript::SIG_TAG];
    base.extend(r.to_words());
    base.extend(pk.0.to_words());
    base.extend([5u64, 6u64]);
    assert_eq!(hash(&r, &Context::Sig(&ctx)), poseidon_xof_bits_native(&base));
}

#[test]
fn byte_packing_is_little_endian_and_padded() {
    let w = zkyc::encoding::pack_bytes(b"service-A", 5);
    assert_eq!(w, vec![u32::from_le_bytes(*b"serv") as u64, u32::from_le_bytes(*b"ice-") as u64, b'A' as u64, 0, 0]);
    let long = zkyc::encoding::pack_bytes(&[1u8; 30], 2);
    assert_eq!(long, vec![0x0101_0101, 0x0101_0101]);
    let ctx = signature::Context::from_bytes(&pk_from_seed(1), b"hello");
    assert_eq!(ctx.message, vec![5, u32::from_le_bytes(*b"hell") as u64, b'o' as u64]);
}
