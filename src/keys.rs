//! Secret and public keys, and the sampling of random scalars.
use crate::curve::{pt, spec_generator, spec_scalar_mul, Point};
use crate::scalar::{order, value_of, Scalar, NB_BITS};
use crate::transcript::{lemma_words_bits_len, push_words_bits, words_bits};
use rand::rand_core::OsError;
use rand::rngs::StdRng;
use vstd::prelude::*;

verus! {

#[verifier::external_type_specification]
#[verifier::external_body]
pub struct ExStdRng(rand::rngs::StdRng);

#[verifier::external_type_specification]
#[verifier::external_body]
pub struct ExOsError(rand::rand_core::OsError);

/// How many candidates are drawn before sampling gives up; a candidate is
/// rejected with probability about 2^-30, so giving up does not happen in practice.
pub const MAX_ATTEMPTS: usize = 16;

/// Why no random scalar came out.
#[derive(Clone, Copy, Debug, PartialEq, Eq, Structural)]
pub enum RandomError {
    /// The operating system's generator failed.
    Os,
    /// Every candidate drawn was out of range or zero.
    Exhausted,
}

/// Relies on `rand::RngCore::next_u64` for `StdRng`: some 64-bit word;
/// nothing is promised of its value.
#[verifier::external_body]
fn next_word(rng: &mut StdRng) -> u64 {
    rand::RngCore::next_u64(rng)
}

/// Relies on `rand::TryRngCore::try_next_u64` for `OsRng`: a word from the
/// operating system, or its error; nothing is promised of the value.
#[verifier::external_body]
fn os_word() -> Result<u64, OsError> {
    rand::TryRngCore::try_next_u64(&mut rand::rngs::OsRng)
}

/// The `NB_BITS` low bits of five words, least significant word first.
pub open spec fn candidate_bits(words: Seq<u64>) -> Seq<bool> {
    words_bits(words).take(NB_BITS as int)
}

/// A secret key: a nonzero scalar.
pub struct SecretKey(pub Scalar);

/// A public key: the secret scalar times the generator.
#[derive(Clone, Copy, Debug)]
pub struct PublicKey(pub Point);

/// Reads five words as a candidate scalar: `Some` iff the low `NB_BITS`
/// bits denote a nonzero integer below the group order.
pub fn scalar_from_words(words: &Vec<u64>) -> (r: Option<Scalar>)
    requires
        words.len() == 5,
    ensures
        r.is_some() == (0 < value_of(candidate_bits(words@)) < order()),
        r.is_some() ==> r.unwrap().wf() && r.unwrap().bits@ == candidate_bits(words@),
{
    let mut bits: Vec<bool> = Vec::with_capacity(5 * 64);
    push_words_bits(&mut bits, words);
    proof {
        lemma_words_bits_len(words@);
    }
    bits.truncate(NB_BITS);
    assert(bits@ =~= candidate_bits(words@));
    match Scalar::from_bits_le(&bits) {
        Some(s) => {
            if s.is_zero() {
                None
            } else {
                Some(s)
            }
        },
        None => None,
    }
}

/// A uniformly random nonzero scalar below the order, by rejection sampling
/// from a seeded generator.
pub fn random_scalar(rng: &mut StdRng) -> (r: Option<Scalar>)
    ensures
        r.is_some() ==> r.unwrap().wf() && r.unwrap().value() != 0,
{
    let mut attempt: usize = 0;
    while attempt < MAX_ATTEMPTS
        decreases MAX_ATTEMPTS - attempt,
    {
        let mut words: Vec<u64> = Vec::with_capacity(5);
        let mut k: usize = 0;
        while k < 5
            invariant
                k <= 5,
                words.len() == k,
            decreases 5 - k,
        {
            words.push(next_word(rng));
            k = k + 1;
        }
        if let Some(s) = scalar_from_words(&words) {
            return Some(s);
        }
        attempt = attempt + 1;
    }
    None
}

/// A uniformly random nonzero scalar below the order, drawn from the
/// operating system's generator.
pub fn os_random_scalar() -> (r: Result<Scalar, RandomError>)
    ensures
        r.is_ok() ==> r.unwrap().wf() && r.unwrap().value() != 0,
{
    let mut attempt: usize = 0;
    while attempt < MAX_ATTEMPTS
        decreases MAX_ATTEMPTS - attempt,
    {
        let mut words: Vec<u64> = Vec::with_capacity(5);
        let mut k: usize = 0;
        while k < 5
            invariant
                k <= 5,
                words.len() == k,
            decreases 5 - k,
        {
            match os_word() {
                Ok(w) => words.push(w),
                Err(_) => return Err(RandomError::Os),
            }
            k = k + 1;
        }
        if let Some(s) = scalar_from_words(&words) {
            return Ok(s);
        }
        attempt = attempt + 1;
    }
    Err(RandomError::Exhausted)
}

impl SecretKey {
    pub open spec fn wf(&self) -> bool {
        self.0.wf() && self.0.value() != 0
    }

    /// A random key from the operating system's generator.
    pub fn new() -> (r: Result<SecretKey, RandomError>)
        ensures
            r.is_ok() ==> r.unwrap().wf(),
    {
        match os_random_scalar() {
            Ok(s) => Ok(SecretKey(s)),
            Err(e) => Err(e),
        }
    }

    /// A random key from a seeded generator; the same seed gives the same key.
    pub fn random(rng: &mut StdRng) -> (r: Option<SecretKey>)
        ensures
            r.is_some() ==> r.unwrap().wf(),
    {
        match random_scalar(rng) {
            Some(s) => Some(SecretKey(s)),
            None => None,
        }
    }

    /// The key whose scalar is `s`; `None` for zero.
    pub fn from_scalar(s: Scalar) -> (r: Option<SecretKey>)
        requires
            s.wf(),
        ensures
            r.is_some() == (s.value() != 0),
            r.is_some() ==> r.unwrap().0.bits@ == s.bits@,
    {
        if s.is_zero() {
            None
        } else {
            Some(SecretKey(s))
        }
    }
}

impl PublicKey {
    /// `sk * G`.
    pub fn from(sk: &SecretKey) -> (r: PublicKey)
        requires
            sk.wf(),
        ensures
            r.0.wf(),
            pt(r.0) == spec_scalar_mul(spec_generator(), sk.0.bits@),
    {
        PublicKey(Point::mulgen(&sk.0))
    }
}

} // verus!
