//! Field encodings of the values a circuit consumes: strings and passport
//! numbers packed four bytes per word, booleans as 0/1 words, and the
//! credential policy's public inputs.
use crate::curve::{point_words, Point};
use crate::field::P;
use crate::gfp5::GFp5;
use crate::keys::PublicKey;
use crate::scalar::NB_BITS;
use vstd::prelude::*;

verus! {

/// Words in an encoded string (up to 20 ASCII bytes, four per word).
pub const LEN_STRING: usize = 5;

/// Words in an encoded passport number (nine bytes).
pub const LEN_PASSPORT_NUMBER: usize = 3;

/// Words in an extension-field element.
pub const LEN_FIELD: usize = 5;

/// Words in a point.
pub const LEN_POINT: usize = 20;

/// Bits in a scalar.
pub const LEN_SCALAR: usize = NB_BITS;

/// Words in an encoded credential: three strings, a passport number, birth
/// date, expiration date, gender, nationality and the issuer's key.
pub const LEN_CREDENTIAL: usize = 42;

/// Words in the public inputs: nationality code, cutoff day count, issuer key.
pub const LEN_PUBLIC_INPUTS: usize = 22;

/// The byte at `i`, or zero past the end.
pub open spec fn byte_at(b: Seq<u8>, i: int) -> int {
    if 0 <= i < b.len() {
        b[i] as int
    } else {
        0
    }
}

/// Word `k` of a byte string packed four bytes per word, little-endian,
/// zero-padded.
pub open spec fn packed_word(b: Seq<u8>, k: int) -> int {
    byte_at(b, 4 * k) + 256 * byte_at(b, 4 * k + 1) + 65536 * byte_at(b, 4 * k + 2) + 16777216
        * byte_at(b, 4 * k + 3)
}

/// Packs bytes four per word into exactly `expected_len` words: shorter input
/// is padded with zeros, bytes past `4 * expected_len` are ignored.
pub fn pack_bytes(bytes: &[u8], expected_len: usize) -> (r: Vec<u64>)
    requires
        expected_len < 0x1000_0000,
    ensures
        r.len() == expected_len,
        forall|k: int| 0 <= k < expected_len ==> #[trigger] r[k] as int == packed_word(bytes@, k),
        forall|k: int| 0 <= k < expected_len ==> #[trigger] r[k] < 0x1_0000_0000,
{
    let mut r: Vec<u64> = Vec::with_capacity(expected_len);
    let mut k: usize = 0;
    while k < expected_len
        invariant
            k <= expected_len,
            expected_len < 0x1000_0000,
            r.len() == k,
            forall|j: int| 0 <= j < k ==> #[trigger] r[j] as int == packed_word(bytes@, j),
            forall|j: int| 0 <= j < k ==> #[trigger] r[j] < 0x1_0000_0000,
        decreases expected_len - k,
    {
        let b0 = byte_or_zero(bytes, 4 * k);
        let b1 = byte_or_zero(bytes, 4 * k + 1);
        let b2 = byte_or_zero(bytes, 4 * k + 2);
        let b3 = byte_or_zero(bytes, 4 * k + 3);
        let w = b0 + 256 * b1 + 65536 * b2 + 16777216 * b3;
        r.push(w);
        k = k + 1;
    }
    r
}

fn byte_or_zero(bytes: &[u8], i: usize) -> (r: u64)
    ensures
        r as int == byte_at(bytes@, i as int),
        r < 256,
{
    if i < bytes.len() {
        bytes[i] as u64
    } else {
        0
    }
}

/// Reading a 0/1 word as a boolean.
pub trait ToBool {
    spec fn spec_to_bool(&self) -> Option<bool>;

    /// `Some` of the boolean for 0 and 1; `None` for any other value.
    fn to_bool(&self) -> (r: Option<bool>)
        ensures
            r == self.spec_to_bool(),
    ;
}

impl ToBool for u64 {
    open spec fn spec_to_bool(&self) -> Option<bool> {
        if *self == 0 {
            Some(false)
        } else if *self == 1 {
            Some(true)
        } else {
            None
        }
    }

    fn to_bool(&self) -> (r: Option<bool>) {
        if *self == 0 {
            Some(false)
        } else if *self == 1 {
            Some(true)
        } else {
            None
        }
    }
}

/// Writing a boolean as a 0/1 word.
pub trait FromBool {
    spec fn spec_from_bool(self) -> u64;

    fn from_bool(self) -> (r: u64)
        ensures
            r == self.spec_from_bool(),
    ;
}

impl FromBool for bool {
    open spec fn spec_from_bool(self) -> u64 {
        if self {
            1
        } else {
            0
        }
    }

    fn from_bool(self) -> (r: u64) {
        if self {
            1
        } else {
            0
        }
    }
}

/// An encoded string: `LEN_STRING` words.
#[derive(Clone, Debug)]
pub struct String(pub Vec<u64>);

impl String {
    /// Packs up to 20 bytes; longer strings are cut.
    pub fn from_bytes(bytes: &[u8]) -> (r: String)
        ensures
            r.0.len() == LEN_STRING,
            forall|k: int| 0 <= k < LEN_STRING ==> #[trigger] r.0[k] as int == packed_word(bytes@, k),
    {
        String(pack_bytes(bytes, LEN_STRING))
    }
}

/// An encoded passport number: `LEN_PASSPORT_NUMBER` words.
#[derive(Clone, Debug)]
pub struct PassportNumber(pub Vec<u64>);

pub open spec fn is_digit(c: u8) -> bool {
    48 <= c <= 57
}

pub open spec fn is_upper(c: u8) -> bool {
    65 <= c <= 90
}

/// A French passport number: two digits, two capital letters, five digits.
#[derive(Clone, Copy, Debug)]
pub struct FrenchPassportNumber(pub [u8; 9]);

impl FrenchPassportNumber {
    pub open spec fn spec_check(&self) -> bool {
        &&& forall|i: int| 0 <= i < 2 ==> is_digit(#[trigger] self.0[i])
        &&& forall|i: int| 2 <= i < 4 ==> is_upper(#[trigger] self.0[i])
        &&& forall|i: int| 4 <= i < 9 ==> is_digit(#[trigger] self.0[i])
    }

    /// True iff the number has the French layout.
    pub fn check(&self) -> (r: bool)
        ensures
            r == self.spec_check(),
    {
        let mut ok = true;
        let mut i: usize = 0;
        while i < 9
            invariant
                i <= 9,
                ok == (forall|j: int| 0 <= j < i ==> (if 2 <= j < 4 {
                    is_upper(#[trigger] self.0[j])
                } else {
                    is_digit(self.0[j])
                })),
            decreases 9 - i,
        {
            let c = self.0[i];
            let good = if 2 <= i && i < 4 {
                65 <= c && c <= 90
            } else {
                48 <= c && c <= 57
            };
            ok = ok && good;
            i = i + 1;
        }
        proof {
            if ok {
                assert(self.spec_check());
            } else {
                let j = choose|j: int| 0 <= j < 9 && !(if 2 <= j < 4 {
                    is_upper(#[trigger] self.0[j])
                } else {
                    is_digit(self.0[j])
                });
                assert(!(if 2 <= j < 4 {
                    is_upper(self.0[j])
                } else {
                    is_digit(self.0[j])
                }));
            }
        }
        ok
    }

    /// The number packed into `LEN_PASSPORT_NUMBER` words.
    pub fn to_field(&self) -> (r: PassportNumber)
        ensures
            r.0.len() == LEN_PASSPORT_NUMBER,
            forall|k: int| 0 <= k < LEN_PASSPORT_NUMBER ==> #[trigger] r.0[k] as int == packed_word(self.0@, k),
    {
        PassportNumber(pack_bytes(self.0.as_slice(), LEN_PASSPORT_NUMBER))
    }
}

/// Nationalities known to the credential policy.
#[derive(Clone, Copy, Debug, PartialEq, Eq, Structural)]
pub enum Nationality {
    FR,
}

impl Nationality {
    /// The ISO 3166 numeric code.
    pub fn code(&self) -> (r: u16)
        ensures
            *self == Nationality::FR ==> r == 250,
    {
        match self {
            Nationality::FR => 250,
        }
    }
}

/// The day count, from 1900-01-01, of the latest birth date that is at
/// least eighteen years before the reference day 2026-01-01.
pub const REFERENCE_CUTOFF18_DAYS: u64 = 39446;

/// The public inputs of the credential-policy circuit.
#[derive(Clone, Copy, Debug)]
pub struct PublicInputs {
    pub cutoff18_days: u64,
    pub nat_code: u64,
    pub issuer_pk: Point,
}

/// The ordered list `[nationality code, cutoff day count, issuer key (20 words)]`.
pub open spec fn public_inputs_list(p: PublicInputs) -> Seq<u64> {
    seq![p.nat_code, p.cutoff18_days] + point_words(p.issuer_pk)
}

impl PublicInputs {
    /// Inputs asking for French nationality and the given cutoff, signed by `issuer_pk`.
    pub fn new(cutoff18_days: u64, issuer_pk: &PublicKey) -> (r: PublicInputs)
        ensures
            r.cutoff18_days == cutoff18_days,
            r.nat_code == 250,
            r.issuer_pk == issuer_pk.0,
    {
        let nationality = Nationality::FR;
        PublicInputs { cutoff18_days, nat_code: nationality.code() as u64, issuer_pk: issuer_pk.0 }
    }

    /// The inputs in the circuit's order.
    pub fn to_list(&self) -> (r: Vec<u64>)
        ensures
            r@ == public_inputs_list(*self),
            r.len() == LEN_PUBLIC_INPUTS,
    {
        let mut r: Vec<u64> = Vec::with_capacity(LEN_PUBLIC_INPUTS);
        r.push(self.nat_code);
        r.push(self.cutoff18_days);
        let words = self.issuer_pk.to_words();
        crate::transcript::push_all(&mut r, &words);
        assert(r@ =~= public_inputs_list(*self));
        r
    }

    /// Reads inputs back from the circuit's order.
    pub fn from_list(list: &Vec<u64>) -> (r: PublicInputs)
        requires
            list.len() == LEN_PUBLIC_INPUTS,
        ensures
            public_inputs_list(r) == list@,
    {
        let x = GFp5([list[2], list[3], list[4], list[5], list[6]]);
        let z = GFp5([list[7], list[8], list[9], list[10], list[11]]);
        let u = GFp5([list[12], list[13], list[14], list[15], list[16]]);
        let t = GFp5([list[17], list[18], list[19], list[20], list[21]]);
        let r = PublicInputs { nat_code: list[0], cutoff18_days: list[1], issuer_pk: Point { x, z, u, t } };
        assert(public_inputs_list(r) =~= list@);
        r
    }

    /// Compares proved public inputs with these, word by word.
    pub fn check(&self, proved: &Vec<u64>) -> (r: bool)
        ensures
            r == (proved@ == public_inputs_list(*self)),
    {
        let expected = self.to_list();
        if proved.len() != expected.len() {
            return false;
        }
        let mut i: usize = 0;
        while i < expected.len()
            invariant
                i <= expected.len(),
                proved.len() == expected.len(),
                expected@ == public_inputs_list(*self),
                forall|j: int| 0 <= j < i ==> proved[j] == expected[j],
            decreases expected.len() - i,
        {
            if proved[i] != expected[i] {
                assert(proved@[i as int] != expected@[i as int]);
                return false;
            }
            i = i + 1;
        }
        assert(proved@ =~= expected@);
        true
    }
}

/// The public inputs as a holder and a verifier agree on them: the
/// required nationality, the cutoff day count and the issuer's key.
#[derive(Clone, Copy, Debug)]
pub struct Public {
    pub cutoff18_days: u64,
    pub nationality: u64,
    pub issuer_pk: Point,
}

impl Public {
    /// French nationality, the given cutoff, and the issuer's key.
    pub fn new(cutoff18_days: u64, issuer_pk: &PublicKey) -> (r: Public)
        ensures
            r.cutoff18_days == cutoff18_days,
            r.nationality == 250,
            r.issuer_pk == issuer_pk.0,
    {
        let nationality = Nationality::FR;
        Public { cutoff18_days, nationality: nationality.code() as u64, issuer_pk: issuer_pk.0 }
    }

    /// French nationality, the reference cutoff, and the issuer's key.
    pub fn new_with_pk(issuer_pk: PublicKey) -> (r: Public)
        ensures
            r.cutoff18_days == REFERENCE_CUTOFF18_DAYS,
            r.nationality == 250,
            r.issuer_pk == issuer_pk.0,
    {
        Public::new(REFERENCE_CUTOFF18_DAYS, &issuer_pk)
    }

    /// The same inputs in the circuit's layout.
    pub fn to_inputs(&self) -> (r: PublicInputs)
        ensures
            r.cutoff18_days == self.cutoff18_days,
            r.nat_code == self.nationality,
            r.issuer_pk == self.issuer_pk,
    {
        PublicInputs { cutoff18_days: self.cutoff18_days, nat_code: self.nationality, issuer_pk: self.issuer_pk }
    }
}

} // verus!
