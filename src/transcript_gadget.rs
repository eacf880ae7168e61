//! The challenge in a circuit: Poseidon over wires, bit decomposition of
//! the digest words, and the same counter extension as the native
//! transcript, so that the circuit's challenge bits are the native ones.
use crate::circuit::{
    b01, extends, is_bit, lemma_extends_gate, lemma_extends_trans_all, operand_vals, wire_val,
    Builder, Gate,
};
use crate::curve_gadget::{all_bits, bools, has_all};
use crate::field::P;
use crate::gfp5_gadget::v;
use crate::scalar::NB_BITS;
use crate::transcript::{digest4, lemma_words_bits_len, word_bits, words_bits, xof_bits};
use vstd::prelude::*;

verus! {

/// The words that wires hold.
pub open spec fn words_of(gs: Seq<Gate>, inp: Seq<int>, ws: Seq<usize>) -> Seq<u64> {
    Seq::new(ws.len(), |i: int| v(gs, inp, ws[i]) as u64)
}

impl Builder {
    /// The four digest words of the listed wires.
    pub fn poseidon(&mut self, inputs: &Vec<usize>) -> (r: Vec<usize>)
        requires
            old(self).wf(),
            has_all(*old(self), inputs@),
        ensures
            old(self).grows_to(*final(self)),
            final(self).constraints@ == old(self).constraints@,
            r.len() == 4,
            has_all(*final(self), r@),
            forall|gs: Seq<Gate>, inp: Seq<int>|
                extends(final(self).gates@, gs) ==> #[trigger] words_of(gs, inp, r@) == digest4(words_of(gs, inp, inputs@)),
    {
        let ghost g0 = *self;
        let mut r: Vec<usize> = Vec::with_capacity(4);
        let mut k: usize = 0;
        proof {
            crate::circuit::lemma_extends_refl(self.gates@);
        }
        while k < 4
            invariant
                k <= 4,
                r.len() == k,
                self.wf(),
                extends(g0.gates@, self.gates@),
                self.constraints@ == g0.constraints@,
                has_all(*self, inputs@),
                has_all(*self, r@),
                forall|j: int| 0 <= j < k ==> (#[trigger] self.gates@[r@[j] as int] is Poseidon) && self.gates@[r@[j] as int]->Poseidon_0@ == inputs@ && self.gates@[r@[j] as int]->Poseidon_1 == j,
            decreases 4 - k,
        {
            let ghost h0 = self.gates@;
            let w = self.push_poseidon(inputs, k);
            r.push(w);
            k = k + 1;
            proof {
                lemma_extends_trans_all();
                assert forall|j: int| 0 <= j < k implies (#[trigger] self.gates@[r@[j] as int] is Poseidon) && self.gates@[r@[j] as int]->Poseidon_0@ == inputs@ && self.gates@[r@[j] as int]->Poseidon_1 == j by {
                    if j < k - 1 {
                        crate::circuit::lemma_extends_gate(h0, self.gates@, r@[j] as int);
                    }
                }
            }
        }
        proof {
            lemma_extends_trans_all();
            assert(self.constraints@.subrange(0, g0.constraints@.len() as int) =~= g0.constraints@);
            assert forall|gs: Seq<Gate>, inp: Seq<int>| extends(self.gates@, gs) implies #[trigger] words_of(gs, inp, r@) == digest4(words_of(gs, inp, inputs@)) by {
                assert forall|j: int| 0 <= j < 4 implies #[trigger] words_of(gs, inp, r@)[j] == digest4(words_of(gs, inp, inputs@))[j] by {
                    let w = r@[j] as int;
                    lemma_extends_gate(self.gates@, gs, w);
                    assert(gs[w] == self.gates@[w]);
                    assert(forall|i: int| 0 <= i < inputs.len() ==> #[trigger] inputs@[i] < w) by {
                        assert(crate::circuit::gate_ok(self.gates@[w], w));
                    }
                    assert(operand_vals(gs, inp, inputs@, w) =~= words_of(gs, inp, inputs@));
                }
                assert(words_of(gs, inp, r@) =~= digest4(words_of(gs, inp, inputs@)));
            }
        }
        r
    }

    fn push_poseidon(&mut self, inputs: &Vec<usize>, k: usize) -> (r: usize)
        requires
            old(self).wf(),
            has_all(*old(self), inputs@),
            k < 4,
        ensures
            old(self).grows_to(*final(self)),
            final(self).gates@.len() == old(self).gates@.len() + 1,
            final(self).gates@.subrange(0, old(self).gates@.len() as int) == old(self).gates@,
            final(self).gates@[r as int] is Poseidon,
            final(self).gates@[r as int]->Poseidon_0@ == inputs@,
            final(self).gates@[r as int]->Poseidon_1 == k,
            final(self).constraints@ == old(self).constraints@,
            r == old(self).gates.len(),
    {
        let ins = copy_wires(inputs);
        proof {
            assert forall|i: int| 0 <= i < ins.len() implies #[trigger] ins@[i] < self.gates.len() by {
                assert(inputs@[i] < self.gates.len());
            }
        }
        let r = self.push_gate(Gate::Poseidon(ins, k));
        proof {
            assert(self.gates@.subrange(0, old(self).gates@.len() as int) =~= old(self).gates@);
        }
        r
    }

    /// The 64 low bits of a wire's value, least significant first.
    pub fn split_le(&mut self, a: usize) -> (r: Vec<usize>)
        requires
            old(self).wf(),
            a < old(self).gates.len(),
        ensures
            old(self).grows_to(*final(self)),
            final(self).constraints@ == old(self).constraints@,
            r.len() == 64,
            has_all(*final(self), r@),
            forall|gs: Seq<Gate>, inp: Seq<int>|
                extends(final(self).gates@, gs) ==> #[trigger] bools(gs, inp, r@) == word_bits(v(gs, inp, a) as u64),
            forall|gs: Seq<Gate>, inp: Seq<int>|
                extends(final(self).gates@, gs) ==> #[trigger] all_bits(gs, inp, r@),
    {
        let ghost g0 = *self;
        let mut r: Vec<usize> = Vec::with_capacity(64);
        let mut k: u32 = 0;
        proof {
            crate::circuit::lemma_extends_refl(self.gates@);
        }
        while k < 64
            invariant
                k <= 64,
                r.len() == k,
                self.wf(),
                a < self.gates.len(),
                extends(g0.gates@, self.gates@),
                self.constraints@ == g0.constraints@,
                has_all(*self, r@),
                forall|j: int| 0 <= j < k ==> #[trigger] self.gates@[r@[j] as int] == Gate::Bit(a, j as u32),
            decreases 64 - k,
        {
            let ghost h0 = self.gates@;
            let w = self.push_gate(Gate::Bit(a, k));
            r.push(w);
            k = k + 1;
            proof {
                lemma_extends_trans_all();
                assert forall|j: int| 0 <= j < k implies #[trigger] self.gates@[r@[j] as int] == Gate::Bit(a, j as u32) by {
                    if j < k - 1 {
                        crate::circuit::lemma_extends_gate(h0, self.gates@, r@[j] as int);
                    }
                }
            }
        }
        proof {
            lemma_extends_trans_all();
            assert(self.constraints@.subrange(0, g0.constraints@.len() as int) =~= g0.constraints@);
            assert forall|gs: Seq<Gate>, inp: Seq<int>| extends(self.gates@, gs) implies #[trigger] bools(gs, inp, r@) == word_bits(v(gs, inp, a) as u64)
                && all_bits(gs, inp, r@) by {
                let x = v(gs, inp, a) as u64;
                assert forall|j: int| 0 <= j < 64 implies #[trigger] v(gs, inp, r@[j]) == ((x >> (j as u64)) & 1) as int by {
                    lemma_extends_gate(self.gates@, gs, r@[j] as int);
                    assert(gs[r@[j] as int] == Gate::Bit(a, j as u32));
                    assert(a < r@[j]) by {
                        assert(crate::circuit::gate_ok(self.gates@[r@[j] as int], r@[j] as int));
                    }
                }
                assert forall|j: int| 0 <= j < 64 implies is_bit(#[trigger] v(gs, inp, r@[j])) by {
                    let s = j as u64;
                    assert((x >> s) & 1 <= 1) by (bit_vector);
                }
                assert(bools(gs, inp, r@) =~= word_bits(x));
            }
            assert forall|gs: Seq<Gate>, inp: Seq<int>| extends(self.gates@, gs) implies #[trigger] all_bits(gs, inp, r@) by {
                assert(bools(gs, inp, r@) == word_bits(v(gs, inp, a) as u64) && all_bits(gs, inp, r@));
            }
        }
        r
    }
}

impl Builder {
    /// Appends the bit wires of every word wire of `h`, 64 per word.
    pub fn push_digest_bits(&mut self, bits: &mut Vec<usize>, h: &Vec<usize>)
        requires
            old(self).wf(),
            has_all(*old(self), h@),
            has_all(*old(self), old(bits)@),
        ensures
            old(self).grows_to(*final(self)),
            final(self).constraints@ == old(self).constraints@,
            has_all(*final(self), final(bits)@),
            final(bits).len() == old(bits).len() + 64 * h.len(),
            forall|gs: Seq<Gate>, inp: Seq<int>|
                extends(final(self).gates@, gs) && all_bits(gs, inp, old(bits)@) ==> #[trigger] bools(gs, inp, final(bits)@)
                    == bools(gs, inp, old(bits)@) + words_bits(words_of(gs, inp, h@)) && all_bits(gs, inp, final(bits)@),
    {
        let ghost g0 = *self;
        let ghost b0 = bits@;
        let mut k: usize = 0;
        proof {
            crate::circuit::lemma_extends_refl(self.gates@);
            assert forall|gs: Seq<Gate>, inp: Seq<int>| extends(self.gates@, gs) && all_bits(gs, inp, b0) implies #[trigger] bools(gs, inp, bits@)
                == bools(gs, inp, b0) + words_bits(words_of(gs, inp, h@).take(0)) && all_bits(gs, inp, bits@) by {
                assert(words_of(gs, inp, h@).take(0) =~= Seq::<u64>::empty());
                assert(bools(gs, inp, bits@) + words_bits(Seq::<u64>::empty()) =~= bools(gs, inp, bits@));
            }
        }
        while k < h.len()
            invariant
                k <= h.len(),
                self.wf(),
                extends(g0.gates@, self.gates@),
                self.constraints@ == g0.constraints@,
                has_all(*self, h@),
                has_all(*self, bits@),
                bits.len() == b0.len() + 64 * k,
                forall|gs: Seq<Gate>, inp: Seq<int>|
                    extends(self.gates@, gs) && all_bits(gs, inp, b0) ==> #[trigger] bools(gs, inp, bits@)
                        == bools(gs, inp, b0) + words_bits(words_of(gs, inp, h@).take(k as int)) && all_bits(gs, inp, bits@),
            decreases h.len() - k,
        {
            let ghost h0 = self.gates@;
            let ghost bits0 = bits@;
            let w = self.split_le(h[k]);
            let ghost h1 = self.gates@;
            let mut j: usize = 0;
            while j < 64
                invariant
                    j <= 64,
                    w.len() == 64,
                    has_all(*self, w@),
                    has_all(*self, bits0),
                    bits@ == bits0 + w@.take(j as int),
                decreases 64 - j,
            {
                bits.push(w[j]);
                j = j + 1;
                assert(bits@ =~= bits0 + w@.take(j as int));
            }
            proof {
                lemma_extends_trans_all();
                assert(w@.take(64) =~= w@);
                assert forall|i: int| 0 <= i < bits.len() implies #[trigger] bits@[i] < self.gates.len() by {
                    if i >= bits0.len() {
                        assert(bits@[i] == w@[i - bits0.len()]);
                    }
                }
                assert forall|gs: Seq<Gate>, inp: Seq<int>| extends(self.gates@, gs) && all_bits(gs, inp, b0) implies #[trigger] bools(gs, inp, bits@)
                    == bools(gs, inp, b0) + words_bits(words_of(gs, inp, h@).take(k + 1)) && all_bits(gs, inp, bits@) by {
                    assert(extends(h0, gs) && extends(h1, gs));
                    let ws = words_of(gs, inp, h@);
                    assert(ws.take(k + 1).drop_last() =~= ws.take(k as int));
                    assert(bools(gs, inp, bits@) =~= bools(gs, inp, bits0) + bools(gs, inp, w@));
                    assert(bools(gs, inp, w@) == word_bits(v(gs, inp, h@[k as int]) as u64));
                    assert(all_bits(gs, inp, w@));
                    assert forall|i: int| 0 <= i < bits.len() implies is_bit(#[trigger] v(gs, inp, bits@[i])) by {
                        if i >= bits0.len() {
                            assert(bits@[i] == w@[i - bits0.len()]);
                        } else {
                            assert(bits@[i] == bits0[i]);
                        }
                    }
                }
            }
            k = k + 1;
        }
        proof {
            assert forall|gs: Seq<Gate>, inp: Seq<int>| extends(self.gates@, gs) && all_bits(gs, inp, b0) implies #[trigger] bools(gs, inp, bits@)
                == bools(gs, inp, b0) + words_bits(words_of(gs, inp, h@)) && all_bits(gs, inp, bits@) by {
                assert(words_of(gs, inp, h@).take(h.len() as int) =~= words_of(gs, inp, h@));
            }
            assert(self.constraints@.subrange(0, g0.constraints@.len() as int) =~= g0.constraints@);
        }
    }

    /// The challenge bits of the listed transcript wires: the bits of the
    /// digest `h0`, then of the digest of `(counter, h0)` for counters 1, 2,
    /// ... until `NB_BITS` bits are there.
    #[verifier::rlimit(100)]
    pub fn hash_challenge(&mut self, base: &Vec<usize>) -> (r: Vec<usize>)
        requires
            old(self).wf(),
            has_all(*old(self), base@),
        ensures
            old(self).grows_to(*final(self)),
            final(self).constraints@ == old(self).constraints@,
            r.len() == NB_BITS,
            has_all(*final(self), r@),
            forall|gs: Seq<Gate>, inp: Seq<int>|
                extends(final(self).gates@, gs) ==> #[trigger] bools(gs, inp, r@) == xof_bits(words_of(gs, inp, base@)),
            forall|gs: Seq<Gate>, inp: Seq<int>|
                extends(final(self).gates@, gs) ==> #[trigger] all_bits(gs, inp, r@),
    {
        let ghost g0 = *self;
        let h0 = self.poseidon(base);
        let ghost g1 = self.gates@;
        let mut bits: Vec<usize> = Vec::new();
        let ghost empty = bits@;
        self.push_digest_bits(&mut bits, &h0);
        let ghost g2 = self.gates@;
        let mut ctr: u64 = 1;
        proof {
            lemma_extends_trans_all();
            assert forall|gs: Seq<Gate>, inp: Seq<int>| extends(self.gates@, gs) implies #[trigger] bools(gs, inp, bits@)
                == words_bits(digest4(words_of(gs, inp, base@))) && all_bits(gs, inp, bits@) by {
                assert(extends(g1, gs));
                assert(empty =~= Seq::<usize>::empty());
                assert(all_bits(gs, inp, empty));
                assert(bools(gs, inp, bits@) == bools(gs, inp, empty) + words_bits(words_of(gs, inp, h0@)));
                assert(all_bits(gs, inp, bits@));
                assert(words_of(gs, inp, h0@) == digest4(words_of(gs, inp, base@)));
                assert(bools(gs, inp, empty) + words_bits(words_of(gs, inp, h0@)) =~= words_bits(words_of(gs, inp, h0@)));
            }
        }
        while bits.len() < NB_BITS
            invariant
                1 <= ctr <= 2,
                self.wf(),
                extends(g0.gates@, self.gates@),
                self.constraints@ == g0.constraints@,
                has_all(*self, base@),
                has_all(*self, h0@),
                has_all(*self, bits@),
                h0.len() == 4,
                ctr == 1 ==> bits.len() == 256,
                ctr == 2 ==> bits.len() == 512,
                forall|gs: Seq<Gate>, inp: Seq<int>|
                    extends(self.gates@, gs) ==> #[trigger] words_of(gs, inp, h0@) == digest4(words_of(gs, inp, base@)),
                forall|gs: Seq<Gate>, inp: Seq<int>|
                    extends(self.gates@, gs) ==> #[trigger] bools(gs, inp, bits@) == (if ctr == 1 {
                        words_bits(digest4(words_of(gs, inp, base@)))
                    } else {
                        words_bits(digest4(words_of(gs, inp, base@))) + words_bits(
                            digest4(seq![1u64] + digest4(words_of(gs, inp, base@))),
                        )
                    }) && all_bits(gs, inp, bits@),
            decreases 2 - ctr,
        {
            assert(ctr == 1);
            let ghost k0 = self.gates@;
            let ghost head = bits@;
            assert(forall|gs: Seq<Gate>, inp: Seq<int>|
                extends(k0, gs) ==> #[trigger] bools(gs, inp, head) == words_bits(digest4(words_of(gs, inp, base@)))
                    && all_bits(gs, inp, head));
            let c = self.constant(ctr);
            let ghost k1 = self.gates@;
            let mut inp_w: Vec<usize> = Vec::with_capacity(5);
            inp_w.push(c);
            inp_w.push(h0[0]);
            inp_w.push(h0[1]);
            inp_w.push(h0[2]);
            inp_w.push(h0[3]);
            proof {
                assert(inp_w@ =~= seq![c] + h0@);
                assert forall|i: int| 0 <= i < inp_w.len() implies #[trigger] inp_w@[i] < self.gates.len() by {
                    if i > 0 {
                        assert(inp_w@[i] == h0@[i - 1]);
                    }
                }
            }
            let hi = self.poseidon(&inp_w);
            let ghost k2 = self.gates@;
            let ghost bits0 = bits@;
            proof {
                lemma_extends_trans_all();
            }
            self.push_digest_bits(&mut bits, &hi);
            proof {
                lemma_extends_trans_all();
                lemma_words_bits_len(seq![0u64, 0u64, 0u64, 0u64]);
                assert forall|gs: Seq<Gate>, inp: Seq<int>| extends(self.gates@, gs) implies #[trigger] bools(gs, inp, bits@) == (if ctr + 1 == 1 {
                    words_bits(digest4(words_of(gs, inp, base@)))
                } else {
                    words_bits(digest4(words_of(gs, inp, base@))) + words_bits(
                        digest4(seq![1u64] + digest4(words_of(gs, inp, base@))),
                    )
                }) && all_bits(gs, inp, bits@) by {
                    assert(extends(k2, gs) && extends(k1, gs) && extends(k0, gs));
                    let wb = words_of(gs, inp, base@);
                    assert(extends(k0, gs) ==> bools(gs, inp, head) == words_bits(digest4(words_of(gs, inp, base@))));
                    assert(words_of(gs, inp, h0@) == digest4(wb));
                    assert(bits0 == head);
                    assert(bools(gs, inp, head) == words_bits(digest4(wb)) && all_bits(gs, inp, head));
                    assert(bools(gs, inp, bits@) == bools(gs, inp, bits0) + words_bits(words_of(gs, inp, hi@)));
                    assert(all_bits(gs, inp, bits@));
                    assert(v(gs, inp, c) == ctr);
                    assert(words_of(gs, inp, inp_w@) =~= seq![1u64] + words_of(gs, inp, h0@));
                    assert(words_of(gs, inp, hi@) == digest4(words_of(gs, inp, inp_w@)));
                }
            }
            ctr = ctr + 1;
        }
        let ghost full = bits@;
        bits.truncate(NB_BITS);
        proof {
            lemma_extends_trans_all();
            assert(self.constraints@.subrange(0, g0.constraints@.len() as int) =~= g0.constraints@);
            assert forall|gs: Seq<Gate>, inp: Seq<int>| extends(self.gates@, gs) implies #[trigger] bools(gs, inp, bits@) == xof_bits(words_of(gs, inp, base@))
                && all_bits(gs, inp, bits@) by {
                assert(bools(gs, inp, full) == words_bits(digest4(words_of(gs, inp, base@))) + words_bits(
                    digest4(seq![1u64] + digest4(words_of(gs, inp, base@))),
                ));
                assert(bools(gs, inp, bits@) =~= bools(gs, inp, full).take(NB_BITS as int));
                assert forall|i: int| 0 <= i < bits.len() implies is_bit(#[trigger] v(gs, inp, bits@[i])) by {
                    assert(bits@[i] == full[i]);
                }
            }
            assert forall|gs: Seq<Gate>, inp: Seq<int>| extends(self.gates@, gs) implies #[trigger] all_bits(gs, inp, bits@) by {
                assert(bools(gs, inp, bits@) == xof_bits(words_of(gs, inp, base@)) && all_bits(gs, inp, bits@));
            }
        }
        bits
    }
}

/// A copy of a list of wires.
fn copy_wires(v: &Vec<usize>) -> (r: Vec<usize>)
    ensures
        r@ == v@,
{
    let mut r: Vec<usize> = Vec::with_capacity(v.len());
    let mut k: usize = 0;
    while k < v.len()
        invariant
            k <= v.len(),
            r@ == v@.take(k as int),
        decreases v.len() - k,
    {
        r.push(v[k]);
        k = k + 1;
        assert(r@ =~= v@.take(k as int));
    }
    assert(v@.take(v.len() as int) =~= v@);
    r
}

/// The challenge a circuit derives equals the native one: whenever the
/// transcript wires hold the words that the native transcript hashes, the
/// circuit's challenge bits are the native challenge bits.
pub proof fn lemma_challenge_parity(
    gs: Seq<Gate>,
    inp: Seq<int>,
    base: Seq<usize>,
    bits: Seq<usize>,
    native_input: Seq<u64>,
    native_bits: Seq<bool>,
)
    requires
        bools(gs, inp, bits) == xof_bits(words_of(gs, inp, base)),
        words_of(gs, inp, base) == native_input,
        native_bits == xof_bits(native_input),
    ensures
        bools(gs, inp, bits) == native_bits,
{
}

} // verus!
