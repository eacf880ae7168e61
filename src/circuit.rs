//! A constraint-system description: wires defined by gates over earlier
//! wires, and constraints over wires. Every gadget appends gates to a
//! builder; what a wire computes, for any assignment of the input wires, is
//! given by `wire_val`. An outside proving engine is handed the finished
//! description.
use crate::field::{gf_add, gf_mul, gf_sub, p, P};
use crate::transcript::{hash_no_pad, poseidon_digest};
use vstd::prelude::*;

verus! {

/// A gate; each operand is the index of an earlier wire.
#[derive(Clone, Debug)]
pub enum Gate {
    /// A wire set by the witness.
    Input,
    /// A constant field element.
    Constant(u64),
    Add(usize, usize),
    Sub(usize, usize),
    Mul(usize, usize),
    /// 1 when the two wires are equal, else 0.
    IsEqual(usize, usize),
    /// Word `k` of the Poseidon2 digest (`poseidon_digest`) of the listed wires.
    Poseidon(Vec<usize>, usize),
    /// Bit `k` of the canonical value of a wire.
    Bit(usize, u32),
}

/// A constraint that a satisfying witness must meet.
#[derive(Clone, Copy, Debug)]
pub enum Constraint {
    /// The wire equals one.
    AssertOne(usize),
    /// The wire equals zero.
    AssertZero(usize),
    /// The wire is 0 or 1.
    AssertBool(usize),
    /// The two wires are equal.
    Connect(usize, usize),
    /// The wire's value is below `2^n`.
    RangeCheck(usize, u32),
    /// The wire is exposed as the next public input.
    PublicInput(usize),
}

/// The operands of a gate all come before it.
pub open spec fn gate_ok(g: Gate, w: int) -> bool {
    match g {
        Gate::Input => true,
        Gate::Constant(c) => c < P,
        Gate::Add(a, b) => a < w && b < w,
        Gate::Sub(a, b) => a < w && b < w,
        Gate::Mul(a, b) => a < w && b < w,
        Gate::IsEqual(a, b) => a < w && b < w,
        Gate::Poseidon(ins, k) => k < 4 && forall|i: int| 0 <= i < ins.len() ==> #[trigger] ins[i] < w,
        Gate::Bit(a, k) => a < w && k < 64,
    }
}

pub open spec fn gates_ok(gs: Seq<Gate>) -> bool {
    forall|w: int| 0 <= w < gs.len() ==> #[trigger] gate_ok(gs[w], w)
}

/// The values, as words, of the listed wires that come before `w`.
pub open spec fn operand_vals(gs: Seq<Gate>, inp: Seq<int>, ins: Seq<usize>, w: int) -> Seq<u64>
    decreases w, 0nat,
{
    Seq::new(
        ins.len() as nat,
        |i: int|
            if 0 <= ins[i] < w {
                wire_val(gs, inp, ins[i] as int) as u64
            } else {
                0u64
            },
    )
}

/// The value of wire `w` when input wire `i` holds `inp[i]` (reduced mod p).
pub open spec fn wire_val(gs: Seq<Gate>, inp: Seq<int>, w: int) -> int
    decreases w, 1nat,
{
    if w < 0 || w >= gs.len() {
        0
    } else {
        match gs[w] {
            Gate::Input => inp[w] % p(),
            Gate::Constant(c) => c as int % p(),
            Gate::Add(a, b) => if a < w && b < w {
                (wire_val(gs, inp, a as int) + wire_val(gs, inp, b as int)) % p()
            } else {
                0
            },
            Gate::Sub(a, b) => if a < w && b < w {
                (wire_val(gs, inp, a as int) - wire_val(gs, inp, b as int)) % p()
            } else {
                0
            },
            Gate::Mul(a, b) => if a < w && b < w {
                (wire_val(gs, inp, a as int) * wire_val(gs, inp, b as int)) % p()
            } else {
                0
            },
            Gate::IsEqual(a, b) => if a < w && b < w && wire_val(gs, inp, a as int) == wire_val(
                gs,
                inp,
                b as int,
            ) {
                1
            } else {
                0
            },
            Gate::Poseidon(ins, k) => poseidon_digest(operand_vals(gs, inp, ins@, w))[k as int] as int,
            Gate::Bit(a, k) => if a < w {
                ((wire_val(gs, inp, a as int) as u64 >> (k as u64)) & 1) as int
            } else {
                0
            },
        }
    }
}

/// `gs2` keeps the gates of `gs` and appends more.
pub open spec fn extends(gs: Seq<Gate>, gs2: Seq<Gate>) -> bool {
    gs.len() <= gs2.len() && gs2.subrange(0, gs.len() as int) == gs
}

/// A constraint system under construction.
pub struct Builder {
    pub gates: Vec<Gate>,
    pub constraints: Vec<Constraint>,
}

impl Builder {
    pub open spec fn wf(&self) -> bool {
        gates_ok(self.gates@)
    }

    /// `new` keeps the gates of `self` and the constraints too.
    pub open spec fn grows_to(&self, new: Builder) -> bool {
        &&& extends(self.gates@, new.gates@)
        &&& self.constraints@.len() <= new.constraints@.len()
        &&& new.constraints@.subrange(0, self.constraints@.len() as int) == self.constraints@
        &&& new.wf()
    }

    /// An empty description.
    pub fn new() -> (r: Builder)
        ensures
            r.wf(),
            r.gates.len() == 0,
            r.constraints.len() == 0,
    {
        Builder { gates: Vec::new(), constraints: Vec::new() }
    }

    pub(crate) fn push_gate(&mut self, g: Gate) -> (r: usize)
        requires
            old(self).wf(),
            gate_ok(g, old(self).gates.len() as int),
        ensures
            old(self).grows_to(*final(self)),
            final(self).gates@ == old(self).gates@.push(g),
            final(self).constraints@ == old(self).constraints@,
            r == old(self).gates.len(),
    {
        let r = self.gates.len();
        self.gates.push(g);
        proof {
            assert(self.gates@.subrange(0, r as int) =~= old(self).gates@);
            assert(self.constraints@.subrange(0, self.constraints@.len() as int) =~= self.constraints@);
            assert forall|w: int| 0 <= w < self.gates@.len() implies #[trigger] gate_ok(self.gates@[w], w) by {
                if w < r {
                    assert(gate_ok(old(self).gates@[w], w));
                }
            }
        }
        r
    }

    /// Appends a constraint.
    pub fn add_constraint(&mut self, c: Constraint)
        requires
            old(self).wf(),
        ensures
            old(self).grows_to(*final(self)),
            final(self).gates@ == old(self).gates@,
            final(self).constraints@ == old(self).constraints@.push(c),
    {
        self.constraints.push(c);
        proof {
            assert(self.gates@.subrange(0, self.gates@.len() as int) =~= self.gates@);
            assert(self.constraints@.subrange(0, old(self).constraints@.len() as int) =~= old(self).constraints@);
        }
    }
}

/// Extension is transitive.
pub proof fn lemma_extends_trans(a: Seq<Gate>, b: Seq<Gate>, c: Seq<Gate>)
    requires
        extends(a, b),
        extends(b, c),
    ensures
        extends(a, c),
{
    assert(c.subrange(0, a.len() as int) =~= b.subrange(0, a.len() as int));
}

/// Every list extends itself.
pub proof fn lemma_extends_refl(a: Seq<Gate>)
    ensures
        extends(a, a),
{
    assert(a.subrange(0, a.len() as int) =~= a);
}

pub proof fn lemma_extends_gate(gs: Seq<Gate>, gs2: Seq<Gate>, w: int)
    requires
        extends(gs, gs2),
        0 <= w < gs.len(),
    ensures
        gs2[w] == gs[w],
{
    assert(gs2.subrange(0, gs.len() as int)[w] == gs2[w]);
}

impl Builder {
    /// A fresh wire set by the witness.
    pub fn add_virtual_target(&mut self) -> (r: usize)
        requires
            old(self).wf(),
        ensures
            old(self).grows_to(*final(self)),
            final(self).constraints@ == old(self).constraints@,
            r == old(self).gates.len(),
            final(self).gates.len() == r + 1,
            final(self).gates@ == old(self).gates@.push(Gate::Input),
            forall|gs: Seq<Gate>, inp: Seq<int>|
                extends(final(self).gates@, gs) ==> #[trigger] wire_val(gs, inp, r as int) == inp[r as int] % p(),
    {
        let r = self.push_gate(Gate::Input);
        proof {
            assert forall|gs: Seq<Gate>, inp: Seq<int>| extends(self.gates@, gs) implies #[trigger] wire_val(gs, inp, r as int) == inp[r as int] % p() by {
                lemma_extends_gate(self.gates@, gs, r as int);
            }
        }
        r
    }

    /// A wire holding the constant `c`.
    pub fn constant(&mut self, c: u64) -> (r: usize)
        requires
            old(self).wf(),
            c < P,
        ensures
            old(self).grows_to(*final(self)),
            final(self).constraints@ == old(self).constraints@,
            r == old(self).gates.len(),
            final(self).gates.len() == r + 1,
            forall|gs: Seq<Gate>, inp: Seq<int>|
                extends(final(self).gates@, gs) ==> #[trigger] wire_val(gs, inp, r as int) == c,
    {
        let r = self.push_gate(Gate::Constant(c));
        proof {
            assert forall|gs: Seq<Gate>, inp: Seq<int>| extends(self.gates@, gs) implies #[trigger] wire_val(gs, inp, r as int) == c by {
                lemma_extends_gate(self.gates@, gs, r as int);
                vstd::arithmetic::div_mod::lemma_small_mod(c as nat, P as nat);
            }
        }
        r
    }

    /// `a + b`.
    pub fn add(&mut self, a: usize, b: usize) -> (r: usize)
        requires
            old(self).wf(),
            a < old(self).gates.len(),
            b < old(self).gates.len(),
        ensures
            old(self).grows_to(*final(self)),
            final(self).constraints@ == old(self).constraints@,
            r == old(self).gates.len(),
            final(self).gates.len() == r + 1,
            forall|gs: Seq<Gate>, inp: Seq<int>|
                extends(final(self).gates@, gs) ==> #[trigger] wire_val(gs, inp, r as int) == (wire_val(gs, inp, a as int) + wire_val(gs, inp, b as int)) % p(),
    {
        let r = self.push_gate(Gate::Add(a, b));
        proof {
            assert forall|gs: Seq<Gate>, inp: Seq<int>| extends(self.gates@, gs) implies #[trigger] wire_val(gs, inp, r as int) == (wire_val(gs, inp, a as int) + wire_val(gs, inp, b as int)) % p() by {
                lemma_extends_gate(self.gates@, gs, r as int);
            }
        }
        r
    }

    /// `a - b`.
    pub fn sub(&mut self, a: usize, b: usize) -> (r: usize)
        requires
            old(self).wf(),
            a < old(self).gates.len(),
            b < old(self).gates.len(),
        ensures
            old(self).grows_to(*final(self)),
            final(self).constraints@ == old(self).constraints@,
            r == old(self).gates.len(),
            final(self).gates.len() == r + 1,
            forall|gs: Seq<Gate>, inp: Seq<int>|
                extends(final(self).gates@, gs) ==> #[trigger] wire_val(gs, inp, r as int) == (wire_val(gs, inp, a as int) - wire_val(gs, inp, b as int)) % p(),
    {
        let r = self.push_gate(Gate::Sub(a, b));
        proof {
            assert forall|gs: Seq<Gate>, inp: Seq<int>| extends(self.gates@, gs) implies #[trigger] wire_val(gs, inp, r as int) == (wire_val(gs, inp, a as int) - wire_val(gs, inp, b as int)) % p() by {
                lemma_extends_gate(self.gates@, gs, r as int);
            }
        }
        r
    }

    /// `a * b`.
    pub fn mul(&mut self, a: usize, b: usize) -> (r: usize)
        requires
            old(self).wf(),
            a < old(self).gates.len(),
            b < old(self).gates.len(),
        ensures
            old(self).grows_to(*final(self)),
            final(self).constraints@ == old(self).constraints@,
            r == old(self).gates.len(),
            final(self).gates.len() == r + 1,
            forall|gs: Seq<Gate>, inp: Seq<int>|
                extends(final(self).gates@, gs) ==> #[trigger] wire_val(gs, inp, r as int) == (wire_val(gs, inp, a as int) * wire_val(gs, inp, b as int)) % p(),
    {
        let r = self.push_gate(Gate::Mul(a, b));
        proof {
            assert forall|gs: Seq<Gate>, inp: Seq<int>| extends(self.gates@, gs) implies #[trigger] wire_val(gs, inp, r as int) == (wire_val(gs, inp, a as int) * wire_val(gs, inp, b as int)) % p() by {
                lemma_extends_gate(self.gates@, gs, r as int);
            }
        }
        r
    }

    /// 1 if `a == b`, else 0.
    pub fn is_equal(&mut self, a: usize, b: usize) -> (r: usize)
        requires
            old(self).wf(),
            a < old(self).gates.len(),
            b < old(self).gates.len(),
        ensures
            old(self).grows_to(*final(self)),
            final(self).constraints@ == old(self).constraints@,
            r == old(self).gates.len(),
            final(self).gates.len() == r + 1,
            forall|gs: Seq<Gate>, inp: Seq<int>|
                extends(final(self).gates@, gs) ==> #[trigger] wire_val(gs, inp, r as int) == if wire_val(gs, inp, a as int) == wire_val(gs, inp, b as int) {
                    1int
                } else {
                    0int
                },
    {
        let r = self.push_gate(Gate::IsEqual(a, b));
        proof {
            assert forall|gs: Seq<Gate>, inp: Seq<int>| extends(self.gates@, gs) implies #[trigger] wire_val(gs, inp, r as int) == if wire_val(gs, inp, a as int) == wire_val(gs, inp, b as int) {
                1int
            } else {
                0int
            } by {
                lemma_extends_gate(self.gates@, gs, r as int);
            }
        }
        r
    }
}

/// Extension is transitive, for any three lists.
pub proof fn lemma_extends_trans_all()
    ensures
        forall|a: Seq<Gate>, b: Seq<Gate>, c: Seq<Gate>|
            #[trigger] extends(a, b) && #[trigger] extends(b, c) ==> extends(a, c),
{
    assert forall|a: Seq<Gate>, b: Seq<Gate>, c: Seq<Gate>| #[trigger] extends(a, b) && #[trigger] extends(b, c) implies extends(a, c) by {
        lemma_extends_trans(a, b, c);
    }
}

impl Builder {
    /// `x * y + acc`.
    pub fn mul_add(&mut self, x: usize, y: usize, acc: usize) -> (r: usize)
        requires
            old(self).wf(),
            x < old(self).gates.len(),
            y < old(self).gates.len(),
            acc < old(self).gates.len(),
        ensures
            old(self).grows_to(*final(self)),
            final(self).constraints@ == old(self).constraints@,
            r < final(self).gates.len(),
            forall|gs: Seq<Gate>, inp: Seq<int>|
                extends(final(self).gates@, gs) ==> #[trigger] wire_val(gs, inp, r as int) == (wire_val(gs, inp, x as int) * wire_val(gs, inp, y as int) + wire_val(gs, inp, acc as int)) % p(),
    {
        let ghost g0 = self.gates@;
        let m = self.mul(x, y);
        let ghost g1 = self.gates@;
        let r = self.add(m, acc);
        proof {
            lemma_extends_trans_all();
            assert forall|gs: Seq<Gate>, inp: Seq<int>| extends(self.gates@, gs) implies #[trigger] wire_val(gs, inp, r as int) == (wire_val(gs, inp, x as int) * wire_val(gs, inp, y as int) + wire_val(gs, inp, acc as int)) % p() by {
                assert(extends(g1, gs));
                crate::field::lemma_mod_add_left(wire_val(gs, inp, x as int) * wire_val(gs, inp, y as int), wire_val(gs, inp, acc as int));
            }
        }
        r
    }

    /// `c * a` for a constant `c`.
    pub fn mul_const(&mut self, c: u64, a: usize) -> (r: usize)
        requires
            old(self).wf(),
            a < old(self).gates.len(),
            c < P,
        ensures
            old(self).grows_to(*final(self)),
            final(self).constraints@ == old(self).constraints@,
            r < final(self).gates.len(),
            forall|gs: Seq<Gate>, inp: Seq<int>|
                extends(final(self).gates@, gs) ==> #[trigger] wire_val(gs, inp, r as int) == (c * wire_val(gs, inp, a as int)) % p(),
    {
        let k = self.constant(c);
        let ghost g1 = self.gates@;
        let r = self.mul(k, a);
        proof {
            lemma_extends_trans_all();
            assert forall|gs: Seq<Gate>, inp: Seq<int>| extends(self.gates@, gs) implies #[trigger] wire_val(gs, inp, r as int) == (c * wire_val(gs, inp, a as int)) % p() by {
                assert(extends(g1, gs));
            }
        }
        r
    }
}

/// Residues of the small integers that boolean gadgets produce.
pub proof fn lemma_small_values()
    ensures
        0int % p() == 0,
        1int % p() == 1,
        2int % p() == 2,
        (0int - 1) % p() == p() - 1,
        (0int - 0) % p() == 0,
{
    vstd::arithmetic::div_mod::lemma_small_mod(0, P as nat);
    vstd::arithmetic::div_mod::lemma_small_mod(1, P as nat);
    vstd::arithmetic::div_mod::lemma_small_mod(2, P as nat);
    vstd::arithmetic::div_mod::lemma_small_mod((P - 1) as nat, P as nat);
    crate::field::lemma_mod_add_multiple(-1, 1);
}

/// The wire value of a boolean.
pub open spec fn b01(b: bool) -> int {
    if b {
        1
    } else {
        0
    }
}

pub open spec fn is_bit(x: int) -> bool {
    x == 0 || x == 1
}

impl Builder {
    /// Logical and of two bit wires: their product.
    pub fn and(&mut self, a: usize, b: usize) -> (r: usize)
        requires
            old(self).wf(),
            a < old(self).gates.len(),
            b < old(self).gates.len(),
        ensures
            old(self).grows_to(*final(self)),
            final(self).constraints@ == old(self).constraints@,
            r < final(self).gates.len(),
            forall|gs: Seq<Gate>, inp: Seq<int>|
                extends(final(self).gates@, gs) && is_bit(wire_val(gs, inp, a as int)) && is_bit(wire_val(gs, inp, b as int))
                    ==> #[trigger] wire_val(gs, inp, r as int) == b01(wire_val(gs, inp, a as int) == 1 && wire_val(gs, inp, b as int) == 1),
    {
        let r = self.mul(a, b);
        proof {
            lemma_small_values();
            assert forall|gs: Seq<Gate>, inp: Seq<int>| extends(self.gates@, gs) && is_bit(wire_val(gs, inp, a as int)) && is_bit(wire_val(gs, inp, b as int))
                implies #[trigger] wire_val(gs, inp, r as int) == b01(wire_val(gs, inp, a as int) == 1 && wire_val(gs, inp, b as int) == 1) by {
                let (x, y) = (wire_val(gs, inp, a as int), wire_val(gs, inp, b as int));
                if x == 0 {
                    assert(x * y == 0);
                } else {
                    assert(x * y == y);
                }
            }
        }
        r
    }

    /// Logical not of a bit wire: `1 - a`.
    pub fn not(&mut self, a: usize) -> (r: usize)
        requires
            old(self).wf(),
            a < old(self).gates.len(),
        ensures
            old(self).grows_to(*final(self)),
            final(self).constraints@ == old(self).constraints@,
            r < final(self).gates.len(),
            forall|gs: Seq<Gate>, inp: Seq<int>|
                extends(final(self).gates@, gs) && is_bit(wire_val(gs, inp, a as int))
                    ==> #[trigger] wire_val(gs, inp, r as int) == b01(wire_val(gs, inp, a as int) == 0),
    {
        let one = self.constant(1);
        let ghost g1 = self.gates@;
        let r = self.sub(one, a);
        proof {
            lemma_extends_trans_all();
            assert forall|gs: Seq<Gate>, inp: Seq<int>| extends(self.gates@, gs) && is_bit(wire_val(gs, inp, a as int))
                implies #[trigger] wire_val(gs, inp, r as int) == b01(wire_val(gs, inp, a as int) == 0) by {
                assert(extends(g1, gs));
                lemma_small_values();
            }
        }
        r
    }

    /// Logical or of two bit wires: `a + b - a b`.
    pub fn or(&mut self, a: usize, b: usize) -> (r: usize)
        requires
            old(self).wf(),
            a < old(self).gates.len(),
            b < old(self).gates.len(),
        ensures
            old(self).grows_to(*final(self)),
            final(self).constraints@ == old(self).constraints@,
            r < final(self).gates.len(),
            forall|gs: Seq<Gate>, inp: Seq<int>|
                extends(final(self).gates@, gs) && is_bit(wire_val(gs, inp, a as int)) && is_bit(wire_val(gs, inp, b as int))
                    ==> #[trigger] wire_val(gs, inp, r as int) == b01(wire_val(gs, inp, a as int) == 1 || wire_val(gs, inp, b as int) == 1),
    {
        let s = self.add(a, b);
        let ghost g1 = self.gates@;
        let m = self.mul(a, b);
        let ghost g2 = self.gates@;
        let r = self.sub(s, m);
        proof {
            lemma_extends_trans_all();
            assert forall|gs: Seq<Gate>, inp: Seq<int>| extends(self.gates@, gs) && is_bit(wire_val(gs, inp, a as int)) && is_bit(wire_val(gs, inp, b as int))
                implies #[trigger] wire_val(gs, inp, r as int) == b01(wire_val(gs, inp, a as int) == 1 || wire_val(gs, inp, b as int) == 1) by {
                assert(extends(g2, gs));
                assert(extends(g1, gs));
                lemma_small_values();
                let (x, y) = (wire_val(gs, inp, a as int), wire_val(gs, inp, b as int));
                if x == 0 {
                    assert(x * y == 0);
                } else {
                    assert(x * y == y);
                }
            }
        }
        r
    }
}

/// What a constraint demands of the wire values.
pub open spec fn holds(c: Constraint, gs: Seq<Gate>, inp: Seq<int>) -> bool {
    match c {
        Constraint::AssertOne(w) => wire_val(gs, inp, w as int) == 1,
        Constraint::AssertZero(w) => wire_val(gs, inp, w as int) == 0,
        Constraint::AssertBool(w) => is_bit(wire_val(gs, inp, w as int)),
        Constraint::Connect(a, b) => wire_val(gs, inp, a as int) == wire_val(gs, inp, b as int),
        Constraint::RangeCheck(w, n) => n < 64 && (wire_val(gs, inp, w as int) as u64) >> (n as u64) == 0,
        Constraint::PublicInput(_) => true,
    }
}

/// The input assignment as integers.
pub open spec fn inputs_of(inputs: Seq<u64>) -> Seq<int> {
    Seq::new(inputs.len(), |i: int| inputs[i] as int)
}

impl Builder {
    /// The value of every wire, in order, for an assignment of the input
    /// wires (`inputs[w]` for each input wire `w`; other entries are unused).
    pub fn evaluate(&self, inputs: &Vec<u64>) -> (r: Vec<u64>)
        requires
            self.wf(),
            inputs.len() == self.gates.len(),
        ensures
            r.len() == self.gates.len(),
            forall|w: int| 0 <= w < r.len() ==> #[trigger] r[w] as int == wire_val(self.gates@, inputs_of(inputs@), w),
            forall|w: int| 0 <= w < r.len() ==> #[trigger] r[w] < P,
    {
        let ghost inp = inputs_of(inputs@);
        let mut vals: Vec<u64> = Vec::with_capacity(self.gates.len());
        let mut w: usize = 0;
        while w < self.gates.len()
            invariant
                w <= self.gates.len(),
                self.wf(),
                inputs.len() == self.gates.len(),
                inp == inputs_of(inputs@),
                vals.len() == w,
                forall|j: int| 0 <= j < w ==> #[trigger] vals[j] as int == wire_val(self.gates@, inp, j),
                forall|j: int| 0 <= j < w ==> #[trigger] vals[j] < P,
            decreases self.gates.len() - w,
        {
            proof {
                assert(gate_ok(self.gates@[w as int], w as int));
            }
            let x: u64 = match &self.gates[w] {
                Gate::Input => inputs[w] % P,
                Gate::Constant(c) => *c,
                Gate::Add(a, b) => gf_add(vals[*a], vals[*b]),
                Gate::Sub(a, b) => gf_sub(vals[*a], vals[*b]),
                Gate::Mul(a, b) => gf_mul(vals[*a], vals[*b]),
                Gate::IsEqual(a, b) => if vals[*a] == vals[*b] {
                    1
                } else {
                    0
                },
                Gate::Poseidon(ins, k) => {
                    let mut words: Vec<u64> = Vec::with_capacity(ins.len());
                    let mut i: usize = 0;
                    while i < ins.len()
                        invariant
                            i <= ins.len(),
                            vals.len() == w,
                            forall|j: int| 0 <= j < ins.len() ==> #[trigger] ins@[j] < w,
                            forall|j: int| 0 <= j < w ==> #[trigger] vals[j] < P,
                            words.len() == i,
                            forall|j: int| 0 <= j < i ==> #[trigger] words[j] == vals[ins@[j] as int],
                        decreases ins.len() - i,
                    {
                        words.push(vals[ins[i]]);
                        i = i + 1;
                    }
                    let d = hash_no_pad(&words);
                    proof {
                        assert(words@ =~= operand_vals(self.gates@, inp, ins@, w as int));
                    }
                    d[*k]
                },
                Gate::Bit(a, k) => (vals[*a] >> (*k as u64)) & 1,
            };
            proof {
                lemma_small_values();
                match self.gates@[w as int] {
                    Gate::Constant(c) => {
                        vstd::arithmetic::div_mod::lemma_small_mod(c as nat, P as nat);
                    },
                    Gate::Bit(a, k) => {
                        let y = vals[a as int];
                        let s = k as u64;
                        assert((y >> s) & 1 <= 1) by (bit_vector);
                    },
                    _ => {},
                }
            }
            vals.push(x);
            w = w + 1;
        }
        vals
    }

    /// True iff every constraint holds for the assignment.
    pub fn is_satisfied(&self, inputs: &Vec<u64>) -> (r: bool)
        requires
            self.wf(),
            inputs.len() == self.gates.len(),
        ensures
            r == (forall|i: int| 0 <= i < self.constraints.len() ==> #[trigger] holds(self.constraints@[i], self.gates@, inputs_of(inputs@))),
    {
        let vals = self.evaluate(inputs);
        let ghost inp = inputs_of(inputs@);
        let n = self.gates.len();
        let mut i: usize = 0;
        while i < self.constraints.len()
            invariant
                i <= self.constraints.len(),
                vals.len() == n,
                n == self.gates.len(),
                inp == inputs_of(inputs@),
                forall|w: int| 0 <= w < vals.len() ==> #[trigger] vals[w] as int == wire_val(self.gates@, inp, w),
                forall|j: int| 0 <= j < i ==> #[trigger] holds(self.constraints@[j], self.gates@, inp),
            decreases self.constraints.len() - i,
        {
            let ok = match self.constraints[i] {
                Constraint::AssertOne(w) => w < n && vals[w] == 1,
                Constraint::AssertZero(w) => if w < n {
                    vals[w] == 0
                } else {
                    true
                },
                Constraint::AssertBool(w) => if w < n {
                    vals[w] <= 1
                } else {
                    true
                },
                Constraint::Connect(a, b) => {
                    let va = if a < n {
                        vals[a]
                    } else {
                        0
                    };
                    let vb = if b < n {
                        vals[b]
                    } else {
                        0
                    };
                    va == vb
                },
                Constraint::RangeCheck(w, k) => {
                    let x = if w < n {
                        vals[w]
                    } else {
                        0
                    };
                    k < 64 && x >> (k as u64) == 0
                },
                Constraint::PublicInput(_) => true,
            };
            if !ok {
                assert(!holds(self.constraints@[i as int], self.gates@, inp));
                return false;
            }
            i = i + 1;
        }
        true
    }
}

/// Why a witness value could not be assigned.
#[derive(Clone, Copy, Debug, PartialEq, Eq, Structural)]
pub enum WitnessError {
    /// No such wire.
    NoSuchWire,
    /// The value is not a canonical field element.
    NotCanonical,
    /// The wire already holds another value.
    Conflict,
}

/// A partial assignment of the input wires.
pub struct Witness {
    pub values: Vec<Option<u64>>,
}

/// Every wire assigned in `old` keeps its value in `new`.
pub open spec fn keeps(old: Seq<Option<u64>>, new: Seq<Option<u64>>) -> bool {
    old.len() == new.len() && forall|t: int| 0 <= t < old.len() && (#[trigger] old[t]) is Some ==> new[t] == old[t]
}

/// The input values of an assignment, zero where nothing was assigned.
pub open spec fn assignment(w: Witness) -> Seq<u64> {
    Seq::new(
        w.values.len() as nat,
        |i: int|
            match w.values[i] {
                Some(x) => x,
                None => 0u64,
            },
    )
}

impl Witness {
    /// No wire assigned, for a description of `n` wires.
    pub fn new(n: usize) -> (r: Witness)
        ensures
            r.values.len() == n,
            forall|i: int| 0 <= i < n ==> #[trigger] r.values[i] is None,
    {
        let mut values: Vec<Option<u64>> = Vec::with_capacity(n);
        let mut i: usize = 0;
        while i < n
            invariant
                i <= n,
                values.len() == i,
                forall|j: int| 0 <= j < i ==> #[trigger] values[j] is None,
            decreases n - i,
        {
            values.push(None);
            i = i + 1;
        }
        Witness { values }
    }

    /// Binds wire `w` to `x`; assigning the same value twice is allowed,
    /// another value is a conflict.
    pub fn set_target(&mut self, w: usize, x: u64) -> (r: Result<(), WitnessError>)
        ensures
            r == (if w >= old(self).values.len() {
                Err(WitnessError::NoSuchWire)
            } else if x >= P {
                Err(WitnessError::NotCanonical)
            } else if old(self).values[w as int] is Some && old(self).values[w as int]->Some_0 != x {
                Err(WitnessError::Conflict)
            } else {
                Ok(())
            }),
            r is Ok ==> final(self).values@ == old(self).values@.update(w as int, Some(x)),
            r is Ok ==> keeps(old(self).values@, final(self).values@),
            r is Err ==> final(self).values@ == old(self).values@,
    {
        if w >= self.values.len() {
            return Err(WitnessError::NoSuchWire);
        }
        if x >= P {
            return Err(WitnessError::NotCanonical);
        }
        match self.values[w] {
            Some(y) => {
                if y != x {
                    return Err(WitnessError::Conflict);
                }
            },
            None => {},
        }
        self.values.set(w, Some(x));
        Ok(())
    }

    /// Binds a bit wire to 0 or 1.
    pub fn set_bool_target(&mut self, w: usize, b: bool) -> (r: Result<(), WitnessError>)
        ensures
            r == (if w >= old(self).values.len() {
                Err(WitnessError::NoSuchWire)
            } else if old(self).values[w as int] is Some && old(self).values[w as int]->Some_0 != (if b { 1u64 } else { 0u64 }) {
                Err(WitnessError::Conflict)
            } else {
                Ok(())
            }),
            r is Ok ==> final(self).values@ == old(self).values@.update(w as int, Some(if b { 1u64 } else { 0u64 })),
            r is Ok ==> keeps(old(self).values@, final(self).values@),
            r is Err ==> final(self).values@ == old(self).values@,
    {
        self.set_target(w, if b { 1 } else { 0 })
    }

    /// The assigned values, zero where nothing was assigned.
    pub fn to_inputs(&self) -> (r: Vec<u64>)
        ensures
            r@ == assignment(*self),
            r.len() == self.values.len(),
            forall|i: int| 0 <= i < r.len() ==> #[trigger] r[i] == match self.values[i] {
                Some(x) => x,
                None => 0u64,
            },
    {
        let mut r: Vec<u64> = Vec::with_capacity(self.values.len());
        let mut i: usize = 0;
        while i < self.values.len()
            invariant
                i <= self.values.len(),
                r.len() == i,
                forall|j: int| 0 <= j < i ==> #[trigger] r[j] == match self.values[j] {
                    Some(x) => x,
                    None => 0u64,
                },
            decreases self.values.len() - i,
        {
            let x = match self.values[i] {
                Some(x) => x,
                None => 0,
            };
            r.push(x);
            i = i + 1;
        }
        assert(r@ =~= assignment(*self));
        r
    }
}

} // verus!
