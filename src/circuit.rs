//! A circuit over the field, built one gate at a time.
//!
//! Wire `k` holds the value that gate `k` computes. Gates refer to wires by
//! number; a wire that does not exist yet reads as zero.
use crate::field::{
    canonical,
    field_add,
    field_mul,
    field_sub,
    fmod,
    ints,
    lemma_fmod_bound,
    lemma_fmod_add,
    lemma_fmod_small,
    lemma_fmod_sub,
    p,
    reduce,
    sum,
};
use vstd::prelude::*;

verus! {

/// One gate of a circuit.
pub enum Gate {
    /// The value of an input slot of the assignment.
    Input(usize),
    /// A constant.
    Constant(u64),
    /// The difference of two wires.
    Sub(usize, usize),
    /// The sum of any number of wires.
    AddMany(Vec<usize>),
    /// The product of two wires.
    Mul(usize, usize),
    /// `a * b - c` for wires `a`, `b` and `c`.
    MulSub(usize, usize, usize),
}

/// The value of wire `w` among `vals`, zero if there is no such wire.
pub open spec fn wire(vals: Seq<int>, w: usize) -> int {
    if w < vals.len() {
        vals[w as int]
    } else {
        0
    }
}

/// The values of the wires `ws` among `vals`.
pub open spec fn wires_at(vals: Seq<int>, ws: Seq<usize>) -> Seq<int> {
    ws.map_values(|w: usize| wire(vals, w))
}

/// What gate `g` computes from the earlier wires `vals` and the inputs.
pub open spec fn gate_value(g: Gate, vals: Seq<int>, inputs: Seq<int>) -> int {
    match g {
        Gate::Input(i) => if i < inputs.len() {
            fmod(inputs[i as int])
        } else {
            0
        },
        Gate::Constant(c) => fmod(c as int),
        Gate::Sub(x, y) => fmod(wire(vals, x) - wire(vals, y)),
        Gate::AddMany(ws) => fmod(sum(wires_at(vals, ws@))),
        Gate::Mul(x, y) => fmod(wire(vals, x) * wire(vals, y)),
        Gate::MulSub(x, y, z) => fmod(wire(vals, x) * wire(vals, y) - wire(vals, z)),
    }
}

/// The values of all wires of the circuit `gates` on the given inputs.
pub open spec fn wire_values(gates: Seq<Gate>, inputs: Seq<int>) -> Seq<int>
    decreases gates.len(),
{
    if gates.len() == 0 {
        seq![]
    } else {
        let prev = wire_values(gates.drop_last(), inputs);
        prev.push(gate_value(gates.last(), prev, inputs))
    }
}

/// There is one value per gate, and each is a field element.
pub proof fn lemma_wire_values_len(gates: Seq<Gate>, inputs: Seq<int>)
    ensures
        wire_values(gates, inputs).len() == gates.len(),
        forall|k: int|
            0 <= k < gates.len() ==> 0 <= #[trigger] wire_values(gates, inputs)[k] < p(),
    decreases gates.len(),
{
    if gates.len() > 0 {
        let prev = wire_values(gates.drop_last(), inputs);
        lemma_wire_values_len(gates.drop_last(), inputs);
        lemma_fmod_bound(0);
        lemma_gate_value_bound(gates.last(), prev, inputs);
    }
}

proof fn lemma_gate_value_bound(g: Gate, vals: Seq<int>, inputs: Seq<int>)
    ensures
        0 <= gate_value(g, vals, inputs) < p(),
{
    match g {
        Gate::Input(i) => if i < inputs.len() {
            lemma_fmod_bound(inputs[i as int]);
        },
        Gate::Constant(c) => lemma_fmod_bound(c as int),
        Gate::Sub(x, y) => lemma_fmod_bound(wire(vals, x) - wire(vals, y)),
        Gate::AddMany(ws) => lemma_fmod_bound(sum(wires_at(vals, ws@))),
        Gate::Mul(x, y) => lemma_fmod_bound(wire(vals, x) * wire(vals, y)),
        Gate::MulSub(x, y, z) => lemma_fmod_bound(wire(vals, x) * wire(vals, y) - wire(vals, z)),
    }
}

/// Adding gates leaves the values of the existing wires as they were.
pub proof fn lemma_wire_values_prefix(gates: Seq<Gate>, more: Seq<Gate>, inputs: Seq<int>)
    ensures
        wire_values(gates + more, inputs).subrange(0, gates.len() as int) == wire_values(
            gates,
            inputs,
        ),
    decreases more.len(),
{
    lemma_wire_values_len(gates + more, inputs);
    lemma_wire_values_len(gates, inputs);
    if more.len() == 0 {
        assert(gates + more =~= gates);
        assert(wire_values(gates, inputs).subrange(0, gates.len() as int) =~= wire_values(
            gates,
            inputs,
        ));
    } else {
        let shorter = more.drop_last();
        lemma_wire_values_prefix(gates, shorter, inputs);
        assert((gates + more).drop_last() =~= gates + shorter);
        lemma_wire_values_len(gates + shorter, inputs);
        assert(wire_values(gates + more, inputs).subrange(0, gates.len() as int) =~= wire_values(
            gates + shorter,
            inputs,
        ).subrange(0, gates.len() as int));
    }
}

/// The value of wire `k` is what its gate computes from the wires before it.
pub proof fn lemma_wire_value_at(gates: Seq<Gate>, inputs: Seq<int>, k: int)
    requires
        0 <= k < gates.len(),
    ensures
        wire_values(gates, inputs)[k] == gate_value(
            gates[k],
            wire_values(gates, inputs).take(k),
            inputs,
        ),
{
    let front = gates.take(k + 1);
    lemma_wire_values_prefix(front, gates.skip(k + 1), inputs);
    assert(front + gates.skip(k + 1) =~= gates);
    lemma_wire_values_prefix(front.drop_last(), seq![gates[k]], inputs);
    assert(front.drop_last() + seq![gates[k]] =~= front);
    lemma_wire_values_len(gates, inputs);
    lemma_wire_values_len(front, inputs);
    lemma_wire_values_len(front.drop_last(), inputs);
    let prev = wire_values(front.drop_last(), inputs);
    assert(wire_values(front, inputs) == prev.push(gate_value(gates[k], prev, inputs)));
    assert(wire_values(gates, inputs)[k] == wire_values(front, inputs)[k]);
    assert(wire_values(gates, inputs).take(k) =~= prev);
}

/// The value of wire `w` among the computed values `vals`.
fn read_wire(vals: &Vec<u64>, w: usize) -> (r: u64)
    requires
        forall|i: int| 0 <= i < vals@.len() ==> canonical(#[trigger] vals@[i]),
    ensures
        r as int == wire(ints(vals@), w),
        canonical(r),
{
    if w < vals.len() {
        vals[w]
    } else {
        0
    }
}

/// The sum of the wires `ws` among the computed values `vals`.
fn sum_wires(vals: &Vec<u64>, ws: &Vec<usize>) -> (r: u64)
    requires
        forall|i: int| 0 <= i < vals@.len() ==> canonical(#[trigger] vals@[i]),
    ensures
        r as int == fmod(sum(wires_at(ints(vals@), ws@))),
        canonical(r),
{
    let ghost v = ints(vals@);
    let mut acc: u64 = 0;
    let mut j: usize = 0;
    proof {
        lemma_fmod_small(0);
        assert(wires_at(v, ws@.take(0)) =~= seq![]);
    }
    while j < ws.len()
        invariant
            j <= ws@.len(),
            v == ints(vals@),
            forall|i: int| 0 <= i < vals@.len() ==> canonical(#[trigger] vals@[i]),
            canonical(acc),
            acc as int == fmod(sum(wires_at(v, ws@.take(j as int)))),
        decreases ws@.len() - j,
    {
        let x = read_wire(vals, ws[j]);
        proof {
            let prev = wires_at(v, ws@.take(j as int));
            let next = wires_at(v, ws@.take(j + 1));
            assert(next.drop_last() =~= prev);
            assert(next.last() == x as int);
            lemma_fmod_add(sum(prev), x as int);
        }
        acc = field_add(acc, x);
        j = j + 1;
    }
    proof {
        assert(ws@.take(j as int) =~= ws@);
    }
    acc
}

/// A circuit under construction.
pub struct CircuitBuilder {
    /// The gates, in order; gate `k` defines wire `k`.
    pub gates: Vec<Gate>,
}

impl View for CircuitBuilder {
    type V = Seq<Gate>;

    open spec fn view(&self) -> Seq<Gate> {
        self.gates@
    }
}

impl CircuitBuilder {
    /// A circuit without gates.
    pub fn new() -> (r: Self)
        ensures
            r@.len() == 0,
    {
        CircuitBuilder { gates: Vec::new() }
    }

    /// The values of all wires on the given inputs.
    pub fn evaluate(&self, inputs: &Vec<u64>) -> (r: Vec<u64>)
        ensures
            ints(r@) == wire_values(self@, ints(inputs@)),
    {
        let ghost ins = ints(inputs@);
        let mut vals: Vec<u64> = Vec::new();
        let n = self.gates.len();
        let mut k: usize = 0;
        proof {
            assert(ints(vals@) =~= wire_values(self@.take(0), ins));
        }
        while k < n
            invariant
                n == self@.len(),
                k <= n,
                ins == ints(inputs@),
                ints(vals@) == wire_values(self@.take(k as int), ins),
                forall|i: int| 0 <= i < vals@.len() ==> canonical(#[trigger] vals@[i]),
            decreases n - k,
        {
            let ghost prev = ints(vals@);
            let v = match &self.gates[k] {
                Gate::Input(i) => if *i < inputs.len() {
                    reduce(inputs[*i])
                } else {
                    0
                },
                Gate::Constant(c) => reduce(*c),
                Gate::Sub(x, y) => field_sub(read_wire(&vals, *x), read_wire(&vals, *y)),
                Gate::AddMany(ws) => sum_wires(&vals, ws),
                Gate::Mul(x, y) => field_mul(read_wire(&vals, *x), read_wire(&vals, *y)),
                Gate::MulSub(x, y, z) => {
                    let m = field_mul(read_wire(&vals, *x), read_wire(&vals, *y));
                    let c = read_wire(&vals, *z);
                    proof {
                        lemma_fmod_sub(wire(prev, *x) * wire(prev, *y), c as int);
                        lemma_fmod_small(c as int);
                    }
                    field_sub(m, c)
                },
            };
            proof {
                assert(self@.take(k + 1).drop_last() =~= self@.take(k as int));
                assert(self@.take(k + 1).last() == self@[k as int]);
                assert(v as int == gate_value(self@[k as int], prev, ins));
            }
            vals.push(v);
            k = k + 1;
            proof {
                assert(ints(vals@) =~= prev.push(gate_value(self@[k - 1], prev, ins)));
            }
        }
        proof {
            assert(self@.take(n as int) =~= self@);
        }
        vals
    }

    /// The number of wires so far.
    pub fn num_wires(&self) -> (r: usize)
        ensures
            r == self@.len(),
    {
        self.gates.len()
    }

    /// Adds a wire that reads input slot `slot`.
    pub fn add_input(&mut self, slot: usize) -> (w: usize)
        requires
            old(self)@.len() < usize::MAX,
        ensures
            w == old(self)@.len(),
            final(self)@ == old(self)@.push(Gate::Input(slot)),
    {
        let w = self.gates.len();
        self.gates.push(Gate::Input(slot));
        w
    }

    /// Adds a wire that holds the constant one.
    pub fn one(&mut self) -> (w: usize)
        requires
            old(self)@.len() < usize::MAX,
        ensures
            w == old(self)@.len(),
            final(self)@ == old(self)@.push(Gate::Constant(1)),
    {
        let w = self.gates.len();
        self.gates.push(Gate::Constant(1));
        w
    }

    /// Adds a wire that holds `a - b`.
    pub fn sub_wires(&mut self, a: usize, b: usize) -> (w: usize)
        requires
            old(self)@.len() < usize::MAX,
        ensures
            w == old(self)@.len(),
            final(self)@ == old(self)@.push(Gate::Sub(a, b)),
    {
        let w = self.gates.len();
        self.gates.push(Gate::Sub(a, b));
        w
    }

    /// Adds a wire that holds the sum of the wires `ws`.
    pub fn add_many_wires(&mut self, ws: Vec<usize>) -> (w: usize)
        requires
            old(self)@.len() < usize::MAX,
        ensures
            w == old(self)@.len(),
            final(self)@ == old(self)@.push(Gate::AddMany(ws)),
    {
        let w = self.gates.len();
        self.gates.push(Gate::AddMany(ws));
        w
    }

    /// Adds a wire that holds `a * b`.
    pub fn mul_wires(&mut self, a: usize, b: usize) -> (w: usize)
        requires
            old(self)@.len() < usize::MAX,
        ensures
            w == old(self)@.len(),
            final(self)@ == old(self)@.push(Gate::Mul(a, b)),
    {
        let w = self.gates.len();
        self.gates.push(Gate::Mul(a, b));
        w
    }

    /// Adds a wire that holds `a * b - c`.
    pub fn mul_sub_wires(&mut self, a: usize, b: usize, c: usize) -> (w: usize)
        requires
            old(self)@.len() < usize::MAX,
        ensures
            w == old(self)@.len(),
            final(self)@ == old(self)@.push(Gate::MulSub(a, b, c)),
    {
        let w = self.gates.len();
        self.gates.push(Gate::MulSub(a, b, c));
        w
    }
}

} // verus!
