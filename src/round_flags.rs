//! The round-selector rules and their two evaluators.
//!
//! `eval_round_flags` computes the constraint terms on concrete field
//! elements; `eval_round_flags_recursively` emits a circuit that computes the
//! same terms from wires. Both are stated against `first_row_terms` and
//! `transition_terms`.
use crate::circuit::{
    lemma_wire_value_at,
    lemma_wire_values_len,
    lemma_wire_values_prefix,
    wire,
    wire_values,
    wires_at,
    CircuitBuilder,
    Gate,
};
use crate::consumer::{ConstraintConsumer, RecursiveConstraintConsumer};
use crate::field::{
    canonical,
    field_add,
    field_mul,
    field_sub,
    fmod,
    ints,
    lemma_fmod_add,
    lemma_fmod_bound,
    lemma_fmod_mul,
    lemma_fmod_small,
    lemma_fmod_sub,
    reduce,
    sum,
};
use vstd::prelude::*;
use vstd::slice::slice_to_vec;

verus! {

/// The terms checked on the first row: the indicators minus `[1, 0, ..., 0]`.
pub open spec fn first_row_terms(local: Seq<int>) -> Seq<int> {
    Seq::new(
        local.len(),
        |i: int|
            if i == 0 {
                fmod(local[0] - 1)
            } else {
                fmod(local[i])
            },
    )
}

/// The terms checked on each pair of adjacent rows. For each round `i`, the
/// flag of round `i + 1` (cyclically) on the next row must equal the flag of
/// round `i` on this row; then this row must be active. Every term is gated by
/// the sum of the next row's flags, so that a padding row checks nothing.
pub open spec fn transition_terms(local: Seq<int>, next: Seq<int>) -> Seq<int> {
    let r = local.len();
    Seq::new(
        r + 1,
        |i: int|
            if i < r {
                fmod(sum(next) * (next[(i + 1) % (r as int)] - local[i]))
            } else {
                fmod(sum(next) * (sum(local) - 1))
            },
    )
}

/// The sum of the flags of a row, in the field.
fn flag_sum(row: &[u64]) -> (r: u64)
    ensures
        r as int == fmod(sum(ints(row@))),
        canonical(r),
{
    let ghost v = ints(row@);
    let mut acc: u64 = 0;
    let mut j: usize = 0;
    proof {
        lemma_fmod_small(0);
        assert(v.take(0) =~= seq![]);
    }
    while j < row.len()
        invariant
            j <= row@.len(),
            v == ints(row@),
            canonical(acc),
            acc as int == fmod(sum(v.take(j as int))),
        decreases row@.len() - j,
    {
        let x = reduce(row[j]);
        proof {
            assert(v.take(j + 1).drop_last() =~= v.take(j as int));
            lemma_fmod_add(sum(v.take(j as int)), v[j as int]);
        }
        acc = field_add(acc, x);
        j = j + 1;
    }
    proof {
        assert(v.take(j as int) =~= v);
    }
    acc
}

/// Emits the round-selector constraints for the rows `local` and `next`,
/// given as the values of their indicator columns.
pub fn eval_round_flags(local: &[u64], next: &[u64], yield_constr: &mut ConstraintConsumer)
    requires
        local@.len() == next@.len(),
        local@.len() >= 1,
    ensures
        ints(final(yield_constr).first_row@) == ints(old(yield_constr).first_row@)
            + first_row_terms(ints(local@)),
        ints(final(yield_constr).transition@) == ints(old(yield_constr).transition@)
            + transition_terms(ints(local@), ints(next@)),
{
    let r = local.len();
    let ghost l = ints(local@);
    let ghost nx = ints(next@);
    let ghost first0 = ints(yield_constr.first_row@);
    let ghost trans0 = ints(yield_constr.transition@);
    let ghost first_terms = first_row_terms(l);
    let ghost trans_terms = transition_terms(l, nx);

    // Initially, the flag of the first round is one and the others are zero.
    let first = field_sub(reduce(local[0]), 1);
    proof {
        lemma_fmod_small(1);
        lemma_fmod_sub(l[0], 1);
        assert(ints(yield_constr.first_row@.push(first)) =~= first0 + first_terms.take(1));
    }
    yield_constr.constraint_first_row(first);
    let mut i: usize = 1;
    while i < r
        invariant
            1 <= i <= r,
            r == local@.len(),
            l == ints(local@),
            first_terms == first_row_terms(l),
            ints(yield_constr.first_row@) == first0 + first_terms.take(i as int),
            ints(yield_constr.transition@) == trans0,
        decreases r - i,
    {
        let c = reduce(local[i]);
        proof {
            assert(c as int == first_terms[i as int]);
            assert(ints(yield_constr.first_row@.push(c)) =~= ints(yield_constr.first_row@).push(
                c as int,
            ));
            assert(first_terms.take(i + 1) =~= first_terms.take(i as int).push(
                first_terms[i as int],
            ));
            assert(ints(yield_constr.first_row@.push(c)) =~= first0 + first_terms.take(i + 1));
        }
        yield_constr.constraint_first_row(c);
        i = i + 1;
    }
    proof {
        assert(first_terms.take(r as int) =~= first_terms);
    }

    // The flags advance cyclically, unless the next row is padding.
    let next_any_flag = flag_sum(next);
    let mut i: usize = 0;
    while i < r
        invariant
            i <= r,
            r == local@.len(),
            r == next@.len(),
            l == ints(local@),
            nx == ints(next@),
            trans_terms == transition_terms(l, nx),
            next_any_flag as int == fmod(sum(nx)),
            canonical(next_any_flag),
            ints(yield_constr.first_row@) == first0 + first_terms,
            ints(yield_constr.transition@) == trans0 + trans_terms.take(i as int),
        decreases r - i,
    {
        let current_round_flag = reduce(local[i]);
        let next_round_flag = reduce(next[(i + 1) % r]);
        let diff = field_sub(next_round_flag, current_round_flag);
        let c = field_mul(next_any_flag, diff);
        proof {
            let a = nx[(i + 1) % (r as int)];
            lemma_fmod_sub(a, l[i as int]);
            lemma_fmod_mul(sum(nx), a - l[i as int]);
            assert(c as int == trans_terms[i as int]);
            assert(ints(yield_constr.transition@.push(c)) =~= ints(yield_constr.transition@).push(
                c as int,
            ));
            assert(trans_terms.take(i + 1) =~= trans_terms.take(i as int).push(
                trans_terms[i as int],
            ));
            assert(ints(yield_constr.transition@.push(c)) =~= trans0 + trans_terms.take(i + 1));
        }
        yield_constr.constraint_transition(c);
        i = i + 1;
    }

    // A padding row is followed by padding rows only.
    let current_any_flag = flag_sum(local);
    let c = field_mul(next_any_flag, field_sub(current_any_flag, 1));
    proof {
        lemma_fmod_small(1);
        lemma_fmod_sub(sum(l), 1);
        lemma_fmod_mul(sum(nx), sum(l) - 1);
        assert(c as int == trans_terms[r as int]);
        assert(ints(yield_constr.transition@.push(c)) =~= ints(yield_constr.transition@).push(
            c as int,
        ));
        assert(trans_terms =~= trans_terms.take(r as int).push(trans_terms[r as int]));
        assert(ints(yield_constr.transition@.push(c)) =~= trans0 + trans_terms);
    }
    yield_constr.constraint_transition(c);
}

/// The gates that `eval_round_flags_recursively` appends at wire `b` and after.
pub open spec fn round_flag_gates(g: Seq<Gate>, b: int, local: Seq<usize>, next: Seq<usize>) -> bool {
    let r = local.len() as int;
    &&& g.len() == b + 2 * r + 5
    &&& g[b] == Gate::Constant(1)
    &&& g[b + 1] == Gate::Sub(local[0], b as usize)
    &&& g[b + 2] is AddMany && g[b + 2]->AddMany_0@ == next
    &&& forall|j: int|
        0 <= j < r ==> #[trigger] g[b + 3 + 2 * j] == Gate::Sub(next[(j + 1) % r], local[j])
            && g[b + 4 + 2 * j] == Gate::Mul((b + 2) as usize, (b + 3 + 2 * j) as usize)
    &&& g[b + 3 + 2 * r] is AddMany && g[b + 3 + 2 * r]->AddMany_0@ == local
    &&& g[b + 4 + 2 * r] == Gate::MulSub(
        (b + 2) as usize,
        (b + 3 + 2 * r) as usize,
        (b + 2) as usize,
    )
}

/// The wires that `eval_round_flags_recursively` hands to the sink's first-row
/// bucket, when it starts at wire `b`.
pub open spec fn first_row_wires(b: int, local: Seq<usize>) -> Seq<usize> {
    Seq::new(
        local.len(),
        |i: int|
            if i == 0 {
                (b + 1) as usize
            } else {
                local[i]
            },
    )
}

/// The wires that `eval_round_flags_recursively` hands to the sink's
/// transition bucket, when it starts at wire `b`.
pub open spec fn transition_wires(b: int, r: int) -> Seq<usize> {
    Seq::new((r + 1) as nat, |i: int| (b + 4 + 2 * i) as usize)
}

/// The circuit and the native evaluation agree: on every assignment, the
/// wires that `eval_round_flags_recursively` hands to the sink hold exactly the
/// terms that `eval_round_flags` computes from the values of the wires `local`
/// and `next`, so the two find the same terms zero and nonzero.
pub proof fn lemma_circuit_matches_native(
    g: Seq<Gate>,
    g0: Seq<Gate>,
    local: Seq<usize>,
    next: Seq<usize>,
    a: Seq<int>,
)
    requires
        local.len() == next.len(),
        local.len() >= 1,
        g0.len() + 2 * local.len() + 5 <= usize::MAX,
        forall|i: int| 0 <= i < local.len() ==> #[trigger] local[i] < g0.len(),
        forall|i: int| 0 <= i < next.len() ==> #[trigger] next[i] < g0.len(),
        g.subrange(0, g0.len() as int) == g0,
        round_flag_gates(g, g0.len() as int, local, next),
    ensures
        wires_at(wire_values(g, a), first_row_wires(g0.len() as int, local)) == first_row_terms(
            wires_at(wire_values(g0, a), local),
        ),
        wires_at(wire_values(g, a), transition_wires(g0.len() as int, local.len() as int))
            == transition_terms(wires_at(wire_values(g0, a), local), wires_at(wire_values(g0, a), next)),
{
    let b = g0.len() as int;
    let r = local.len() as int;
    let v = wire_values(g, a);
    let v0 = wire_values(g0, a);
    let lv = wires_at(v0, local);
    let nv = wires_at(v0, next);
    lemma_wire_values_len(g, a);
    lemma_wire_values_len(g0, a);
    lemma_wire_values_prefix(g0, g.skip(b), a);
    assert(g0 + g.skip(b) =~= g);
    assert(v.subrange(0, b) == v0);
    assert forall|x: usize| x < b implies wire(v, x) == wire(v0, x) by {
        assert(v0[x as int] == v.subrange(0, b)[x as int]);
    }
    assert forall|k: int, x: usize| b <= k < g.len() && x < b implies wire(v.take(k), x) == wire(v0, x)
    by {
        assert(v.take(k)[x as int] == v[x as int]);
    }
    assert forall|k: int| b <= k < g.len() implies wires_at(v.take(k), local) =~= lv && wires_at(v.take(k), next) =~= nv
    by {
        assert forall|i: int| 0 <= i < r implies wire(v.take(k), local[i]) == wire(v0, local[i]) by {}
        assert forall|i: int| 0 <= i < r implies wire(v.take(k), next[i]) == wire(v0, next[i]) by {}
    }
    lemma_fmod_small(1);
    // The constant one and the first-row terms.
    lemma_wire_value_at(g, a, b);
    lemma_wire_value_at(g, a, b + 1);
    assert(wire(v.take(b + 1), b as usize) == 1);
    lemma_fmod_sub(lv[0], 1);
    assert forall|i: int| 0 <= i < r implies #[trigger] wire(v, first_row_wires(b, local)[i])
        == first_row_terms(lv)[i] by {
        if i > 0 {
            lemma_fmod_small(lv[i]);
        }
    }
    assert(wires_at(v, first_row_wires(b, local)) =~= first_row_terms(lv));
    // The sums of the flags.
    lemma_wire_value_at(g, a, b + 2);
    let s = v[b + 2];
    assert(s == fmod(sum(nv)));
    lemma_wire_value_at(g, a, b + 3 + 2 * r);
    let c = v[b + 3 + 2 * r];
    assert(c == fmod(sum(lv)));
    // The cyclic advance.
    assert forall|j: int| 0 <= j < r implies #[trigger] wire(v, transition_wires(b, r)[j])
        == transition_terms(lv, nv)[j] by {
        assert(g[b + 3 + 2 * j] == Gate::Sub(next[(j + 1) % r], local[j]));
        lemma_wire_value_at(g, a, b + 3 + 2 * j);
        lemma_wire_value_at(g, a, b + 4 + 2 * j);
        let d = nv[(j + 1) % r] - lv[j];
        assert(v[b + 3 + 2 * j] == fmod(d));
        assert(v[b + 4 + 2 * j] == fmod(s * fmod(d)));
        lemma_fmod_mul(sum(nv), d);
    }
    // A padding row is never followed by an active one.
    lemma_wire_value_at(g, a, b + 4 + 2 * r);
    assert(v[b + 4 + 2 * r] == fmod(s * c - s));
    lemma_fmod_mul(sum(nv), sum(lv));
    lemma_fmod_bound(s * c);
    lemma_fmod_sub(s * c, sum(nv));
    lemma_fmod_small(fmod(s * c));
    assert(sum(nv) * sum(lv) - sum(nv) == sum(nv) * (sum(lv) - 1)) by (nonlinear_arith);
    assert(wires_at(v, transition_wires(b, r)) =~= transition_terms(lv, nv));
}

/// Emits into `builder` a circuit that computes the round-selector
/// constraints for the rows whose indicator columns the wires `local` and
/// `next` carry, and hands the resulting wires to the sink.
pub fn eval_round_flags_recursively(
    builder: &mut CircuitBuilder,
    local: &[usize],
    next: &[usize],
    yield_constr: &mut RecursiveConstraintConsumer,
)
    requires
        local@.len() == next@.len(),
        local@.len() >= 1,
        old(builder)@.len() + 2 * local@.len() + 5 <= usize::MAX,
        forall|i: int| 0 <= i < local@.len() ==> #[trigger] local@[i] < old(builder)@.len(),
        forall|i: int| 0 <= i < next@.len() ==> #[trigger] next@[i] < old(builder)@.len(),
    ensures
        final(builder)@.subrange(0, old(builder)@.len() as int) == old(builder)@,
        final(yield_constr).first_row@ == old(yield_constr).first_row@ + first_row_wires(
            old(builder)@.len() as int,
            local@,
        ),
        final(yield_constr).transition@ == old(yield_constr).transition@ + transition_wires(
            old(builder)@.len() as int,
            local@.len() as int,
        ),
        forall|a: Seq<int>|
            #![trigger wire_values(final(builder)@, a)]
            wires_at(
                wire_values(final(builder)@, a),
                first_row_wires(old(builder)@.len() as int, local@),
            ) == first_row_terms(wires_at(wire_values(old(builder)@, a), local@)),
        forall|a: Seq<int>|
            #![trigger wire_values(final(builder)@, a)]
            wires_at(
                wire_values(final(builder)@, a),
                transition_wires(old(builder)@.len() as int, local@.len() as int),
            ) == transition_terms(
                wires_at(wire_values(old(builder)@, a), local@),
                wires_at(wire_values(old(builder)@, a), next@),
            ),
{
    let r = local.len();
    let ghost g0 = builder@;
    let ghost b = g0.len() as int;
    let ghost first0 = yield_constr.first_row@;
    let ghost trans0 = yield_constr.transition@;
    let one = builder.one();

    // Initially, the flag of the first round is one and the others are zero.
    let step_0_minus_1 = builder.sub_wires(local[0], one);
    yield_constr.constraint_first_row(step_0_minus_1);
    let mut i: usize = 1;
    while i < r
        invariant
            1 <= i <= r,
            r == local@.len(),
            one == b,
            builder@ == g0.push(Gate::Constant(1)).push(Gate::Sub(local@[0], one)),
            yield_constr.first_row@ == first0 + first_row_wires(b, local@).take(i as int),
            yield_constr.transition@ == trans0,
        decreases r - i,
    {
        proof {
            assert(first_row_wires(b, local@).take(i + 1) =~= first_row_wires(b, local@).take(
                i as int,
            ).push(local@[i as int]));
        }
        yield_constr.constraint_first_row(local[i]);
        i = i + 1;
    }
    proof {
        assert(first_row_wires(b, local@).take(r as int) =~= first_row_wires(b, local@));
    }

    // The flags advance cyclically, unless the next row is padding.
    let next_any_flag = builder.add_many_wires(slice_to_vec(next));
    let ghost g2 = builder@;
    proof {
        assert(g2.subrange(0, b) =~= g0);
    }
    let mut i: usize = 0;
    while i < r
        invariant
            i <= r,
            r == local@.len(),
            r == next@.len(),
            next_any_flag == b + 2,
            b + 2 * r + 5 <= usize::MAX,
            g2.len() == b + 3,
            builder@.len() == b + 3 + 2 * i,
            builder@.subrange(0, b + 3) == g2,
            forall|j: int|
                0 <= j < i ==> #[trigger] builder@[b + 3 + 2 * j] == Gate::Sub(
                    next@[(j + 1) % (r as int)],
                    local@[j],
                ) && builder@[b + 4 + 2 * j] == Gate::Mul(
                    (b + 2) as usize,
                    (b + 3 + 2 * j) as usize,
                ),
            yield_constr.first_row@ == first0 + first_row_wires(b, local@),
            yield_constr.transition@ == trans0 + transition_wires(b, r as int).take(i as int),
        decreases r - i,
    {
        let current_round_flag = local[i];
        let next_round_flag = next[(i + 1) % r];
        let diff = builder.sub_wires(next_round_flag, current_round_flag);
        let constraint = builder.mul_wires(next_any_flag, diff);
        proof {
            assert(transition_wires(b, r as int).take(i + 1) =~= transition_wires(
                b,
                r as int,
            ).take(i as int).push(constraint));
            assert(builder@.subrange(0, b + 3) =~= g2);
        }
        yield_constr.constraint_transition(constraint);
        i = i + 1;
    }

    // A padding row is followed by padding rows only.
    let current_any_flag = builder.add_many_wires(slice_to_vec(local));
    let constraint = builder.mul_sub_wires(next_any_flag, current_any_flag, next_any_flag);
    yield_constr.constraint_transition(constraint);
    proof {
        let g = builder@;
        assert(transition_wires(b, r as int) =~= transition_wires(b, r as int).take(
            r as int,
        ).push(constraint));
        assert(g.subrange(0, b + 3) =~= g2);
        assert(g.subrange(0, b) =~= g2.subrange(0, b));
        assert(g[b] == g2[b]);
        assert(g[b + 1] == g2[b + 1]);
        assert(g[b + 2] == g2[b + 2]);
        assert forall|j: int| 0 <= j < r implies #[trigger] g[b + 3 + 2 * j] == Gate::Sub(
            next@[(j + 1) % (r as int)],
            local@[j],
        ) && g[b + 4 + 2 * j] == Gate::Mul((b + 2) as usize, (b + 3 + 2 * j) as usize) by {}
        assert(round_flag_gates(g, b, local@, next@));
        assert forall|a: Seq<int>|
            #![trigger wire_values(g, a)]
            wires_at(wire_values(g, a), first_row_wires(b, local@)) == first_row_terms(
                wires_at(wire_values(g0, a), local@),
            ) && wires_at(wire_values(g, a), transition_wires(b, r as int)) == transition_terms(
                wires_at(wire_values(g0, a), local@),
                wires_at(wire_values(g0, a), next@),
            ) by {
            lemma_circuit_matches_native(g, g0, local@, next@, a);
        }
    }
}

} // verus!
