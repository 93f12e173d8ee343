use round_flags::circuit::{CircuitBuilder, Gate};
use round_flags::consumer::{ConstraintConsumer, RecursiveConstraintConsumer};
use round_flags::field::{field_add, field_mul, field_sub, reduce, ORDER};
use round_flags::round_flags::{eval_round_flags, eval_round_flags_recursively};

fn native_terms(local: &[u64], next: &[u64]) -> (Vec<u64>, Vec<u64>) {
    let mut sink = ConstraintConsumer::new();
    eval_round_flags(local, next, &mut sink);
    (sink.first_row, sink.transition)
}

/// Builds the circuit on fresh input wires and evaluates it on `local ++ next`.
fn circuit_terms(local: &[u64], next: &[u64]) -> (Vec<u64>, Vec<u64>) {
    let r = local.len();
    let mut builder = CircuitBuilder::new();
    let mut local_wires = Vec::new();
    let mut next_wires = Vec::new();
    for i in 0..r {
        local_wires.push(builder.add_input(i));
    }
    for i in 0..r {
        next_wires.push(builder.add_input(r + i));
    }
    let mut sink = RecursiveConstraintConsumer::new();
    eval_round_flags_recursively(&mut builder, &local_wires, &next_wires, &mut sink);
    let mut inputs = local.to_vec();
    inputs.extend_from_slice(next);
    let values = builder.evaluate(&inputs);
    let first = sink.first_row.iter().map(|w| values[*w]).collect();
    let trans = sink.transition.iter().map(|w| values[*w]).collect();
    (first, trans)
}

fn all_zero(v: &[u64]) -> bool {
    v.iter().all(|x| *x == 0)
}

/// Whether a trace meets every constraint, and the first failing transition.
fn check_trace(trace: &[Vec<u64>]) -> (bool, Option<usize>) {
    let (first, _) = native_terms(&trace[0], &trace[0]);
    let mut failing = None;
    for k in 0..trace.len() - 1 {
        let (_, trans) = native_terms(&trace[k], &trace[k + 1]);
        if !all_zero(&trans) && failing.is_none() {
            failing = Some(k);
        }
    }
    (all_zero(&first), failing)
}

#[test]
fn field_operations_wrap_at_the_order() {
    assert_eq!(field_add(ORDER - 1, 2), 1);
    assert_eq!(field_add(3, 4), 7);
    assert_eq!(field_sub(0, 1), ORDER - 1);
    assert_eq!(field_sub(9, 4), 5);
    assert_eq!(field_mul(ORDER - 1, ORDER - 1), 1);
    assert_eq!(field_mul(1 << 32, 1 << 32), (1u64 << 32) - 1);
    assert_eq!(reduce(ORDER), 0);
    assert_eq!(reduce(ORDER + 5), 5);
}

#[test]
fn one_full_cycle_then_padding_is_accepted() {
    let trace = vec![
        vec![1, 0, 0],
        vec![0, 1, 0],
        vec![0, 0, 1],
        vec![1, 0, 0],
        vec![0, 0, 0],
        vec![0, 0, 0],
    ];
    assert_eq!(check_trace(&trace), (true, None));
}

#[test]
fn active_row_after_padding_is_rejected() {
    let trace = vec![vec![1, 0, 0], vec![0, 1, 0], vec![0, 0, 0], vec![1, 0, 0]];
    assert_eq!(check_trace(&trace), (true, Some(2)));
    let (_, trans) = native_terms(&trace[2], &trace[3]);
    assert_eq!(trans, vec![0, 0, 1, ORDER - 1]);
}

#[test]
fn first_row_must_be_round_zero() {
    let (first, _) = native_terms(&[1, 0, 0], &[0, 1, 0]);
    assert_eq!(first, vec![0, 0, 0]);
    let (first, _) = native_terms(&[0, 1, 0], &[0, 0, 1]);
    assert_eq!(first, vec![ORDER - 1, 1, 0]);
    let (first, _) = native_terms(&[1, 0, 1], &[0, 0, 0]);
    assert_eq!(first, vec![0, 0, 1]);
    let (first, _) = native_terms(&[0, 0, 0], &[0, 0, 0]);
    assert_eq!(first, vec![ORDER - 1, 0, 0]);
}

#[test]
fn each_perturbed_flag_is_caught() {
    let local = [0u64, 1, 0, 0];
    let good = [0u64, 0, 1, 0];
    let (_, trans) = native_terms(&local, &good);
    assert!(all_zero(&trans));
    // Move the next row's flag to each wrong round in turn.
    for wrong in [0usize, 1, 3] {
        let mut next = [0u64; 4];
        next[wrong] = 1;
        let (_, trans) = native_terms(&local, &next);
        assert_ne!(trans[1], 0, "round 1 advancing to {}", wrong);
        assert_eq!(trans[4], 0);
    }
}

#[test]
fn terms_have_the_stated_values() {
    let (first, trans) = native_terms(&[2, 0, 0], &[0, 3, 0]);
    assert_eq!(first, vec![1, 0, 0]);
    assert_eq!(trans, vec![3, 0, 0, 3]);
    let (_, trans) = native_terms(&[0, 0, 1], &[1, 0, 0]);
    assert_eq!(trans, vec![0, 0, 0, 0]);
    let (_, trans) = native_terms(&[0, 0, 1], &[0, 1, 0]);
    assert_eq!(trans, vec![1, 0, ORDER - 1, 0]);
}

#[test]
fn padding_after_padding_checks_nothing() {
    let (_, trans) = native_terms(&[5, 7, 123, ORDER - 1], &[0, 0, 0, 0]);
    assert_eq!(trans, vec![0, 0, 0, 0, 0]);
    let (_, trans) = native_terms(&[0, 0, 0, 0], &[0, 0, 0, 0]);
    assert_eq!(trans, vec![0, 0, 0, 0, 0]);
    let (_, trans) = native_terms(&[0, 0, 1, 0], &[0, 0, 0, 0]);
    assert_eq!(trans, vec![0, 0, 0, 0, 0]);
}

#[test]
fn padding_is_never_left() {
    let (_, trans) = native_terms(&[0, 0, 0], &[0, 1, 0]);
    assert_eq!(trans[3], ORDER - 1);
    let (_, trans) = native_terms(&[0, 0, 0], &[0, 0, 1]);
    assert_ne!(trans[3], 0);
    let trace = vec![vec![1, 0], vec![0, 0], vec![0, 1]];
    assert_eq!(check_trace(&trace), (true, Some(1)));
}

#[test]
fn single_round_permutation() {
    let (first, _) = native_terms(&[1], &[1]);
    assert_eq!(first, vec![0]);
    let (first, _) = native_terms(&[0], &[0]);
    assert_eq!(first, vec![ORDER - 1]);
    for (local, next) in [([1u64], [1u64]), ([1], [0]), ([0], [0])] {
        let (_, trans) = native_terms(&local, &next);
        assert_eq!(trans, vec![0, 0], "{:?} then {:?}", local, next);
    }
    let (_, trans) = native_terms(&[0], &[1]);
    assert_eq!(trans, vec![1, ORDER - 1]);
    let trace = vec![vec![1], vec![1], vec![1], vec![0], vec![0]];
    assert_eq!(check_trace(&trace), (true, None));
}

#[test]
fn circuit_matches_native_on_random_rows() {
    let mut state: u64 = 0x2545_f491_4f6c_dd1d;
    let mut next_random = move || {
        state ^= state << 13;
        state ^= state >> 7;
        state ^= state << 17;
        state
    };
    let mut cases = 0;
    for r in [1usize, 2, 8, 24] {
        for case in 0..30 {
            let mut row = |kind: u64| -> Vec<u64> {
                match kind {
                    // A one-hot row, at a random round.
                    0 => {
                        let k = (next_random() % r as u64) as usize;
                        (0..r).map(|i| (i == k) as u64).collect()
                    }
                    // Padding.
                    1 => vec![0; r],
                    // Random bits.
                    2 => (0..r).map(|_| next_random() & 1).collect(),
                    // Random field elements.
                    _ => (0..r).map(|_| next_random() % ORDER).collect(),
                }
            };
            let local = row(case % 4);
            let next = row((case / 4) % 4);
            let native = native_terms(&local, &next);
            let circuit = circuit_terms(&local, &next);
            assert_eq!(native, circuit, "r = {}, {:?} then {:?}", r, local, next);
            assert_eq!(native.0.len(), r);
            assert_eq!(native.1.len(), r + 1);
            cases += 1;
        }
    }
    assert!(cases >= 100);
}

#[test]
fn circuit_gates_compute_their_values() {
    let mut b = CircuitBuilder::new();
    let x = b.add_input(0);
    let y = b.add_input(1);
    let one = b.one();
    let d = b.sub_wires(x, y);
    let s = b.add_many_wires(vec![x, y, one]);
    let m = b.mul_wires(x, y);
    let ms = b.mul_sub_wires(x, y, one);
    let missing = b.add_input(7);
    assert_eq!(b.num_wires(), 8);
    assert!(matches!(b.gates[d], Gate::Sub(_, _)));
    let v = b.evaluate(&vec![3, 5]);
    assert_eq!(v[x], 3);
    assert_eq!(v[y], 5);
    assert_eq!(v[one], 1);
    assert_eq!(v[d], ORDER - 2);
    assert_eq!(v[s], 9);
    assert_eq!(v[m], 15);
    assert_eq!(v[ms], 14);
    assert_eq!(v[missing], 0);
}

#[test]
fn recursive_evaluation_appends_to_existing_circuit() {
    let mut b = CircuitBuilder::new();
    let w0 = b.add_input(0);
    let w1 = b.add_input(1);
    let before = b.num_wires();
    let mut sink = RecursiveConstraintConsumer::new();
    eval_round_flags_recursively(&mut b, &[w0, w1], &[w1, w0], &mut sink);
    assert_eq!(b.num_wires(), before + 2 * 2 + 5);
    assert_eq!(sink.first_row, vec![before + 1, w1]);
    assert_eq!(sink.transition, vec![before + 4, before + 6, before + 8]);
    // Rows [1, 0] then [0, 1]: a valid advance.
    let v = b.evaluate(&vec![1, 0]);
    assert!(sink.first_row.iter().all(|w| v[*w] == 0));
    assert!(sink.transition.iter().all(|w| v[*w] == 0));
}
