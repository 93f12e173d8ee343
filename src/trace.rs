//! What the round-selector constraints accept, row by row and over a trace.
use vstd::arithmetic::div_mod::{
    lemma_add_mod_noop,
    lemma_mod_bound,
    lemma_mod_multiples_basic,
    lemma_small_mod,
};
use crate::field::{
    fmod,
    lemma_fmod_bound,
    lemma_fmod_mul,
    lemma_fmod_neg_zero,
    lemma_fmod_small,
    lemma_fmod_zero_iff,
    p,
    sum,
};
use crate::round_flags::{first_row_terms, transition_terms};
use vstd::prelude::*;

verus! {

/// The row whose only set flag is that of round `k`, among `r` rounds.
pub open spec fn one_hot(r: nat, k: int) -> Seq<int> {
    Seq::new(r, |i: int| if i == k { 1int } else { 0int })
}

/// Whether every entry of `s` is zero.
pub open spec fn all_zero(s: Seq<int>) -> bool {
    forall|i: int| 0 <= i < s.len() ==> #[trigger] s[i] == 0
}

/// Whether every entry of `s` is a field element in canonical form.
pub open spec fn in_field(s: Seq<int>) -> bool {
    forall|i: int| 0 <= i < s.len() ==> 0 <= #[trigger] s[i] < p()
}

/// Whether every entry of `s` is zero or one.
pub open spec fn bits(s: Seq<int>) -> bool {
    forall|i: int| 0 <= i < s.len() ==> #[trigger] s[i] == 0 || s[i] == 1
}

/// Whether a trace of indicator rows meets every round-selector constraint:
/// the first-row terms vanish on row zero and the transition terms vanish on
/// every pair of adjacent rows.
pub open spec fn trace_accepted(trace: Seq<Seq<int>>) -> bool {
    &&& trace.len() >= 1
    &&& trace[0].len() >= 1
    &&& forall|k: int| 0 <= k < trace.len() ==> #[trigger] trace[k].len() == trace[0].len()
    &&& all_zero(first_row_terms(trace[0]))
    &&& forall|k: int|
        0 <= k < trace.len() - 1 ==> all_zero(#[trigger] transition_terms(trace[k], trace[k + 1]))
}

/// The first-row terms all vanish exactly when the row is `[1, 0, ..., 0]`.
pub proof fn lemma_first_row_one_hot(local: Seq<int>)
    requires
        local.len() >= 1,
        in_field(local),
    ensures
        all_zero(first_row_terms(local)) <==> local == one_hot(local.len(), 0),
{
    let t = first_row_terms(local);
    assert forall|i: int| 0 <= i < local.len() implies (#[trigger] t[i] == 0 <==> local[i]
        == one_hot(local.len(), 0)[i]) by {
        if i == 0 {
            lemma_fmod_zero_iff(local[0] - 1);
        } else {
            lemma_fmod_small(local[i]);
        }
    }
    if all_zero(t) {
        assert forall|i: int| 0 <= i < local.len() implies local[i] == one_hot(local.len(), 0)[i] by {
            assert(t[i] == 0);
        }
        assert(local =~= one_hot(local.len(), 0));
    }
}

/// When the next row is active (its flags sum to one), the transition term of
/// round `i` vanishes exactly when the next row's flag of round `i + 1`
/// (cyclically) equals this row's flag of round `i`.
pub proof fn lemma_cyclic_advance(local: Seq<int>, next: Seq<int>, i: int)
    requires
        local.len() == next.len(),
        local.len() >= 1,
        in_field(local),
        in_field(next),
        fmod(sum(next)) == 1,
        0 <= i < local.len(),
    ensures
        transition_terms(local, next)[i] == 0 <==> next[(i + 1) % (local.len() as int)]
            == local[i],
{
    let r = local.len() as int;
    let d = next[(i + 1) % r] - local[i];
    lemma_fmod_mul(sum(next), d);
    lemma_fmod_bound(d);
    lemma_fmod_mul(1, fmod(d));
    lemma_fmod_small(fmod(d));
    lemma_fmod_small(1);
    lemma_fmod_zero_iff(d);
}

/// A row whose flags sum to something other than zero in the field cannot
/// follow an all-zero row: the last transition term is then nonzero.
pub proof fn lemma_padding_precedes_no_active(local: Seq<int>, next: Seq<int>)
    requires
        local.len() == next.len(),
        local.len() >= 1,
        all_zero(local),
        fmod(sum(next)) != 0,
    ensures
        transition_terms(local, next)[local.len() as int] != 0,
{
    lemma_sum_all_zero(local);
    assert(sum(next) * (sum(local) - 1) == -sum(next));
    lemma_fmod_neg_zero(sum(next));
}

/// After an all-zero row, every transition term vanishes, whatever the
/// current row holds.
pub proof fn lemma_padding_checks_nothing(local: Seq<int>, next: Seq<int>)
    requires
        local.len() == next.len(),
        all_zero(next),
    ensures
        all_zero(transition_terms(local, next)),
{
    lemma_sum_all_zero(next);
    lemma_fmod_small(0);
}

/// An all-zero row sums to zero.
pub proof fn lemma_sum_all_zero(s: Seq<int>)
    requires
        all_zero(s),
    ensures
        sum(s) == 0,
    decreases s.len(),
{
    if s.len() > 0 {
        lemma_sum_all_zero(s.drop_last());
    }
}

/// A row of zeros and ones sums to at most its length, and to zero only when
/// every entry is zero.
pub proof fn lemma_sum_bits(s: Seq<int>)
    requires
        bits(s),
    ensures
        0 <= sum(s) <= s.len(),
        sum(s) == 0 ==> all_zero(s),
    decreases s.len(),
{
    if s.len() > 0 {
        lemma_sum_bits(s.drop_last());
        if sum(s) == 0 {
            assert forall|i: int| 0 <= i < s.len() implies #[trigger] s[i] == 0 by {
                if i < s.len() - 1 {
                    assert(s.drop_last()[i] == s[i]);
                }
            }
        }
    }
}

/// In an accepted trace of zeros and ones, once a row is all zero, every
/// later row is all zero too.
pub proof fn lemma_padding_persists(trace: Seq<Seq<int>>, k: int, j: int)
    requires
        trace_accepted(trace),
        trace[0].len() < p(),
        forall|m: int| 0 <= m < trace.len() ==> bits(#[trigger] trace[m]),
        0 <= k <= j < trace.len(),
        all_zero(trace[k]),
    ensures
        all_zero(trace[j]),
    decreases j - k,
{
    if j > k {
        lemma_padding_persists(trace, k, j - 1);
        let local = trace[j - 1];
        let next = trace[j];
        assert(all_zero(transition_terms(trace[j - 1], trace[(j - 1) + 1])));
        assert(transition_terms(local, next)[local.len() as int] == 0);
        if fmod(sum(next)) != 0 {
            lemma_padding_precedes_no_active(local, next);
        }
        lemma_sum_bits(next);
        lemma_fmod_small(sum(next));
    }
}

/// A one-hot row sums to one.
pub proof fn lemma_sum_one_hot(r: nat, k: int)
    requires
        0 <= k < r,
    ensures
        sum(one_hot(r, k)) == 1,
    decreases r,
{
    if k < r - 1 {
        assert(one_hot(r, k).drop_last() =~= one_hot((r - 1) as nat, k));
        lemma_sum_one_hot((r - 1) as nat, k);
    } else {
        assert(all_zero(one_hot(r, k).drop_last()));
        lemma_sum_all_zero(one_hot(r, k).drop_last());
    }
}

/// The trace of `len` rows over `r` rounds whose first `n` rows run through the
/// rounds cyclically from round zero and whose other rows are padding.
pub open spec fn cycle_then_padding(r: nat, n: int, len: nat) -> Seq<Seq<int>> {
    Seq::new(
        len,
        |k: int|
            if k < n {
                one_hot(r, k % (r as int))
            } else {
                Seq::new(r, |i: int| 0int)
            },
    )
}

/// A trace that runs through the rounds cyclically from round zero and then
/// pads with all-zero rows meets every round-selector constraint.
pub proof fn lemma_cycle_then_padding_accepted(r: nat, n: int, len: nat)
    requires
        r >= 1,
        1 <= n <= len,
    ensures
        trace_accepted(cycle_then_padding(r, n, len)),
{
    let t = cycle_then_padding(r, n, len);
    let ri = r as int;
    lemma_fmod_small(0);
    lemma_fmod_small(1);
    assert(0int % ri == 0) by (nonlinear_arith)
        requires
            ri >= 1,
    ;
    assert(all_zero(first_row_terms(t[0])));
    assert forall|k: int| 0 <= k < t.len() - 1 implies all_zero(
        #[trigger] transition_terms(t[k], t[k + 1]),
    ) by {
        let local = t[k];
        let next = t[k + 1];
        let terms = transition_terms(local, next);
        if k + 1 < n {
            let a = k % ri;
            let b = (k + 1) % ri;
            lemma_mod_range(k, ri);
            lemma_mod_range(k + 1, ri);
            lemma_mod_step(k, ri);
            lemma_sum_one_hot(r, b);
            lemma_sum_one_hot(r, a);
            assert forall|i: int| 0 <= i < terms.len() implies #[trigger] terms[i] == 0 by {
                if i < ri {
                    lemma_mod_step(i, ri);
                    lemma_mod_range(i + 1, ri);
                    lemma_small_mod_int(i, ri);
                    assert(next[(i + 1) % ri] == local[i]);
                }
            }
        } else {
            assert(all_zero(next));
            lemma_padding_checks_nothing(local, next);
        }
    }
}

/// `x % m` lies in `[0, m)`.
proof fn lemma_mod_range(x: int, m: int)
    requires
        m >= 1,
    ensures
        0 <= x % m < m,
{
}

/// `i` in `[0, m)` is its own remainder.
proof fn lemma_small_mod_int(i: int, m: int)
    requires
        0 <= i < m,
    ensures
        i % m == i,
{
    lemma_small_mod(i as nat, m as nat);
}

/// The remainder of `x + 1` is the remainder of `x` stepped cyclically.
proof fn lemma_mod_step(x: int, m: int)
    requires
        m >= 1,
    ensures
        (x + 1) % m == if x % m + 1 == m {
            0
        } else {
            x % m + 1
        },
{
    lemma_add_mod_noop(x, 1, m);
    lemma_mod_bound(x, m);
    lemma_mod_bound(x + 1, m);
    if m > 1 {
        lemma_small_mod(1, m as nat);
        if x % m + 1 < m {
            lemma_small_mod((x % m + 1) as nat, m as nat);
        } else {
            lemma_mod_multiples_basic(1, m);
        }
    }
}

} // verus!
