//! Arithmetic in the Goldilocks prime field, on canonical `u64` values.
use vstd::arithmetic::div_mod::{
    lemma_add_mod_noop,
    lemma_fundamental_div_mod,
    lemma_mod_add_multiples_vanish,
    lemma_mod_bound,
    lemma_mod_multiples_basic,
    lemma_mod_twice,
    lemma_mul_mod_noop_left,
    lemma_mul_mod_noop_right,
    lemma_small_mod,
    lemma_sub_mod_noop,
};
use vstd::prelude::*;

verus! {

/// The order of the field: 2^64 - 2^32 + 1.
pub const ORDER: u64 = 0xFFFF_FFFF_0000_0001;

/// The order of the field, as a mathematical integer.
pub open spec fn p() -> int {
    ORDER as int
}

/// The canonical representative of `x` in the field.
pub open spec fn fmod(x: int) -> int {
    x % p()
}

/// Whether `x` is the canonical representative of a field element.
pub open spec fn canonical(x: u64) -> bool {
    x < ORDER
}

/// The values of `s` as mathematical integers.
pub open spec fn ints(s: Seq<u64>) -> Seq<int> {
    s.map_values(|x: u64| x as int)
}

/// The sum of a sequence of integers.
pub open spec fn sum(s: Seq<int>) -> int
    decreases s.len(),
{
    if s.len() == 0 {
        0
    } else {
        sum(s.drop_last()) + s.last()
    }
}

/// A canonical representative lies in `[0, p)`.
pub proof fn lemma_fmod_bound(x: int)
    ensures
        0 <= fmod(x) < p(),
{
    lemma_mod_bound(x, p());
}

/// A value in `[0, p)` is its own representative.
pub proof fn lemma_fmod_small(x: int)
    requires
        0 <= x < p(),
    ensures
        fmod(x) == x,
{
    lemma_small_mod(x as nat, p() as nat);
}

/// Reducing the operands of a sum does not change its representative.
pub proof fn lemma_fmod_add(x: int, y: int)
    ensures
        fmod(fmod(x) + fmod(y)) == fmod(x + y),
        fmod(fmod(x) + y) == fmod(x + y),
        fmod(x + fmod(y)) == fmod(x + y),
{
    lemma_add_mod_noop(x, y, p());
    lemma_add_mod_noop(fmod(x), y, p());
    lemma_mod_twice(x, p());
    lemma_add_mod_noop(x, fmod(y), p());
    lemma_mod_twice(y, p());
}

/// Reducing the operands of a difference does not change its representative.
pub proof fn lemma_fmod_sub(x: int, y: int)
    ensures
        fmod(fmod(x) - fmod(y)) == fmod(x - y),
{
    lemma_sub_mod_noop(x, y, p());
}

/// Reducing the operands of a product does not change its representative.
pub proof fn lemma_fmod_mul(x: int, y: int)
    ensures
        fmod(fmod(x) * fmod(y)) == fmod(x * y),
{
    lemma_mul_mod_noop_left(x, fmod(y), p());
    lemma_mul_mod_noop_right(x, y, p());
}

/// Between `-p` and `p`, only zero is zero in the field.
pub proof fn lemma_fmod_zero_iff(x: int)
    requires
        -p() < x < p(),
    ensures
        fmod(x) == 0 <==> x == 0,
{
    if x >= 0 {
        lemma_fmod_small(x);
    } else {
        lemma_mod_add_multiples_vanish(x, p());
        lemma_fmod_small(p() + x);
    }
}

/// `x` is zero in the field exactly when `-x` is.
pub proof fn lemma_fmod_neg_zero(x: int)
    ensures
        fmod(-x) == 0 ==> fmod(x) == 0,
{
    if fmod(-x) == 0 {
        lemma_fundamental_div_mod(-x, p());
        let q = (-x) / p();
        assert(x == (-q) * p());
        lemma_mod_multiples_basic(-q, p());
    }
}

/// The canonical representative of `x`.
pub fn reduce(x: u64) -> (r: u64)
    ensures
        r as int == fmod(x as int),
        canonical(r),
{
    x % ORDER
}

/// The sum of two field elements.
pub fn field_add(a: u64, b: u64) -> (r: u64)
    requires
        canonical(a),
        canonical(b),
    ensures
        r as int == fmod(a + b),
        canonical(r),
{
    let s: u128 = a as u128 + b as u128;
    (s % (ORDER as u128)) as u64
}

/// The difference of two field elements.
pub fn field_sub(a: u64, b: u64) -> (r: u64)
    requires
        canonical(a),
        canonical(b),
    ensures
        r as int == fmod(a - b),
        canonical(r),
{
    if a >= b {
        proof {
            lemma_fmod_small(a - b);
        }
        a - b
    } else {
        proof {
            lemma_mod_add_multiples_vanish(a - b, p());
            lemma_fmod_small(p() + (a - b));
        }
        a + (ORDER - b)
    }
}

/// The product of two field elements.
pub fn field_mul(a: u64, b: u64) -> (r: u64)
    requires
        canonical(a),
        canonical(b),
    ensures
        r as int == fmod(a * b),
        canonical(r),
{
    let x: u128 = a as u128;
    let y: u128 = b as u128;
    assert(x * y < 0x1_0000_0000_0000_0000_0000_0000_0000_0000) by (nonlinear_arith)
        requires
            x < 0x1_0000_0000_0000_0000,
            y < 0x1_0000_0000_0000_0000,
    ;
    let m: u128 = x * y;
    (m % (ORDER as u128)) as u64
}

} // verus!
