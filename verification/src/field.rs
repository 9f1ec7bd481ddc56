//! Arithmetic modulo the group order `r` of BLS12-381, as a mathematical model.
//!
//! Every value that the protocols handle (a scalar, or a point of one of the
//! three groups, which are cyclic of order `r`) is modelled by an integer in
//! `[0, r)`: the scalar itself, or the exponent of the point to the base of the
//! group's fixed generator. All contracts of the crate are statements about
//! these numbers, and all of them have the shape `reduce(e)` for an integer
//! expression `e`, so that proofs can calculate over the integers and reduce once.

use vstd::arithmetic::div_mod::*;
use vstd::arithmetic::mul::*;
use vstd::arithmetic::power::*;
use vstd::prelude::*;

verus! {

/// Two to the power 64: the weight of one limb.
pub open spec fn radix() -> int {
    0x1_0000_0000_0000_0000
}

/// The prime `r`, the order of the scalar field and of the three groups,
/// `0x73eda753299d7d483339d80809a1d80553bda402fffe5bfeffffffff00000001`,
/// written by its four 64-bit limbs, least significant first.
pub open spec fn modulus() -> int {
    0xffff_ffff_0000_0001 + radix() * (0x53bd_a402_fffe_5bfe + radix() * (0x3339_d808_09a1_d805
        + radix() * 0x73ed_a753_299d_7d48))
}

/// The representative in `[0, r)` of an integer.
pub open spec fn reduce(x: int) -> int {
    x % modulus()
}

pub open spec fn field_add(a: int, b: int) -> int {
    reduce(a + b)
}

pub open spec fn field_sub(a: int, b: int) -> int {
    reduce(a - b)
}

pub open spec fn field_mul(a: int, b: int) -> int {
    reduce(a * b)
}

pub open spec fn field_neg(a: int) -> int {
    reduce(-a)
}

pub open spec fn field_pow(a: int, k: nat) -> int {
    reduce(pow(a, k))
}

/// `a` and `b` stand for the same element.
pub open spec fn congruent(a: int, b: int) -> bool {
    reduce(a) == reduce(b)
}

/// The sum `f(0) + ... + f(n - 1)`.
pub open spec fn sum_to(f: spec_fn(int) -> int, n: nat) -> int
    decreases n,
{
    if n == 0 {
        0
    } else {
        sum_to(f, (n - 1) as nat) + f(n - 1)
    }
}

pub proof fn lemma_modulus_large()
    ensures
        modulus() > 0xffff_ffff_ffff_ffff,
{
    assert(radix() * (0x53bd_a402_fffe_5bfe + radix() * (0x3339_d808_09a1_d805 + radix()
        * 0x73ed_a753_299d_7d48)) >= radix()) by (nonlinear_arith);
}

pub proof fn lemma_reduce_small(x: int)
    requires
        0 <= x < modulus(),
    ensures
        reduce(x) == x,
{
    lemma_modulus_large();
    lemma_small_mod(x as nat, modulus() as nat);
}

/// Reducing an operand first changes nothing: the rules by which every
/// calculation of this crate moves `reduce` outward.
pub proof fn lemma_reduce_arith(x: int, y: int)
    ensures
        reduce(reduce(x)) == reduce(x),
        reduce(reduce(x) + y) == reduce(x + y),
        reduce(x + reduce(y)) == reduce(x + y),
        reduce(reduce(x) + reduce(y)) == reduce(x + y),
        reduce(reduce(x) - y) == reduce(x - y),
        reduce(x - reduce(y)) == reduce(x - y),
        reduce(reduce(x) - reduce(y)) == reduce(x - y),
        reduce(reduce(x) * y) == reduce(x * y),
        reduce(x * reduce(y)) == reduce(x * y),
        reduce(reduce(x) * reduce(y)) == reduce(x * y),
        reduce(-reduce(x)) == reduce(-x),
{
    let m = modulus();
    lemma_modulus_large();
    lemma_mod_bound(x, m);
    lemma_mod_bound(y, m);
    lemma_mod_twice(x, m);
    lemma_mod_twice(y, m);
    lemma_add_mod_noop(x, y, m);
    lemma_add_mod_noop(x % m, y, m);
    lemma_add_mod_noop(x, y % m, m);
    lemma_sub_mod_noop(x, y, m);
    lemma_sub_mod_noop(x % m, y, m);
    lemma_sub_mod_noop(x, y % m, m);
    lemma_mul_mod_noop_general(x, y, m);
    lemma_sub_mod_noop(0, x, m);
    lemma_sub_mod_noop(0, x % m, m);
}

pub proof fn lemma_congruent_add(a: int, b: int, c: int, d: int)
    requires
        congruent(a, b),
        congruent(c, d),
    ensures
        congruent(a + c, b + d),
{
    lemma_reduce_arith(a, c);
    lemma_reduce_arith(b, d);
}

pub proof fn lemma_congruent_mul(a: int, b: int, c: int, d: int)
    requires
        congruent(a, b),
        congruent(c, d),
    ensures
        congruent(a * c, b * d),
{
    lemma_reduce_arith(a, c);
    lemma_reduce_arith(b, d);
}

/// Sums of termwise equal functions are equal.
pub proof fn lemma_sum_equal(f: spec_fn(int) -> int, g: spec_fn(int) -> int, n: nat)
    requires
        forall|i: int| 0 <= i < n ==> #[trigger] f(i) == g(i),
    ensures
        sum_to(f, n) == sum_to(g, n),
    decreases n,
{
    if n > 0 {
        lemma_sum_equal(f, g, (n - 1) as nat);
    }
}

/// Sums of termwise congruent functions are congruent.
pub proof fn lemma_sum_congruent(f: spec_fn(int) -> int, g: spec_fn(int) -> int, n: nat)
    requires
        forall|i: int| 0 <= i < n ==> congruent(#[trigger] f(i), g(i)),
    ensures
        congruent(sum_to(f, n), sum_to(g, n)),
    decreases n,
{
    if n > 0 {
        lemma_sum_congruent(f, g, (n - 1) as nat);
        lemma_congruent_add(
            sum_to(f, (n - 1) as nat),
            sum_to(g, (n - 1) as nat),
            f(n - 1),
            g(n - 1),
        );
    }
}

/// A sum of zeros is zero.
pub proof fn lemma_sum_zero(f: spec_fn(int) -> int, n: nat)
    requires
        forall|i: int| 0 <= i < n ==> #[trigger] f(i) == 0,
    ensures
        sum_to(f, n) == 0,
    decreases n,
{
    if n > 0 {
        lemma_sum_zero(f, (n - 1) as nat);
    }
}

/// A constant factor moves out of a sum.
pub proof fn lemma_sum_scale(f: spec_fn(int) -> int, c: int, n: nat)
    ensures
        sum_to(|i: int| c * f(i), n) == c * sum_to(f, n),
    decreases n,
{
    let g = |i: int| c * f(i);
    if n > 0 {
        lemma_sum_scale(f, c, (n - 1) as nat);
        lemma_mul_is_distributive_add(c, sum_to(f, (n - 1) as nat), f(n - 1));
        assert(sum_to(g, n) == sum_to(g, (n - 1) as nat) + g(n - 1));
    } else {
        assert(sum_to(g, n) == 0);
    }
}

/// The sum of a sum of two functions.
pub proof fn lemma_sum_add(f: spec_fn(int) -> int, g: spec_fn(int) -> int, n: nat)
    ensures
        sum_to(|i: int| f(i) + g(i), n) == sum_to(f, n) + sum_to(g, n),
    decreases n,
{
    let h = |i: int| f(i) + g(i);
    if n > 0 {
        lemma_sum_add(f, g, (n - 1) as nat);
        assert(sum_to(h, n) == sum_to(h, (n - 1) as nat) + h(n - 1));
    } else {
        assert(sum_to(h, n) == 0);
    }
}

/// A sum in which only the term at `k` is not zero.
pub proof fn lemma_sum_single(f: spec_fn(int) -> int, n: nat, k: int)
    requires
        0 <= k < n,
        forall|i: int| 0 <= i < n && i != k ==> #[trigger] f(i) == 0,
    ensures
        sum_to(f, n) == f(k),
    decreases n,
{
    if n - 1 == k {
        lemma_sum_zero(f, (n - 1) as nat);
    } else {
        lemma_sum_single(f, (n - 1) as nat, k);
    }
}

/// The order of two finite sums can be exchanged.
pub proof fn lemma_sum_exchange(h: spec_fn(int, int) -> int, m: nat, n: nat)
    ensures
        sum_to(|i: int| sum_to(|j: int| h(i, j), n), m) == sum_to(
            |j: int| sum_to(|i: int| h(i, j), m),
            n,
        ),
    decreases m,
{
    let rows = |i: int| sum_to(|j: int| h(i, j), n);
    let cols = |j: int| sum_to(|i: int| h(i, j), m);
    if m == 0 {
        assert(sum_to(rows, m) == 0);
        assert forall|j: int| 0 <= j < n implies #[trigger] cols(j) == 0 by {
            assert(sum_to(|i: int| h(i, j), 0) == 0);
        }
        lemma_sum_zero(cols, n);
    } else {
        let m1 = (m - 1) as nat;
        lemma_sum_exchange(h, m1, n);
        let cols1 = |j: int| sum_to(|i: int| h(i, j), m1);
        let last = |j: int| h(m - 1, j);
        assert(sum_to(rows, m) == sum_to(rows, m1) + rows(m - 1));
        assert(rows(m - 1) == sum_to(last, n));
        assert(sum_to(rows, m1) == sum_to(cols1, n));
        lemma_sum_add(cols1, last, n);
        assert forall|j: int| 0 <= j < n implies #[trigger] cols(j) == cols1(j) + last(j) by {
            let col = |i: int| h(i, j);
            assert(sum_to(col, m) == sum_to(col, m1) + col(m - 1));
        }
        lemma_sum_equal(cols, |j: int| cols1(j) + last(j), n);
    }
}

} // verus!
