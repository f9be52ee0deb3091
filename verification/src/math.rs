//! Fixed-point helpers for share and yield accounting.
//!
//! Products of two `i128` values are formed in 256-bit arithmetic, which the
//! Soroban host provides through `soroban_sdk::I256`, so that `(a * b) / c`
//! never overflows in the middle even when the final result fits in `i128`.
use soroban_sdk::{Bytes, Env, I256};
use vstd::prelude::*;

use crate::errors::Error;

verus! {

/// The Soroban environment, carried through opaquely: the 256-bit arithmetic
/// below runs on its host.
#[verifier::external_type_specification]
#[verifier::external_body]
pub struct ExEnv(Env);

/// `2^127`, the magnitude of `i128::MIN`.
pub open spec fn pow2_127() -> int {
    0x8000_0000_0000_0000_0000_0000_0000_0000
}

/// Smallest value of a signed 256-bit integer, `-2^255`.
pub open spec fn i256_min() -> int {
    -(2 * pow2_127() * pow2_127())
}

/// Largest value of a signed 256-bit integer, `2^255 - 1`.
pub open spec fn i256_max() -> int {
    2 * pow2_127() * pow2_127() - 1
}

/// `x` fits in a signed 256-bit integer.
pub open spec fn in_i256(x: int) -> bool {
    i256_min() <= x <= i256_max()
}

/// `x` fits in an `i128`.
pub open spec fn in_i128(x: int) -> bool {
    i128::MIN <= x <= i128::MAX
}

/// The absolute value of `x`.
pub open spec fn abs_int(x: int) -> int {
    if x < 0 {
        -x
    } else {
        x
    }
}

/// Integer division that rounds toward zero, as Rust's `/` and the host's
/// 256-bit division do.
pub open spec fn trunc_div(a: int, b: int) -> int
    recommends
        b != 0,
{
    let q = abs_int(a) / abs_int(b);
    if (a < 0) == (b < 0) {
        q
    } else {
        -q
    }
}

/// `(a * b) / c`, rounded toward zero.
pub open spec fn spec_mul_div(a: int, b: int, c: int) -> int {
    trunc_div(a * b, c)
}

/// `(a * b + c - 1) / c`, rounded toward zero.
pub open spec fn spec_mul_div_ceil(a: int, b: int, c: int) -> int {
    trunc_div(a * b + c - 1, c)
}

/// The unsigned value of a big-endian byte string.
pub open spec fn be_nat(s: Seq<u8>) -> nat
    decreases s.len(),
{
    if s.len() == 0 {
        0
    } else {
        be_nat(s.drop_last()) * 256 + s.last() as nat
    }
}

/// The two's-complement value of a 32-byte big-endian string.
pub open spec fn i256_of_be_bytes(s: Seq<u8>) -> int {
    if s.len() > 0 && s[0] >= 128 {
        be_nat(s) - 4 * pow2_127() * pow2_127()
    } else {
        be_nat(s) as int
    }
}

/// A signed 256-bit integer held as its 32 big-endian two's-complement
/// bytes: the form in which it crosses to and from the host. Each wrapper
/// below rebuilds the host value with `I256::from_be_bytes` and reads its
/// result back with `I256::to_be_bytes`; their contracts take these bytes to
/// be the two's-complement encoding, as the host documents them.
pub struct WideInt {
    pub be_bytes: [u8; 32],
}

impl View for WideInt {
    type V = int;

    open spec fn view(&self) -> int {
        i256_of_be_bytes(self.be_bytes@)
    }
}

/// `I256::from_i128`: the 256-bit integer whose value is `value` (the
/// source sign-extends `value` into the high 128 bits).
#[verifier::external_body]
fn i256_from_i128(e: &Env, value: i128) -> (r: WideInt)
    ensures
        r@ == value as int,
{
    let mut be_bytes = [0u8; 32];
    I256::from_i128(e, value).to_be_bytes().copy_into_slice(&mut be_bytes);
    WideInt { be_bytes }
}

/// `I256::mul`: the product, which the host computes exactly; it traps on
/// overflow, which `requires` rules out.
#[verifier::external_body]
fn i256_mul(e: &Env, x: &WideInt, y: &WideInt) -> (r: WideInt)
    requires
        in_i256(x@ * y@),
    ensures
        r@ == x@ * y@,
{
    let xv = I256::from_be_bytes(e, &Bytes::from_array(e, &x.be_bytes));
    let yv = I256::from_be_bytes(e, &Bytes::from_array(e, &y.be_bytes));
    let mut be_bytes = [0u8; 32];
    xv.mul(&yv).to_be_bytes().copy_into_slice(&mut be_bytes);
    WideInt { be_bytes }
}

/// `I256::add`: the sum; the host traps on overflow, which `requires` rules out.
#[verifier::external_body]
fn i256_add(e: &Env, x: &WideInt, y: &WideInt) -> (r: WideInt)
    requires
        in_i256(x@ + y@),
    ensures
        r@ == x@ + y@,
{
    let xv = I256::from_be_bytes(e, &Bytes::from_array(e, &x.be_bytes));
    let yv = I256::from_be_bytes(e, &Bytes::from_array(e, &y.be_bytes));
    let mut be_bytes = [0u8; 32];
    xv.add(&yv).to_be_bytes().copy_into_slice(&mut be_bytes);
    WideInt { be_bytes }
}

/// `I256::sub`: the difference; the host traps on overflow, which `requires`
/// rules out.
#[verifier::external_body]
fn i256_sub(e: &Env, x: &WideInt, y: &WideInt) -> (r: WideInt)
    requires
        in_i256(x@ - y@),
    ensures
        r@ == x@ - y@,
{
    let xv = I256::from_be_bytes(e, &Bytes::from_array(e, &x.be_bytes));
    let yv = I256::from_be_bytes(e, &Bytes::from_array(e, &y.be_bytes));
    let mut be_bytes = [0u8; 32];
    xv.sub(&yv).to_be_bytes().copy_into_slice(&mut be_bytes);
    WideInt { be_bytes }
}

/// `I256::div`: the quotient rounded toward zero (the host's `checked_div`);
/// the host traps on a zero divisor and on `MIN / -1`, which `requires` rules out.
#[verifier::external_body]
fn i256_div(e: &Env, x: &WideInt, y: &WideInt) -> (r: WideInt)
    requires
        y@ != 0,
        !(x@ == i256_min() && y@ == -1),
    ensures
        r@ == trunc_div(x@, y@),
{
    let xv = I256::from_be_bytes(e, &Bytes::from_array(e, &x.be_bytes));
    let yv = I256::from_be_bytes(e, &Bytes::from_array(e, &y.be_bytes));
    let mut be_bytes = [0u8; 32];
    xv.div(&yv).to_be_bytes().copy_into_slice(&mut be_bytes);
    WideInt { be_bytes }
}

/// `I256::to_i128`: the value as an `i128` when it fits, `None` otherwise
/// (the source checks that the high 128 bits are the sign extension of the
/// low 128).
#[verifier::external_body]
fn i256_to_i128(e: &Env, x: &WideInt) -> (r: Option<i128>)
    ensures
        r == (if in_i128(x@) {
            Some(x@ as i128)
        } else {
            None
        }),
{
    I256::from_be_bytes(e, &Bytes::from_array(e, &x.be_bytes)).to_i128()
}

/// The product of two `i128` values, and that product plus any `i128`, lie
/// strictly inside the signed 256-bit range.
proof fn lemma_i128_product_in_i256(a: i128, b: i128)
    ensures
        -(pow2_127() * pow2_127()) <= a * b <= pow2_127() * pow2_127(),
{
    let bound: int = pow2_127();
    assert(-bound <= a <= bound);
    assert(-bound <= b <= bound);
    assert(-bound * bound <= a * b <= bound * bound) by (nonlinear_arith)
        requires
            -bound <= a <= bound,
            -bound <= b <= bound,
            bound > 0,
    ;
}

/// Guards an entry point against negative amounts: `Err(ZeroAmount)` when
/// `amount < 0`. Zero is permitted; callers that must reject zero as well
/// add their own check, so that "below minimum" and "non-negative required"
/// keep distinct codes.
pub fn assert_nonnegative(amount: i128) -> (r: Result<(), Error>)
    ensures
        r == (if amount < 0 {
            Err::<(), Error>(Error::ZeroAmount)
        } else {
            Ok(())
        }),
{
    if amount < 0 {
        Err(Error::ZeroAmount)
    } else {
        Ok(())
    }
}

/// `(a * b) / c` rounded toward zero, with the product formed in 256 bits so
/// that it cannot overflow. A zero divisor, or a quotient outside `i128`, is
/// excluded by `requires` (the host traps on both).
pub fn mul_div(e: &Env, a: i128, b: i128, c: i128) -> (r: i128)
    requires
        c != 0,
        in_i128(spec_mul_div(a as int, b as int, c as int)),
    ensures
        r == spec_mul_div(a as int, b as int, c as int),
{
    let a_q = i256_from_i128(e, a);
    let b_q = i256_from_i128(e, b);
    let c_q = i256_from_i128(e, c);
    proof {
        lemma_i128_product_in_i256(a, b);
    }
    let prod = i256_mul(e, &a_q, &b_q);
    let res = i256_div(e, &prod, &c_q);
    i256_to_i128(e, &res).unwrap()
}

/// `(a * b + c - 1) / c` rounded toward zero, formed in 256 bits: for a
/// non-negative product and a positive divisor this is `a * b / c` rounded
/// up. A zero divisor, or a quotient outside `i128`, is excluded by `requires`.
pub fn mul_div_ceil(e: &Env, a: i128, b: i128, c: i128) -> (r: i128)
    requires
        c != 0,
        in_i128(spec_mul_div_ceil(a as int, b as int, c as int)),
    ensures
        r == spec_mul_div_ceil(a as int, b as int, c as int),
{
    let a_q = i256_from_i128(e, a);
    let b_q = i256_from_i128(e, b);
    let c_q = i256_from_i128(e, c);
    let one = i256_from_i128(e, 1);
    proof {
        lemma_i128_product_in_i256(a, b);
    }
    let prod = i256_mul(e, &a_q, &b_q);
    let sum = i256_add(e, &prod, &c_q);
    let num = i256_sub(e, &sum, &one);
    let res = i256_div(e, &num, &c_q);
    i256_to_i128(e, &res).unwrap()
}

/// Multiplying and dividing by the same positive number gives back the
/// other factor exactly: at a 1:1 exchange rate nothing is lost to rounding.
pub proof fn lemma_mul_div_same_divisor(a: int, c: int)
    requires
        c > 0,
    ensures
        spec_mul_div(a, c, c) == a,
{
    assert(abs_int(a * c) == abs_int(a) * c) by (nonlinear_arith)
        requires
            c > 0,
    ;
    vstd::arithmetic::div_mod::lemma_div_by_multiple(abs_int(a), c);
    assert((a * c < 0) == (a < 0)) by (nonlinear_arith)
        requires
            c > 0,
    ;
}

/// For a non-negative product and a positive divisor, `mul_div` is floor
/// division: `c * q <= a * b < c * (q + 1)`.
pub proof fn lemma_mul_div_is_floor(a: int, b: int, c: int)
    requires
        c > 0,
        a * b >= 0,
    ensures
        c * spec_mul_div(a, b, c) <= a * b < c * (spec_mul_div(a, b, c) + 1),
        spec_mul_div(a, b, c) >= 0,
{
    let x = a * b;
    assert(spec_mul_div(a, b, c) == x / c);
    vstd::arithmetic::div_mod::lemma_fundamental_div_mod(x, c);
    vstd::arithmetic::div_mod::lemma_mod_bound(x, c);
    vstd::arithmetic::div_mod::lemma_div_pos_is_pos(x, c);
    assert(c * (x / c + 1) == c * (x / c) + c) by (nonlinear_arith);
}

/// For a non-negative product and a positive divisor, `mul_div_ceil` is
/// ceiling division: the least `q` with `a * b <= c * q`.
pub proof fn lemma_mul_div_ceil_is_ceiling(a: int, b: int, c: int)
    requires
        c > 0,
        a * b >= 0,
    ensures
        a * b <= c * spec_mul_div_ceil(a, b, c),
        c * (spec_mul_div_ceil(a, b, c) - 1) < a * b,
        spec_mul_div_ceil(a, b, c) >= 0,
{
    let x = a * b + c - 1;
    assert(spec_mul_div_ceil(a, b, c) == x / c);
    vstd::arithmetic::div_mod::lemma_fundamental_div_mod(x, c);
    vstd::arithmetic::div_mod::lemma_mod_bound(x, c);
    vstd::arithmetic::div_mod::lemma_div_pos_is_pos(x, c);
    assert(c * (x / c - 1) == c * (x / c) - c) by (nonlinear_arith);
}

/// Rounding up never gives less than rounding down, and at most one more;
/// the two agree exactly when `c` divides `a * b`.
pub proof fn lemma_mul_div_ceil_vs_floor(a: int, b: int, c: int)
    requires
        c > 0,
        a * b >= 0,
    ensures
        spec_mul_div(a, b, c) <= spec_mul_div_ceil(a, b, c) <= spec_mul_div(a, b, c) + 1,
        (spec_mul_div(a, b, c) == spec_mul_div_ceil(a, b, c)) <==> (a * b) % c == 0,
{
    lemma_mul_div_is_floor(a, b, c);
    lemma_mul_div_ceil_is_ceiling(a, b, c);
    let q = spec_mul_div(a, b, c);
    let r = spec_mul_div_ceil(a, b, c);
    assert(q <= r) by (nonlinear_arith)
        requires
            c * q <= a * b,
            a * b <= c * r,
            c * (r - 1) < a * b,
            a * b < c * (q + 1),
            c > 0,
    ;
    assert(r <= q + 1) by (nonlinear_arith)
        requires
            c * (r - 1) < a * b,
            a * b < c * (q + 1),
            c > 0,
    ;
    vstd::arithmetic::div_mod::lemma_fundamental_div_mod(a * b, c);
    assert((a * b) / c == q);
}

/// Splitting the numerator never gains from rounding: the floors of two
/// shares of a distribution add up to at most the floor of their sum, so
/// paying holders separately never pays out more than paying them together.
pub proof fn lemma_mul_div_split_rounds_down(s1: int, s2: int, y: int, t: int)
    requires
        t > 0,
        s1 >= 0,
        s2 >= 0,
        y >= 0,
    ensures
        spec_mul_div(s1, y, t) + spec_mul_div(s2, y, t) <= spec_mul_div(s1 + s2, y, t),
{
    assert(s1 * y >= 0) by (nonlinear_arith)
        requires
            s1 >= 0,
            y >= 0,
    ;
    assert(s2 * y >= 0) by (nonlinear_arith)
        requires
            s2 >= 0,
            y >= 0,
    ;
    assert((s1 + s2) * y == s1 * y + s2 * y) by (nonlinear_arith);
    lemma_mul_div_is_floor(s1, y, t);
    lemma_mul_div_is_floor(s2, y, t);
    lemma_mul_div_is_floor(s1 + s2, y, t);
    let q1 = spec_mul_div(s1, y, t);
    let q2 = spec_mul_div(s2, y, t);
    let q = spec_mul_div(s1 + s2, y, t);
    assert(q1 + q2 <= q) by (nonlinear_arith)
        requires
            t * q1 <= s1 * y,
            t * q2 <= s2 * y,
            (s1 + s2) * y < t * (q + 1),
            (s1 + s2) * y == s1 * y + s2 * y,
            t > 0,
    ;
}

/// The total of `mul_div(s, y, t)` over every holding in `holdings`.
pub open spec fn sum_of_payouts(holdings: Seq<int>, y: int, t: int) -> int
    decreases holdings.len(),
{
    if holdings.len() == 0 {
        0
    } else {
        sum_of_payouts(holdings.drop_last(), y, t) + spec_mul_div(holdings.last(), y, t)
    }
}

/// The sum of a sequence of integers.
pub open spec fn sum_of(holdings: Seq<int>) -> int
    decreases holdings.len(),
{
    if holdings.len() == 0 {
        0
    } else {
        sum_of(holdings.drop_last()) + holdings.last()
    }
}

/// Pro-rata payouts rounded down never exceed the amount distributed:
/// when non-negative holdings add up to at most `t`, their payouts of `y`
/// each computed as `holding * y / t` add up to at most `y`.
pub proof fn lemma_pro_rata_payouts_never_exceed_distribution(holdings: Seq<int>, y: int, t: int)
    requires
        t > 0,
        y >= 0,
        forall|i: int| 0 <= i < holdings.len() ==> holdings[i] >= 0,
        sum_of(holdings) <= t,
    ensures
        sum_of_payouts(holdings, y, t) <= spec_mul_div(sum_of(holdings), y, t),
        sum_of_payouts(holdings, y, t) <= y,
    decreases holdings.len(),
{
    lemma_sum_of_nonneg(holdings);
    if holdings.len() > 0 {
        let rest = holdings.drop_last();
        lemma_sum_of_nonneg(rest);
        assert(holdings.last() >= 0);
        lemma_pro_rata_payouts_never_exceed_distribution(rest, y, t);
        lemma_mul_div_split_rounds_down(sum_of(rest), holdings.last(), y, t);
    }
    assert(sum_of(holdings) * y <= t * y) by (nonlinear_arith)
        requires
            0 <= sum_of(holdings) <= t,
            y >= 0,
    ;
    assert(sum_of(holdings) * y >= 0) by (nonlinear_arith)
        requires
            0 <= sum_of(holdings),
            y >= 0,
    ;
    lemma_mul_div_is_floor(sum_of(holdings), y, t);
    let q = spec_mul_div(sum_of(holdings), y, t);
    assert(q <= y) by (nonlinear_arith)
        requires
            t * q <= sum_of(holdings) * y,
            sum_of(holdings) * y <= t * y,
            t > 0,
    ;
}

/// What rounding down leaves over: `sum_of(holdings) * y - t * payouts` lies
/// between zero and `t - 1` per holding.
proof fn lemma_pro_rata_remainder_bound(holdings: Seq<int>, y: int, t: int)
    requires
        t > 0,
        y >= 0,
        forall|i: int| 0 <= i < holdings.len() ==> holdings[i] >= 0,
    ensures
        0 <= sum_of(holdings) * y - t * sum_of_payouts(holdings, y, t),
        sum_of(holdings) * y - t * sum_of_payouts(holdings, y, t) <= holdings.len() * (t - 1),
    decreases holdings.len(),
{
    if holdings.len() > 0 {
        let rest = holdings.drop_last();
        let s = holdings.last();
        assert(s >= 0);
        assert forall|i: int| 0 <= i < rest.len() implies rest[i] >= 0 by {
            assert(rest[i] == holdings[i]);
        }
        lemma_pro_rata_remainder_bound(rest, y, t);
        assert(s * y >= 0) by (nonlinear_arith)
            requires
                s >= 0,
                y >= 0,
        ;
        lemma_mul_div_is_floor(s, y, t);
        let q = spec_mul_div(s, y, t);
        let a = sum_of(rest);
        let p = sum_of_payouts(rest, y, t);
        let n = rest.len() as int;
        assert(sum_of(holdings) * y == a * y + s * y) by (nonlinear_arith)
            requires
                sum_of(holdings) == a + s,
        ;
        assert(t * sum_of_payouts(holdings, y, t) == t * p + t * q) by (nonlinear_arith)
            requires
                sum_of_payouts(holdings, y, t) == p + q,
        ;
        assert(s * y - t * q <= t - 1) by (nonlinear_arith)
            requires
                s * y < t * (q + 1),
        ;
        assert(holdings.len() * (t - 1) == n * (t - 1) + (t - 1)) by (nonlinear_arith)
            requires
                holdings.len() == n + 1,
        ;
    }
}

/// When the holdings add up to exactly `t`, the pro-rata payouts of `y`,
/// each rounded down, lose less than one unit per holding: their total is
/// at most `y` and more than `y` minus the number of holdings.
pub proof fn lemma_pro_rata_payouts_lose_under_one_unit_each(holdings: Seq<int>, y: int, t: int)
    requires
        t > 0,
        y >= 0,
        forall|i: int| 0 <= i < holdings.len() ==> holdings[i] >= 0,
        sum_of(holdings) == t,
    ensures
        0 <= y - sum_of_payouts(holdings, y, t) < holdings.len(),
{
    lemma_pro_rata_payouts_never_exceed_distribution(holdings, y, t);
    lemma_pro_rata_remainder_bound(holdings, y, t);
    let p = sum_of_payouts(holdings, y, t);
    let n = holdings.len() as int;
    if n == 0 {
        assert(sum_of(holdings) == 0);
    }
    assert(y - p < n) by (nonlinear_arith)
        requires
            t * y - t * p <= n * (t - 1),
            n >= 1,
            t > 0,
    ;
}

proof fn lemma_sum_of_nonneg(holdings: Seq<int>)
    requires
        forall|i: int| 0 <= i < holdings.len() ==> holdings[i] >= 0,
    ensures
        sum_of(holdings) >= 0,
    decreases holdings.len(),
{
    if holdings.len() > 0 {
        let rest = holdings.drop_last();
        assert forall|i: int| 0 <= i < rest.len() implies rest[i] >= 0 by {
            assert(rest[i] == holdings[i]);
        }
        lemma_sum_of_nonneg(rest);
    }
}

} // verus!
