//! Constant-product pricing: how much comes out for an exact input, and how
//! much must go in for an exact output. No fee is taken.
use vstd::prelude::*;
use vstd::arithmetic::div_mod::{lemma_fundamental_div_mod, lemma_mod_pos_bound};
use crate::types::{Balance, ExchangeError};

verus! {

/// `floor(input_amount * output_reserve / (input_reserve + input_amount))`.
pub open spec fn input_price(input_amount: int, input_reserve: int, output_reserve: int) -> int {
    (input_amount * output_reserve) / (input_reserve + input_amount)
}

/// `floor(input_reserve * output_amount / (output_reserve - output_amount)) + 1`:
/// the rounding is always in the pool's favour.
pub open spec fn output_price(output_amount: int, input_reserve: int, output_reserve: int) -> int {
    (input_reserve * output_amount) / (output_reserve - output_amount) + 1
}

/// The outcome of `get_input_price` on every input: with both reserves
/// non-empty the price always exists and fits.
pub open spec fn input_price_result(
    input_amount: int,
    input_reserve: int,
    output_reserve: int,
) -> Result<int, ExchangeError> {
    if input_reserve <= 0 || output_reserve <= 0 {
        Err(ExchangeError::InvalidReserve)
    } else {
        Ok(input_price(input_amount, input_reserve, output_reserve))
    }
}

/// The outcome of `get_output_price` on every input.
pub open spec fn output_price_result(
    output_amount: int,
    input_reserve: int,
    output_reserve: int,
) -> Result<int, ExchangeError> {
    if input_reserve <= 0 || output_reserve <= 0 {
        Err(ExchangeError::InvalidReserve)
    } else if output_amount >= output_reserve {
        Err(ExchangeError::InsufficientReserve)
    } else if output_price(output_amount, input_reserve, output_reserve) > u128::MAX {
        Err(ExchangeError::ArithmeticOverflow)
    } else {
        Ok(output_price(output_amount, input_reserve, output_reserve))
    }
}

/// Lifts a result over `Balance` to one over `int`.
pub open spec fn as_int_result(r: Result<Balance, ExchangeError>) -> Result<int, ExchangeError> {
    match r {
        Ok(v) => Ok(v as int),
        Err(e) => Err(e),
    }
}

/// Floor division brackets its numerator.
pub(crate) proof fn lemma_div_bounds(n: int, d: int)
    requires
        n >= 0,
        d > 0,
    ensures
        d * (n / d) <= n,
        n < d * (n / d) + d,
        n % d != 0 ==> d * (n / d) < n,
        0 <= n / d,
{
    lemma_fundamental_div_mod(n, d);
    lemma_mod_pos_bound(n, d);
    assert(0 <= n / d) by (nonlinear_arith)
        requires
            n == d * (n / d) + (n % d),
            0 <= n % d < d,
            d > 0,
            n >= 0,
    ;
}

/// Adds `x = xq * c + xr` to `acc = aq * c + ar` (remainders below `c`),
/// keeping the remainder below `c`; `None` when the quotient does not fit.
fn add_scaled(aq: u128, ar: u128, xq: u128, xr: u128, c: u128) -> (r: Option<(u128, u128)>)
    requires
        c > 0,
        ar < c,
        xr < c,
    ensures
        match r {
            Some((q, rem)) => q * c + rem == (aq * c + ar) + (xq * c + xr) && rem < c,
            None => aq + xq + (if ar + xr >= c { 1int } else { 0int }) > u128::MAX,
        },
{
    let carry: u128;
    let rem: u128;
    if ar >= c - xr {
        rem = ar - (c - xr);
        carry = 1;
    } else {
        rem = ar + xr;
        carry = 0;
    }
    let q = match aq.checked_add(xq) {
        Some(v) => v,
        None => return None,
    };
    let q = match q.checked_add(carry) {
        Some(v) => v,
        None => return None,
    };
    assert(rem + carry * c == ar + xr);
    assert(q * c + rem == (aq * c + ar) + (xq * c + xr)) by (nonlinear_arith)
        requires
            q == aq + xq + carry,
            rem + carry * c == ar + xr,
    ;
    Some((q, rem))
}

/// A sum `(aq * c + ar) + (xq * c + xr)` with remainders below `c` has at
/// least `aq + xq` whole `c`s, one more when the remainders carry; so does
/// anything at least as large.
proof fn lemma_sum_quotient(n: int, c: int, aq: int, ar: int, xq: int, xr: int)
    requires
        c > 0,
        aq >= 0,
        xq >= 0,
        0 <= ar < c,
        0 <= xr < c,
        n >= (aq * c + ar) + (xq * c + xr),
    ensures
        n / c >= aq + xq + (if ar + xr >= c { 1int } else { 0int }),
{
    let k = aq + xq + (if ar + xr >= c { 1int } else { 0int });
    assert(n >= k * c) by (nonlinear_arith)
        requires
            n >= (aq * c + ar) + (xq * c + xr),
            k == aq + xq + (if ar + xr >= c { 1int } else { 0int }),
            0 <= ar,
            0 <= xr,
    ;
    lemma_div_bounds(n, c);
    assert(n / c >= k) by (nonlinear_arith)
        requires
            n >= k * c,
            n < c * (n / c) + c,
            c > 0,
    ;
}

/// `(floor(a * b / c), (a * b) % c)` computed without a wider integer type:
/// exact whenever the quotient fits, `None` when it does not.
pub fn mul_div_rem(a: u128, b: u128, c: u128) -> (r: Option<(u128, u128)>)
    requires
        c > 0,
    ensures
        (a * b) / (c as int) <= u128::MAX ==> r == Some(
            (((a * b) / (c as int)) as u128, ((a * b) % (c as int)) as u128),
        ),
        (a * b) / (c as int) > u128::MAX ==> r is None,
{
    let ghost n: int = a * b;
    assert(n >= 0) by (nonlinear_arith)
        requires
            n == a * b,
    ;
    let mut acc_q: u128 = 0;
    let mut acc_r: u128 = 0;
    let mut x_q: u128 = a / c;
    let mut x_r: u128 = a % c;
    let mut rest: u128 = b;
    proof {
        lemma_fundamental_div_mod(a as int, c as int);
        lemma_mod_pos_bound(a as int, c as int);
    }
    while rest > 0
        invariant
            c > 0,
            acc_r < c,
            x_r < c,
            n == a * b,
            n >= 0,
            n == (acc_q * c + acc_r) + (x_q * c + x_r) * rest,
        decreases rest,
    {
        if rest % 2 == 1 {
            match add_scaled(acc_q, acc_r, x_q, x_r, c) {
                Some((q, r)) => {
                    proof {
                        assert(n == (q * c + r) + (x_q * c + x_r) * (rest - 1)) by (nonlinear_arith)
                            requires
                                n == (acc_q * c + acc_r) + (x_q * c + x_r) * rest,
                                q * c + r == (acc_q * c + acc_r) + (x_q * c + x_r),
                        ;
                    }
                    acc_q = q;
                    acc_r = r;
                },
                None => {
                    proof {
                        assert(n >= (acc_q * c + acc_r) + (x_q * c + x_r)) by (nonlinear_arith)
                            requires
                                n == (acc_q * c + acc_r) + (x_q * c + x_r) * rest,
                                rest >= 1,
                                x_q >= 0,
                                x_r >= 0,
                                c > 0,
                        ;
                        lemma_sum_quotient(n, c as int, acc_q as int, acc_r as int, x_q as int, x_r as int);
                    }
                    return None;
                },
            }
        }
        let half = rest / 2;
        proof {
            assert(n == (acc_q * c + acc_r) + (x_q * c + x_r) * (2 * half)) by (nonlinear_arith)
                requires
                    n == (acc_q * c + acc_r) + (x_q * c + x_r) * (rest - (rest % 2) as int),
                    rest == 2 * half + rest % 2,
            ;
        }
        if half > 0 {
            match add_scaled(x_q, x_r, x_q, x_r, c) {
                Some((q, r)) => {
                    proof {
                        assert(n == (acc_q * c + acc_r) + (q * c + r) * half) by (nonlinear_arith)
                            requires
                                n == (acc_q * c + acc_r) + (x_q * c + x_r) * (2 * half),
                                q * c + r == (x_q * c + x_r) + (x_q * c + x_r),
                        ;
                    }
                    x_q = q;
                    x_r = r;
                },
                None => {
                    proof {
                        assert(n >= (x_q * c + x_r) + (x_q * c + x_r)) by (nonlinear_arith)
                            requires
                                n == (acc_q * c + acc_r) + (x_q * c + x_r) * (2 * half),
                                half >= 1,
                                acc_r >= 0,
                                acc_q >= 0,
                                x_r >= 0,
                                x_q >= 0,
                                c > 0,
                        ;
                        lemma_sum_quotient(n, c as int, x_q as int, x_r as int, x_q as int, x_r as int);
                    }
                    return None;
                },
            }
        }
        rest = half;
    }
    proof {
        vstd::arithmetic::div_mod::lemma_fundamental_div_mod_converse(
            n,
            c as int,
            acc_q as int,
            acc_r as int,
        );
    }
    Some((acc_q, acc_r))
}

/// `floor(a * b / c)` computed without a wider integer type: exact whenever
/// the quotient fits, `None` when it does not.
pub fn mul_div(a: u128, b: u128, c: u128) -> (r: Option<u128>)
    requires
        c > 0,
    ensures
        (a * b) / (c as int) <= u128::MAX ==> r == Some(((a * b) / (c as int)) as u128),
        (a * b) / (c as int) > u128::MAX ==> r is None,
{
    match mul_div_rem(a, b, c) {
        Some((q, _)) => Some(q),
        None => None,
    }
}

/// Whether `q` shares of `input_reserve + input_amount` stay within
/// `input_amount * output_reserve`, decided without forming that sum.
fn within_product(q: u128, input_amount: u128, input_reserve: u128, output_reserve: u128) -> (r:
    bool)
    requires
        q < output_reserve,
    ensures
        r == (q * (input_reserve + input_amount) <= input_amount * output_reserve),
{
    let left = output_reserve - q;
    let ghost x: int = q * input_reserve;
    assert(q * (input_reserve + input_amount) <= input_amount * output_reserve <==> x
        <= input_amount * left) by (nonlinear_arith)
        requires
            x == q * input_reserve,
            left == output_reserve - q,
    ;
    assert(x >= 0) by (nonlinear_arith)
        requires
            x == q * input_reserve,
    ;
    proof {
        lemma_div_bounds(x, left as int);
    }
    match mul_div_rem(q, input_reserve, left) {
        Some((quotient, remainder)) => {
            proof {
                lemma_fundamental_div_mod(x, left as int);
                assert(quotient == x / (left as int) && remainder == x % (left as int));
                assert(x == quotient * left + remainder) by (nonlinear_arith)
                    requires
                        x == left * (x / (left as int)) + x % (left as int),
                        quotient == x / (left as int),
                        remainder == x % (left as int),
                ;
                if quotient < input_amount {
                    assert(x < input_amount * left) by (nonlinear_arith)
                        requires
                            x == quotient * left + remainder,
                            remainder < left,
                            quotient + 1 <= input_amount,
                    ;
                } else if quotient > input_amount {
                    assert(x > input_amount * left) by (nonlinear_arith)
                        requires
                            x == quotient * left + remainder,
                            remainder >= 0,
                            quotient >= input_amount + 1,
                            left > 0,
                    ;
                }
            }
            quotient < input_amount || (quotient == input_amount && remainder == 0)
        },
        None => {
            proof {
                assert(x > input_amount * left) by (nonlinear_arith)
                    requires
                        x >= left * (x / (left as int)),
                        x / (left as int) > u128::MAX,
                        input_amount <= u128::MAX,
                        left > 0,
                ;
            }
            false
        },
    }
}

/// `floor(input_amount * output_reserve / (input_reserve + input_amount))`
/// for a denominator that may not fit: the largest `q` below
/// `output_reserve` whose multiple of the denominator stays within the
/// numerator, found by bisection.
fn wide_input_price(input_amount: u128, input_reserve: u128, output_reserve: u128) -> (r: u128)
    requires
        input_reserve > 0,
        output_reserve > 0,
    ensures
        r == input_price(input_amount as int, input_reserve as int, output_reserve as int),
{
    let ghost d: int = input_reserve + input_amount;
    let ghost n: int = input_amount * output_reserve;
    assert(n >= 0) by (nonlinear_arith)
        requires
            n == input_amount * output_reserve,
    ;
    let mut lo: u128 = 0;
    let mut hi: u128 = output_reserve;
    assert(hi * d > n) by (nonlinear_arith)
        requires
            hi == output_reserve,
            d == input_reserve + input_amount,
            n == input_amount * output_reserve,
            input_reserve > 0,
            output_reserve > 0,
    ;
    while hi - lo > 1
        invariant
            lo < hi <= output_reserve,
            lo * d <= n,
            hi * d > n,
            d == input_reserve + input_amount,
            n == input_amount * output_reserve,
        decreases hi - lo,
    {
        let mid = lo + (hi - lo) / 2;
        if within_product(mid, input_amount, input_reserve, output_reserve) {
            lo = mid;
        } else {
            hi = mid;
        }
    }
    proof {
        assert(n - lo * d < d) by (nonlinear_arith)
            requires
                hi == lo + 1,
                hi * d > n,
        ;
        vstd::arithmetic::div_mod::lemma_fundamental_div_mod_converse(n, d, lo as int, n - lo * d);
    }
    lo
}

/// Price for selling exactly `input_amount` against the two reserves, for
/// any amount; fails only when a reserve is empty.
pub fn get_input_price(input_amount: Balance, input_reserve: Balance, output_reserve: Balance) -> (r:
    Result<Balance, ExchangeError>)
    ensures
        as_int_result(r) == input_price_result(
            input_amount as int,
            input_reserve as int,
            output_reserve as int,
        ),
{
    if input_reserve == 0 || output_reserve == 0 {
        return Err(ExchangeError::InvalidReserve);
    }
    proof {
        lemma_input_price_keeps_product(
            input_amount as int,
            input_reserve as int,
            output_reserve as int,
        );
    }
    match input_reserve.checked_add(input_amount) {
        Some(denominator) => match mul_div(input_amount, output_reserve, denominator) {
            Some(v) => Ok(v),
            None => Ok(wide_input_price(input_amount, input_reserve, output_reserve)),
        },
        None => Ok(wide_input_price(input_amount, input_reserve, output_reserve)),
    }
}

/// Price for buying exactly `output_amount` against the two reserves.
/// Fails when a reserve is empty, when the output reserve cannot cover the
/// amount, or when the price does not fit.
pub fn get_output_price(output_amount: Balance, input_reserve: Balance, output_reserve: Balance) -> (r:
    Result<Balance, ExchangeError>)
    ensures
        as_int_result(r) == output_price_result(
            output_amount as int,
            input_reserve as int,
            output_reserve as int,
        ),
{
    if input_reserve == 0 || output_reserve == 0 {
        return Err(ExchangeError::InvalidReserve);
    }
    if output_amount >= output_reserve {
        return Err(ExchangeError::InsufficientReserve);
    }
    let quotient = match mul_div(input_reserve, output_amount, output_reserve - output_amount) {
        Some(v) => v,
        None => return Err(ExchangeError::ArithmeticOverflow),
    };
    match quotient.checked_add(1) {
        Some(v) => Ok(v),
        None => Err(ExchangeError::ArithmeticOverflow),
    }
}

/// An exact-input trade never empties the output reserve, and the product of
/// the reserves after the trade is at least the product before it: the pool
/// never loses value.
pub proof fn lemma_input_price_keeps_product(
    input_amount: int,
    input_reserve: int,
    output_reserve: int,
)
    requires
        input_amount >= 0,
        input_reserve > 0,
        output_reserve > 0,
    ensures
        0 <= input_price(input_amount, input_reserve, output_reserve) < output_reserve,
        (input_reserve + input_amount) * (output_reserve - input_price(
            input_amount,
            input_reserve,
            output_reserve,
        )) >= input_reserve * output_reserve,
{
    let d = input_reserve + input_amount;
    let n = input_amount * output_reserve;
    let r = n / d;
    assert(n >= 0) by (nonlinear_arith)
        requires
            n == input_amount * output_reserve,
            input_amount >= 0,
            output_reserve > 0,
    ;
    lemma_div_bounds(n, d);
    assert(r < output_reserve) by (nonlinear_arith)
        requires
            d * r <= n,
            n == input_amount * output_reserve,
            d == input_reserve + input_amount,
            input_reserve > 0,
            output_reserve > 0,
            d > 0,
    ;
    assert(d * (output_reserve - r) >= input_reserve * output_reserve) by (nonlinear_arith)
        requires
            d * r <= input_amount * output_reserve,
            d == input_reserve + input_amount,
    ;
}

/// Buying back, at exact output, what an exact-input trade gave never costs
/// more than that trade's input: rounding never favours the trader. It is
/// stated where the exact-input division leaves a remainder; where it divides
/// evenly, the rounding-up `+ 1` makes the exact-output price one unit more.
pub proof fn lemma_round_trip_favours_pool(
    input_amount: int,
    input_reserve: int,
    output_reserve: int,
)
    requires
        input_amount >= 0,
        input_reserve > 0,
        output_reserve > 0,
        (input_amount * output_reserve) % (input_reserve + input_amount) != 0,
    ensures
        input_price(input_amount, input_reserve, output_reserve) < output_reserve,
        output_price(
            input_price(input_amount, input_reserve, output_reserve),
            input_reserve,
            output_reserve,
        ) <= input_amount,
{
    lemma_input_price_keeps_product(input_amount, input_reserve, output_reserve);
    let d = input_reserve + input_amount;
    let n = input_amount * output_reserve;
    let r = n / d;
    assert(n >= 0) by (nonlinear_arith)
        requires
            n == input_amount * output_reserve,
            input_amount >= 0,
            output_reserve > 0,
    ;
    lemma_div_bounds(n, d);
    let e = output_reserve - r;
    let m = input_reserve * r;
    assert(m < input_amount * e) by (nonlinear_arith)
        requires
            d * r < n,
            n == input_amount * output_reserve,
            d == input_reserve + input_amount,
            e == output_reserve - r,
            m == input_reserve * r,
    ;
    assert(m >= 0) by (nonlinear_arith)
        requires
            m == input_reserve * r,
            input_reserve > 0,
            r >= 0,
    ;
    lemma_div_bounds(m, e);
    assert(m / e < input_amount) by (nonlinear_arith)
        requires
            e * (m / e) <= m,
            m < input_amount * e,
            e > 0,
    ;
}

} // verus!
