use vstd::prelude::*;

use vstd::arithmetic::power2::pow2;

use crate::error::ErrorCode;

verus! {

/// Scale of fractional parameters (one whole is one million).
pub const PERCENTAGE_PRECISION: u128 = 1_000_000;

pub const PERCENTAGE_PRECISION_U64: u64 = 1_000_000;

/// Token units in one whole quote token.
pub const QUOTE_PRECISION: u128 = 1_000_000;

pub const QUOTE_PRECISION_U64: u64 = 1_000_000;

/// Scale of oracle prices.
pub const PRICE_PRECISION: u128 = 1_000_000;

pub const PRICE_PRECISION_U64: u64 = 1_000_000;

/// Shares of a pool of `total_shares` over `vault_balance` tokens that
/// `amount` tokens are worth, rounded down; an empty vault counts one share
/// per token.
pub open spec fn shares_for_amount(amount: int, total_shares: int, vault_balance: int) -> int {
    if vault_balance > 0 {
        amount * total_shares / vault_balance
    } else {
        amount
    }
}

/// Whether `vault_amount_to_if_shares` succeeds on these values: the share
/// count fits in 128 bits, and an empty vault has no shares.
pub open spec fn shares_for_amount_ok(amount: int, total_shares: int, vault_balance: int) -> bool {
    if vault_balance > 0 {
        amount * total_shares / vault_balance <= u128::MAX
    } else {
        total_shares == 0
    }
}

/// Whether `if_shares_to_vault_amount` succeeds on these values.
pub open spec fn amount_for_shares_ok(n_shares: int, total_shares: int) -> bool {
    n_shares <= total_shares
}

/// Tokens that `n_shares` of a pool of `total_shares` over `vault_balance`
/// tokens are worth, rounded down.
pub open spec fn amount_for_shares(n_shares: int, total_shares: int, vault_balance: int) -> int {
    if total_shares > 0 {
        vault_balance * n_shares / total_shares
    } else {
        0
    }
}

/// Converts a token amount into pool shares, rounding down. An empty vault is
/// only accepted for a pool without shares.
pub fn vault_amount_to_if_shares(amount: u64, total_shares: u128, vault_balance: u64) -> (r: Result<
    u128,
    ErrorCode,
>)
    ensures
        r is Ok <==> shares_for_amount_ok(amount as int, total_shares as int, vault_balance as int),
        r matches Ok(v) ==> v == shares_for_amount(
            amount as int,
            total_shares as int,
            vault_balance as int,
        ),
        r matches Err(e) ==> e == ErrorCode::DriftError,
{
    if vault_balance == 0 {
        if total_shares == 0 {
            return Ok(amount as u128);
        }
        return Err(ErrorCode::DriftError);
    }
    let v = vault_balance as u128;
    // amount * total / v == amount * (total / v) + amount * (total % v) / v
    let whole = total_shares / v;
    let part = total_shares % v;
    proof {
        lemma_split_quotient(amount as int, total_shares as int, v as int);
    }
    let partial = (amount as u128) * part / v;
    match (amount as u128).checked_mul(whole) {
        None => Err(ErrorCode::DriftError),
        Some(w) => match w.checked_add(partial) {
            None => Err(ErrorCode::DriftError),
            Some(x) => Ok(x),
        },
    }
}

/// `a * t / v` splits over the quotient and the remainder of `t / v`.
proof fn lemma_split_quotient(a: int, t: int, v: int)
    requires
        0 <= a <= u64::MAX,
        t >= 0,
        0 < v <= u64::MAX,
    ensures
        a * (t % v) <= u128::MAX,
        a * t / v == a * (t / v) + a * (t % v) / v,
        a * (t / v) >= 0,
        a * (t % v) / v >= 0,
{
    vstd::arithmetic::div_mod::lemma_fundamental_div_mod(t, v);
    let q = t / v;
    let m = t % v;
    assert(a * m <= u128::MAX) by (nonlinear_arith)
        requires
            0 <= a <= u64::MAX,
            0 <= m < v <= u64::MAX,
    ;
    assert(a * t == (a * q) * v + a * m) by (nonlinear_arith)
        requires
            t == v * q + m,
    ;
    vstd::arithmetic::div_mod::lemma_fundamental_div_mod(a * m, v);
    assert(a * t == (a * q + (a * m) / v) * v + (a * m) % v) by (nonlinear_arith)
        requires
            a * t == (a * q) * v + a * m,
            a * m == v * ((a * m) / v) + (a * m) % v,
    ;
    vstd::arithmetic::div_mod::lemma_fundamental_div_mod_converse(
        a * t,
        v,
        a * q + (a * m) / v,
        (a * m) % v,
    );
    assert(a * q >= 0) by (nonlinear_arith)
        requires
            a >= 0,
            q >= 0,
    ;
    assert(a * m >= 0) by (nonlinear_arith)
        requires
            a >= 0,
            m >= 0,
    ;
    vstd::arithmetic::div_mod::lemma_div_pos_is_pos(a * m, v);
}

/// Converts pool shares into their token value, rounding down. Fails where
/// more shares are asked for than exist.
pub fn if_shares_to_vault_amount(n_shares: u128, total_shares: u128, vault_balance: u64) -> (r:
    Result<u64, ErrorCode>)
    ensures
        r is Ok <==> amount_for_shares_ok(n_shares as int, total_shares as int),
        r matches Ok(v) ==> v == amount_for_shares(
            n_shares as int,
            total_shares as int,
            vault_balance as int,
        ),
        r matches Err(e) ==> e == ErrorCode::DriftError,
{
    if n_shares > total_shares {
        return Err(ErrorCode::DriftError);
    }
    if total_shares == 0 {
        return Ok(0);
    }
    Ok(scale_by_fraction(vault_balance, n_shares, total_shares))
}

/// `v * n / t`, rounded down, for a fraction `n / t` of at most one: long
/// division over the bits of `v`, so that no intermediate value needs more
/// than 128 bits.
pub fn scale_by_fraction(v: u64, n: u128, t: u128) -> (r: u64)
    requires
        0 < t,
        n <= t,
    ensures
        r == v as int * n as int / t as int,
{
    proof {
        vstd::arithmetic::power2::lemma2_to64();
        vstd::arithmetic::power2::lemma2_to64_rest();
    }
    // q * t + r == p * n, where p is the prefix of the bits of v read so far
    let mut q: u128 = 0;
    let mut r: u128 = 0;
    let mut rest: u64 = v;
    let mut pw: u64 = 0x8000_0000_0000_0000;
    let mut i: u64 = 0;
    let ghost mut p: int = 0;
    while i < 64
        invariant
            i <= 64,
            i < 64 ==> pw == pow2((63 - i) as nat),
            p * pow2((64 - i) as nat) + rest == v,
            0 <= rest < pow2((64 - i) as nat),
            0 <= p <= v,
            0 < t,
            n <= t,
            q * t + r == p * n,
            0 <= r < t,
            q <= p,
            pow2(0) == 1,
        decreases 64 - i,
    {
        proof {
            vstd::arithmetic::power2::lemma_pow2_unfold((64 - i) as nat);
        }
        let ghost acc = q as int * t as int + r as int;
        let ghost q0 = q as int;
        let ghost r0 = r as int;
        if r >= t - r {
            r = r - (t - r);
            q = 2 * q + 1;
        } else {
            r = r + r;
            q = 2 * q;
        }
        proof {
            let qi = q as int;
            let ri = r as int;
            let ti = t as int;
            assert(qi * ti + ri == 2 * acc) by (nonlinear_arith)
                requires
                    (qi == 2 * q0 + 1 && ri == 2 * r0 - ti) || (qi == 2 * q0 && ri == 2 * r0),
                    acc == q0 * ti + r0,
            ;
        }
        let bit = rest >= pw;
        if bit {
            rest = rest - pw;
            let ghost q1 = q as int;
            let ghost r1 = r as int;
            if r >= t - n {
                r = r - (t - n);
                q = q + 1;
            } else {
                r = r + n;
            }
            proof {
                let qi = q as int;
                let ri = r as int;
                let ti = t as int;
                assert(qi * ti + ri == q1 * ti + r1 + n) by (nonlinear_arith)
                    requires
                        (qi == q1 + 1 && ri == r1 + n - ti) || (qi == q1 && ri == r1 + n),
                ;
            }
        }
        let ghost b: int = if bit {
            1
        } else {
            0
        };
        proof {
            let w = pow2((63 - i) as nat) as int;
            let old_p = p;
            p = 2 * p + b;
            assert(q * t + r == p * n) by (nonlinear_arith)
                requires
                    q * t + r == 2 * acc + b * n,
                    acc == old_p * n,
                    p == 2 * old_p + b,
            ;
            assert(p * w + rest == v) by (nonlinear_arith)
                requires
                    old_p * (2 * w) + rest + b * w == v,
                    p == 2 * old_p + b,
            ;
            assert(p <= v) by (nonlinear_arith)
                requires
                    p * w + rest == v,
                    w >= 1,
                    rest >= 0,
                    p >= 0,
            ;
            assert(q <= p) by (nonlinear_arith)
                requires
                    q * t + r == p * n,
                    r >= 0,
                    n <= t,
                    t > 0,
                    p >= 0,
            ;
        }
        if i < 63 {
            proof {
                vstd::arithmetic::power2::lemma_pow2_unfold((63 - i) as nat);
            }
            pw = pw / 2;
        }
        i = i + 1;
    }
    proof {
        assert(i == 64);
        assert(pow2((64 - i) as nat) == 1);
        assert(p * pow2((64 - i) as nat) == p);
        assert(p == v);
        vstd::arithmetic::div_mod::lemma_fundamental_div_mod_converse(
            v as int * n as int,
            t as int,
            q as int,
            r as int,
        );
    }
    q as u64
}

/// `ceil(a / b)` for a positive `b`.
pub open spec fn div_ceil(a: int, b: int) -> int {
    if a % b == 0 {
        a / b
    } else {
        a / b + 1
    }
}

/// Division rounding up; `None` for a zero divisor.
pub fn safe_div_ceil(a: u128, b: u128) -> (r: Option<u128>)
    ensures
        r is Some <==> b > 0,
        r matches Some(v) ==> v == div_ceil(a as int, b as int),
{
    if b == 0 {
        return None;
    }
    let q = a / b;
    if a % b > 0 {
        proof {
            vstd::arithmetic::div_mod::lemma_fundamental_div_mod(a as int, b as int);
            assert(q + 1 <= u128::MAX) by (nonlinear_arith)
                requires
                    a == b * q + a % b,
                    a % b > 0,
                    b > 0,
                    a <= u128::MAX,
            ;
        }
        Some(q + 1)
    } else {
        Some(q)
    }
}

/// `10^k`.
pub open spec fn pow10(k: nat) -> int
    decreases k,
{
    if k == 0 {
        1
    } else {
        10 * pow10((k - 1) as nat)
    }
}

/// `10^k` as a `u128`; `None` where it does not fit (from `k = 39` on).
pub fn checked_pow10(k: u128) -> (r: Option<u128>)
    ensures
        r is Some <==> pow10(k as nat) <= u128::MAX,
        r matches Some(v) ==> v == pow10(k as nat),
{
    let mut acc: u128 = 1;
    let mut i: u128 = 0;
    while i < k
        invariant
            i <= k,
            acc == pow10(i as nat),
        decreases k - i,
    {
        if acc > u128::MAX / 10 {
            proof {
                lemma_pow10_monotone((i + 1) as nat, k as nat);
            }
            return None;
        }
        acc = acc * 10;
        i = i + 1;
    }
    Some(acc)
}

/// `10^k` grows with `k`.
pub proof fn lemma_pow10_monotone(a: nat, b: nat)
    requires
        a <= b,
    ensures
        1 <= pow10(a) <= pow10(b),
    decreases b,
{
    if b == 0 {
    } else if a == b {
        lemma_pow10_monotone(0, (b - 1) as nat);
    } else {
        lemma_pow10_monotone(a, (b - 1) as nat);
    }
}

} // verus!
