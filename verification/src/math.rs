use vstd::prelude::*;

use crate::errors::PerpetualsError;

verus! {

/// Decimal places of a round's reward rate.
pub const RATE_DECIMALS: u8 = 9;
/// Scale factor corresponding to `RATE_DECIMALS`.
pub const RATE_POWER: u128 = 1_000_000_000;
/// Decimal places of a basis-point figure.
pub const BPS_DECIMALS: u8 = 4;
/// Scale factor corresponding to `BPS_DECIMALS`.
pub const BPS_POWER: u128 = 10_000;

/// `10^n`.
pub open spec fn pow10(n: nat) -> int
    decreases n,
{
    if n == 0 {
        1
    } else {
        10 * pow10((n - 1) as nat)
    }
}

pub proof fn lemma_pow10_positive(n: nat)
    ensures
        pow10(n) >= 1,
    decreases n,
{
    if n > 0 {
        lemma_pow10_positive((n - 1) as nat);
    }
}

pub proof fn lemma_pow10_nondecreasing(m: nat, n: nat)
    requires
        m <= n,
    ensures
        pow10(m) <= pow10(n),
    decreases n,
{
    if m < n {
        lemma_pow10_nondecreasing(m, (n - 1) as nat);
        lemma_pow10_positive((n - 1) as nat);
    }
}

/// Adds two `u64` amounts; fails loudly instead of wrapping.
pub fn checked_add(a: u64, b: u64) -> (r: Result<u64, PerpetualsError>)
    ensures
        r is Ok <==> a + b <= u64::MAX,
        r is Ok ==> r->Ok_0 == a + b,
        r is Err ==> r->Err_0 == PerpetualsError::ArithmeticOverflow,
{
    match a.checked_add(b) {
        Some(v) => Ok(v),
        None => Err(PerpetualsError::ArithmeticOverflow),
    }
}

/// Subtracts `b` from `a`; fails loudly instead of wrapping below zero.
pub fn checked_sub(a: u64, b: u64) -> (r: Result<u64, PerpetualsError>)
    ensures
        r is Ok <==> b <= a,
        r is Ok ==> r->Ok_0 == a - b,
        r is Err ==> r->Err_0 == PerpetualsError::ArithmeticUnderflow,
{
    match a.checked_sub(b) {
        Some(v) => Ok(v),
        None => Err(PerpetualsError::ArithmeticUnderflow),
    }
}

/// Adds two signed timestamps; fails loudly on overflow in either direction.
pub fn checked_add_i64(a: i64, b: i64) -> (r: Result<i64, PerpetualsError>)
    ensures
        r is Ok <==> i64::MIN <= a + b <= i64::MAX,
        r is Ok ==> r->Ok_0 == a + b,
        r is Err ==> r->Err_0 == PerpetualsError::ArithmeticOverflow,
{
    match a.checked_add(b) {
        Some(v) => Ok(v),
        None => Err(PerpetualsError::ArithmeticOverflow),
    }
}

/// Subtracts two signed timestamps; fails loudly on overflow in either
/// direction.
pub fn checked_sub_i64(a: i64, b: i64) -> (r: Result<i64, PerpetualsError>)
    ensures
        r is Ok <==> i64::MIN <= a - b <= i64::MAX,
        r is Ok ==> r->Ok_0 == a - b,
        r is Err ==> r->Err_0 == PerpetualsError::ArithmeticUnderflow,
{
    match a.checked_sub(b) {
        Some(v) => Ok(v),
        None => Err(PerpetualsError::ArithmeticUnderflow),
    }
}

/// Adds two signed sizes; fails loudly on overflow in either direction.
pub fn checked_add_i32(a: i32, b: i32) -> (r: Result<i32, PerpetualsError>)
    ensures
        r is Ok <==> i32::MIN <= a + b <= i32::MAX,
        r is Ok ==> r->Ok_0 == a + b,
        r is Err ==> r->Err_0 == PerpetualsError::ArithmeticOverflow,
{
    match a.checked_add(b) {
        Some(v) => Ok(v),
        None => Err(PerpetualsError::ArithmeticOverflow),
    }
}

/// Multiplies two signed sizes; fails loudly on overflow in either direction.
pub fn checked_mul_i32(a: i32, b: i32) -> (r: Result<i32, PerpetualsError>)
    ensures
        r is Ok <==> i32::MIN <= a * b <= i32::MAX,
        r is Ok ==> r->Ok_0 == a * b,
        r is Err ==> r->Err_0 == PerpetualsError::ArithmeticOverflow,
{
    match a.checked_mul(b) {
        Some(v) => Ok(v),
        None => Err(PerpetualsError::ArithmeticOverflow),
    }
}

/// Multiplies two wide unsigned amounts; fails loudly instead of wrapping.
pub fn checked_mul_u128(a: u128, b: u128) -> (r: Result<u128, PerpetualsError>)
    ensures
        r is Ok <==> a * b <= u128::MAX,
        r is Ok ==> r->Ok_0 == a * b,
        r is Err ==> r->Err_0 == PerpetualsError::ArithmeticOverflow,
{
    match a.checked_mul(b) {
        Some(v) => Ok(v),
        None => Err(PerpetualsError::ArithmeticOverflow),
    }
}

/// Divides two wide unsigned amounts, rounding toward zero; fails loudly on a
/// zero divisor.
pub fn checked_div_u128(a: u128, b: u128) -> (r: Result<u128, PerpetualsError>)
    ensures
        r is Ok <==> b != 0,
        r is Ok ==> r->Ok_0 == a / b,
        r is Err ==> r->Err_0 == PerpetualsError::DivisionByZero,
{
    match a.checked_div(b) {
        Some(v) => Ok(v),
        None => Err(PerpetualsError::DivisionByZero),
    }
}

/// Narrows a wide amount back to a token amount; fails loudly when it does
/// not fit.
pub fn checked_as_u64(v: u128) -> (r: Result<u64, PerpetualsError>)
    ensures
        r is Ok <==> v <= u64::MAX,
        r is Ok ==> r->Ok_0 == v,
        r is Err ==> r->Err_0 == PerpetualsError::ArithmeticOverflow,
{
    if v <= u64::MAX as u128 {
        Ok(v as u64)
    } else {
        Err(PerpetualsError::ArithmeticOverflow)
    }
}

/// `10^n` as a `u128`, or `None` when it does not fit.
pub fn checked_pow10_u128(n: u32) -> (r: Option<u128>)
    ensures
        r is Some <==> pow10(n as nat) <= u128::MAX,
        r is Some ==> r->0 == pow10(n as nat),
{
    let mut acc: u128 = 1;
    let mut i: u32 = 0;
    while i < n
        invariant
            i <= n,
            acc == pow10(i as nat),
        decreases n - i,
    {
        proof {
            lemma_pow10_positive(i as nat);
        }
        match acc.checked_mul(10) {
            Some(v) => {
                acc = v;
            },
            None => {
                proof {
                    lemma_pow10_nondecreasing((i + 1) as nat, n as nat);
                }
                return None;
            },
        }
        i = i + 1;
    }
    Some(acc)
}

// The decimal layer: a fixed-point quantity is a mantissa together with a
// decimal exponent. Multiplication and division rescale their result to a
// caller-chosen exponent, rounding toward zero.

/// Value of `(a·10^ea) × (b·10^eb)` expressed at exponent `eo`, rounded
/// toward zero.
pub open spec fn decimal_mul_value(a: u64, ea: int, b: u64, eb: int, eo: int) -> int {
    if ea + eb - eo >= 0 {
        a * b * pow10((ea + eb - eo) as nat)
    } else {
        (a * b) as int / pow10((eo - (ea + eb)) as nat)
    }
}

/// Exactly when `checked_decimal_mul` succeeds: the zero shortcut applies, or
/// the exponent bookkeeping stays within `i32`, the needed power of ten is
/// representable, and the rescaled product fits a `u64`.
pub open spec fn decimal_mul_fits(a: u64, ea: int, b: u64, eb: int, eo: int) -> bool {
    a == 0 || b == 0 || {
        &&& i32::MIN <= ea + eb <= i32::MAX
        &&& i32::MIN <= ea + eb - eo <= i32::MAX
        &&& (ea + eb - eo < 0 ==> pow10((eo - (ea + eb)) as nat) <= u128::MAX)
        &&& decimal_mul_value(a, ea, b, eb, eo) <= u64::MAX
    }
}

/// A rescaled product of token amounts is never negative.
pub proof fn lemma_decimal_mul_value_nonneg(a: u64, ea: int, b: u64, eb: int, eo: int)
    ensures
        0 <= decimal_mul_value(a, ea, b, eb, eo),
{
    if ea + eb - eo >= 0 {
        let p = (ea + eb - eo) as nat;
        lemma_pow10_positive(p);
        assert(0 <= a * b * pow10(p)) by (nonlinear_arith)
            requires
                a >= 0,
                b >= 0,
                pow10(p) >= 1,
        ;
    } else {
        let p = (eo - (ea + eb)) as nat;
        lemma_pow10_positive(p);
        assert(0 <= a * b) by (nonlinear_arith)
            requires
                a >= 0,
                b >= 0,
        ;
        vstd::arithmetic::div_mod::lemma_div_pos_is_pos((a * b) as int, pow10(p));
    }
}

/// A product with a zero mantissa is zero at every exponent.
pub proof fn lemma_decimal_mul_zero(a: u64, ea: int, b: u64, eb: int, eo: int)
    requires
        a == 0 || b == 0,
    ensures
        decimal_mul_value(a, ea, b, eb, eo) == 0,
{
    assert(a * b == 0);
    if ea + eb - eo >= 0 {
        assert(a * b * pow10((ea + eb - eo) as nat) == 0) by (nonlinear_arith)
            requires
                a * b == 0,
        ;
    } else {
        lemma_pow10_positive((eo - (ea + eb)) as nat);
    }
}

/// Multiplies two decimal-tagged fixed-point quantities and rescales the
/// result to the target exponent, rounding toward zero.
pub fn checked_decimal_mul(a: u64, ea: i32, b: u64, eb: i32, eo: i32) -> (r: Result<
    u64,
    PerpetualsError,
>)
    ensures
        r is Ok <==> decimal_mul_fits(a, ea as int, b, eb as int, eo as int),
        r is Ok ==> r->Ok_0 == decimal_mul_value(a, ea as int, b, eb as int, eo as int),
        r is Err ==> r->Err_0 == PerpetualsError::ArithmeticOverflow,
{
    if a == 0 || b == 0 {
        proof {
            lemma_decimal_mul_zero(a, ea as int, b, eb as int, eo as int);
        }
        return Ok(0u64);
    }
    let s = match checked_add_i32(ea, eb) {
        Ok(v) => v,
        Err(e) => {
            return Err(e);
        },
    };
    let p = match i32_checked_sub(s, eo) {
        Some(v) => v,
        None => {
            return Err(PerpetualsError::ArithmeticOverflow);
        },
    };
    let prod = mul_u64_to_u128(a, b);
    if p >= 0 {
        proof {
            lemma_pow10_le_scaled(a, b, (p as int) as nat);
        }
        let pw = match checked_pow10_u128(p as u32) {
            Some(v) => v,
            None => {
                return Err(PerpetualsError::ArithmeticOverflow);
            },
        };
        match prod.checked_mul(pw) {
            Some(v) => checked_as_u64(v),
            None => Err(PerpetualsError::ArithmeticOverflow),
        }
    } else {
        let np = i32_negate_to_u32(p);
        let pw = match checked_pow10_u128(np) {
            Some(v) => v,
            None => {
                return Err(PerpetualsError::ArithmeticOverflow);
            },
        };
        proof {
            lemma_pow10_positive(np as nat);
        }
        checked_as_u64(prod / pw)
    }
}

/// Value of `(a·10^ea) ÷ (b·10^eb)` expressed at exponent `eo`, rounded
/// toward zero.
pub open spec fn decimal_div_value(a: u64, ea: int, b: u64, eb: int, eo: int) -> int
    recommends
        b != 0,
{
    if ea - eb - eo >= 0 {
        (a * pow10((ea - eb - eo) as nat)) / (b as int)
    } else {
        (a as int) / (b * pow10((eb + eo - ea) as nat))
    }
}

/// Exactly when `checked_decimal_div` succeeds on a nonzero divisor.
pub open spec fn decimal_div_fits(a: u64, ea: int, b: u64, eb: int, eo: int) -> bool {
    b != 0 && (a == 0 || {
        &&& i32::MIN <= ea - eb <= i32::MAX
        &&& i32::MIN <= ea - eb - eo <= i32::MAX
        &&& (ea - eb - eo >= 0 ==> a * pow10((ea - eb - eo) as nat) <= u128::MAX
            && (a * pow10((ea - eb - eo) as nat)) / (b as int) <= u64::MAX)
        &&& (ea - eb - eo < 0 ==> b * pow10((eb + eo - ea) as nat) <= u128::MAX)
    })
}

/// Divides two decimal-tagged fixed-point quantities and rescales the result
/// to the target exponent, rounding toward zero.
pub fn checked_decimal_div(a: u64, ea: i32, b: u64, eb: i32, eo: i32) -> (r: Result<
    u64,
    PerpetualsError,
>)
    ensures
        r is Ok <==> decimal_div_fits(a, ea as int, b, eb as int, eo as int),
        r is Ok ==> r->Ok_0 == decimal_div_value(a, ea as int, b, eb as int, eo as int),
        r matches Err(e) ==> (e == PerpetualsError::DivisionByZero <==> b == 0),
        r is Err && b != 0 ==> r->Err_0 == PerpetualsError::ArithmeticOverflow,
{
    if b == 0 {
        return Err(PerpetualsError::DivisionByZero);
    }
    if a == 0 {
        proof {
            let nn = (((eb as int) + (eo as int)) - (ea as int)) as nat;
            lemma_pow10_positive(nn);
            assert(b * pow10(nn) >= 1) by (nonlinear_arith)
                requires
                    b >= 1,
                    pow10(nn) >= 1,
            ;
        }
        return Ok(0u64);
    }
    let d = match i32_checked_sub(ea, eb) {
        Some(v) => v,
        None => {
            return Err(PerpetualsError::ArithmeticOverflow);
        },
    };
    let p = match i32_checked_sub(d, eo) {
        Some(v) => v,
        None => {
            return Err(PerpetualsError::ArithmeticOverflow);
        },
    };
    if p >= 0 {
        proof {
            lemma_pow10_le_scaled(a, 1u64, (p as int) as nat);
        }
        let pw = match checked_pow10_u128(p as u32) {
            Some(v) => v,
            None => {
                return Err(PerpetualsError::ArithmeticOverflow);
            },
        };
        let scaled = match (a as u128).checked_mul(pw) {
            Some(v) => v,
            None => {
                return Err(PerpetualsError::ArithmeticOverflow);
            },
        };
        checked_as_u64(scaled / (b as u128))
    } else {
        let np = i32_negate_to_u32(p);
        proof {
            lemma_pow10_le_scaled(b, 1u64, np as nat);
        }
        let pw = match checked_pow10_u128(np) {
            Some(v) => v,
            None => {
                return Err(PerpetualsError::ArithmeticOverflow);
            },
        };
        let divisor = match (b as u128).checked_mul(pw) {
            Some(v) => v,
            None => {
                return Err(PerpetualsError::ArithmeticOverflow);
            },
        };
        proof {
            lemma_pow10_positive(np as nat);
            assert(divisor >= 1) by (nonlinear_arith)
                requires
                    divisor == b * pow10(np as nat),
                    b >= 1,
                    pow10(np as nat) >= 1,
            ;
            assert((a as u128) / divisor <= a) by (nonlinear_arith)
                requires
                    divisor >= 1,
            ;
        }
        Ok(((a as u128) / divisor) as u64)
    }
}

/// A power of ten that scales a positive product without overflowing a `u64`
/// is itself at most `u64::MAX`.
proof fn lemma_pow10_le_scaled(a: u64, b: u64, n: nat)
    requires
        a >= 1,
        b >= 1,
    ensures
        pow10(n) <= a * b * pow10(n),
{
    lemma_pow10_positive(n);
    assert(pow10(n) <= a * b * pow10(n)) by (nonlinear_arith)
        requires
            a >= 1,
            b >= 1,
            pow10(n) >= 1,
    ;
}

/// Widening product of two token amounts; never overflows a `u128`.
fn mul_u64_to_u128(a: u64, b: u64) -> (r: u128)
    ensures
        r == a * b,
{
    proof {
        assert(a * b <= u128::MAX) by (nonlinear_arith)
            requires
                a <= u64::MAX,
                b <= u64::MAX,
        ;
    }
    (a as u128) * (b as u128)
}

/// `checked_sub` on `i32`, kept as a helper so exponent bookkeeping reads
/// uniformly.
fn i32_checked_sub(a: i32, b: i32) -> (r: Option<i32>)
    ensures
        r is Some <==> i32::MIN <= a - b <= i32::MAX,
        r is Some ==> r->0 == a - b,
{
    a.checked_sub(b)
}

/// Magnitude of a strictly negative `i32`, as a `u32`.
fn i32_negate_to_u32(p: i32) -> (r: u32)
    requires
        p < 0,
    ensures
        r == -(p as int),
{
    let wide: i64 = -(p as i64);
    wide as u32
}

} // verus!
