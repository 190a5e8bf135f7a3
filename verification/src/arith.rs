//! Executable checked arithmetic, proved against the checked operations
//! the evaluator's specification uses.

use vstd::prelude::*;
use crate::semantics::{
    arith_step, fold_arith, fold_max, fold_min, pow_fold, rng, spec_isqrt, trunc_div, trunc_rem,
    abs_int, Builtin,
};
use crate::value::ErrorHandler;

verus! {

/// How an exec arithmetic result relates to a specified one.
pub open spec fn num_result_matches(
    r: Result<i64, ErrorHandler>,
    s: Result<i64, crate::value::ErrV>,
) -> bool {
    match (r, s) {
        (Ok(a), Ok(b)) => a == b,
        (Err(e), Err(ev)) => e@ == ev,
        _ => false,
    }
}

fn overflow_error() -> (e: ErrorHandler)
    ensures
        e@ == crate::semantics::overflow_err(),
{
    ErrorHandler::ParseError("Number out of range".to_owned())
}

/// The product of two 64-bit values sits well inside 128 bits.
proof fn lemma_i64_mul_fits(a: int, b: int)
    requires
        i64::MIN <= a <= i64::MAX,
        i64::MIN <= b <= i64::MAX,
    ensures
        a * b <= i128::MAX,
        a * b >= i128::MIN,
{
    assert(a * b <= i128::MAX && a * b >= i128::MIN) by (nonlinear_arith)
        requires
            -0x8000_0000_0000_0000 <= a <= 0x7fff_ffff_ffff_ffff,
            -0x8000_0000_0000_0000 <= b <= 0x7fff_ffff_ffff_ffff,
    ;
}

/// One checked step of `add`, `sub` or `mul`.
pub fn checked_step(k: Builtin, acc: i64, x: i64) -> (r: Result<i64, ErrorHandler>)
    requires
        k matches Builtin::Add || k matches Builtin::Sub || k matches Builtin::Mul,
    ensures
        num_result_matches(r, arith_step(k, acc, x)),
{
    proof {
        lemma_i64_mul_fits(acc as int, x as int);
    }
    let wide: i128 = match k {
        Builtin::Add => acc as i128 + x as i128,
        Builtin::Sub => acc as i128 - x as i128,
        _ => acc as i128 * x as i128,
    };
    if wide >= i64::MIN as i128 && wide <= i64::MAX as i128 {
        Ok(wide as i64)
    } else {
        Err(overflow_error())
    }
}

/// The checked left fold over the numbers from position `idx` on.
pub fn fold_arith_exec(k: Builtin, acc: i64, nums: &Vec<i64>, idx: usize) -> (r: Result<
    i64,
    ErrorHandler,
>)
    requires
        k matches Builtin::Add || k matches Builtin::Sub || k matches Builtin::Mul,
        idx <= nums@.len(),
    ensures
        num_result_matches(r, fold_arith(k, acc, nums@.subrange(idx as int, nums@.len() as int))),
    decreases nums@.len() - idx,
{
    let ghost tail = nums@.subrange(idx as int, nums@.len() as int);
    if idx == nums.len() {
        proof {
            assert(tail.len() == 0);
        }
        Ok(acc)
    } else {
        proof {
            assert(tail[0] == nums@[idx as int]);
            assert(tail.subrange(1, tail.len() as int) =~= nums@.subrange(
                idx + 1,
                nums@.len() as int,
            ));
        }
        match checked_step(k, acc, nums[idx]) {
            Err(e) => Err(e),
            Ok(a2) => fold_arith_exec(k, a2, nums, idx + 1),
        }
    }
}

/// The running maximum over the numbers from position `idx` on.
pub fn fold_max_exec(acc: i64, nums: &Vec<i64>, idx: usize) -> (r: i64)
    requires
        idx <= nums@.len(),
    ensures
        r == fold_max(acc, nums@.subrange(idx as int, nums@.len() as int)),
    decreases nums@.len() - idx,
{
    let ghost tail = nums@.subrange(idx as int, nums@.len() as int);
    if idx == nums.len() {
        proof {
            assert(tail.len() == 0);
        }
        acc
    } else {
        proof {
            assert(tail[0] == nums@[idx as int]);
            assert(tail.subrange(1, tail.len() as int) =~= nums@.subrange(
                idx + 1,
                nums@.len() as int,
            ));
        }
        let a2 = if nums[idx] > acc {
            nums[idx]
        } else {
            acc
        };
        fold_max_exec(a2, nums, idx + 1)
    }
}

/// The running minimum over the numbers from position `idx` on.
pub fn fold_min_exec(acc: i64, nums: &Vec<i64>, idx: usize) -> (r: i64)
    requires
        idx <= nums@.len(),
    ensures
        r == fold_min(acc, nums@.subrange(idx as int, nums@.len() as int)),
    decreases nums@.len() - idx,
{
    let ghost tail = nums@.subrange(idx as int, nums@.len() as int);
    if idx == nums.len() {
        proof {
            assert(tail.len() == 0);
        }
        acc
    } else {
        proof {
            assert(tail[0] == nums@[idx as int]);
            assert(tail.subrange(1, tail.len() as int) =~= nums@.subrange(
                idx + 1,
                nums@.len() as int,
            ));
        }
        let a2 = if nums[idx] < acc {
            nums[idx]
        } else {
            acc
        };
        fold_min_exec(a2, nums, idx + 1)
    }
}

/// The magnitude of a number, as an unsigned value.
fn magnitude(a: i64) -> (m: u64)
    ensures
        m == abs_int(a as int),
{
    if a >= 0 {
        a as u64
    } else {
        (-(a as i128)) as u64
    }
}

/// Truncating division, checked: only `i64::MIN / -1` leaves the range.
pub fn div_exec(a: i64, b: i64) -> (r: Result<i64, ErrorHandler>)
    requires
        b != 0,
    ensures
        num_result_matches(r, rng(trunc_div(a as int, b as int))),
{
    let ma = magnitude(a);
    let mb = magnitude(b);
    let q = ma / mb;
    proof {
        assert(abs_int(b as int) > 0);
        assert(q == abs_int(a as int) / abs_int(b as int));
        assert(abs_int(a as int) / abs_int(b as int) <= abs_int(a as int)) by (nonlinear_arith)
            requires
                abs_int(a as int) >= 0,
                abs_int(b as int) >= 1,
        ;
    }
    if (a < 0) != (b < 0) {
        // the quotient magnitude is at most 2^63, so negation always fits
        Ok((-(q as i128)) as i64)
    } else {
        if q > i64::MAX as u64 {
            Err(overflow_error())
        } else {
            Ok(q as i64)
        }
    }
}

/// The remainder of truncating division; it always fits.
pub fn rem_exec(a: i64, b: i64) -> (r: Result<i64, ErrorHandler>)
    requires
        b != 0,
    ensures
        num_result_matches(r, rng(trunc_rem(a as int, b as int))),
{
    let ma = magnitude(a);
    let mb = magnitude(b);
    let m = ma % mb;
    proof {
        assert(abs_int(b as int) > 0);
        assert(m == abs_int(a as int) % abs_int(b as int));
        assert(0 <= m < abs_int(b as int));
    }
    if a < 0 {
        Ok((-(m as i128)) as i64)
    } else {
        Ok(m as i64)
    }
}

/// Checked exponentiation: multiply step by step, watching the range.
pub fn pow_exec(b: i64, e: u64) -> (r: Result<i64, ErrorHandler>)
    ensures
        num_result_matches(r, pow_fold(b, 1, e as nat)),
{
    let mut acc: i64 = 1;
    let mut left: u64 = e;
    loop
        invariant
            pow_fold(b, 1, e as nat) == pow_fold(b, acc, left as nat),
        decreases left,
    {
        if left == 0 {
            return Ok(acc);
        }
        proof {
            lemma_i64_mul_fits(acc as int, b as int);
        }
        let wide: i128 = acc as i128 * b as i128;
        if wide < i64::MIN as i128 || wide > i64::MAX as i128 {
            return Err(overflow_error());
        }
        acc = wide as i64;
        left = left - 1;
    }
}

/// The truncating remainder by two is zero exactly on the even numbers.
pub proof fn lemma_parity(n: int)
    ensures
        (trunc_rem(n, 2) == 0) <==> (n % 2 == 0),
        rng(trunc_rem(n, 2)) is Ok,
{
    assert(0 <= abs_int(n) % 2 < 2);
    if n < 0 {
        assert((-n) % 2 == 0 <==> n % 2 == 0) by (nonlinear_arith);
    }
}

/// `spec_isqrt` really is the integer square root.
proof fn lemma_isqrt_bounds(n: int)
    requires
        n >= 0,
    ensures
        spec_isqrt(n) >= 0,
        spec_isqrt(n) * spec_isqrt(n) <= n,
        (spec_isqrt(n) + 1) * (spec_isqrt(n) + 1) > n,
    decreases n,
{
    if n >= 1 {
        lemma_isqrt_bounds(n / 4);
        let h = spec_isqrt(n / 4);
        let r = 2 * h;
        assert(4 * (n / 4) <= n < 4 * (n / 4) + 4);
        assert(r * r <= 4 * (n / 4)) by (nonlinear_arith)
            requires
                r == 2 * h,
                h * h <= n / 4,
        ;
        assert((r + 2) * (r + 2) > n) by (nonlinear_arith)
            requires
                r == 2 * h,
                (h + 1) * (h + 1) > n / 4,
                n < 4 * (n / 4) + 4,
        ;
        if (r + 1) * (r + 1) <= n {
            assert(spec_isqrt(n) == r + 1);
        } else {
            assert(spec_isqrt(n) == r);
        }
    }
}

/// Two numbers squeezed the same way are the same number.
proof fn lemma_isqrt_unique(n: int, a: int, b: int)
    requires
        0 <= a,
        0 <= b,
        a * a <= n,
        (a + 1) * (a + 1) > n,
        b * b <= n,
        (b + 1) * (b + 1) > n,
    ensures
        a == b,
{
    assert(a == b) by (nonlinear_arith)
        requires
            0 <= a,
            0 <= b,
            a * a <= n,
            (a + 1) * (a + 1) > n,
            b * b <= n,
            (b + 1) * (b + 1) > n,
    ;
}

/// The integer square root, by bisection.
pub fn isqrt_exec(n: i64) -> (r: i64)
    requires
        n >= 0,
    ensures
        r == spec_isqrt(n as int),
{
    if n == 0 {
        proof {
            lemma_isqrt_bounds(0);
            lemma_isqrt_unique(0, spec_isqrt(0), 0);
        }
        return 0;
    }
    let nn = n as u64;
    let mut lo: u64 = 0;
    let mut hi: u64 = 3037000500;
    proof {
        assert(3037000500u64 * 3037000500u64 > i64::MAX as u64);
    }
    while lo + 1 < hi
        invariant
            lo < hi,
            hi <= 3037000500,
            lo * lo <= nn,
            hi * hi > nn,
            nn == n as u64,
            n >= 0,
        decreases hi - lo,
    {
        let mid = lo + (hi - lo) / 2;
        proof {
            assert(mid * mid <= 3037000500 * 3037000500) by (nonlinear_arith)
                requires
                    0 <= mid <= 3037000500,
            ;
        }
        if mid * mid <= nn {
            lo = mid;
        } else {
            hi = mid;
        }
    }
    proof {
        assert((lo + 1) * (lo + 1) >= hi * hi) by (nonlinear_arith)
            requires
                lo + 1 >= hi,
                lo >= 0,
        ;
        lemma_isqrt_bounds(n as int);
        lemma_isqrt_unique(n as int, spec_isqrt(n as int), lo as int);
    }
    lo as i64
}

} // verus!
