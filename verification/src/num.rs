//! Reading and writing the decimal form of the language's numbers.
//!
//! A numeric literal is an optional `-` followed by one or more decimal
//! digits, and must fit in a 64-bit signed integer.

use vstd::prelude::*;
use crate::strutil::chars_to_string;

verus! {

pub open spec fn is_digit(c: char) -> bool {
    48 <= c as u32 <= 57
}

pub open spec fn digit_val(c: char) -> int {
    c as u32 - 48
}

pub open spec fn digit_char(d: int) -> char {
    ((d + 48) as u8) as char
}

pub open spec fn all_digits(s: Seq<char>) -> bool {
    forall|i: int| 0 <= i < s.len() ==> is_digit(#[trigger] s[i])
}

/// The value of a non-empty string of decimal digits.
pub open spec fn digits_val(s: Seq<char>) -> int
    decreases s.len(),
{
    if s.len() == 0 {
        0
    } else {
        digits_val(s.take(s.len() - 1)) * 10 + digit_val(s[s.len() - 1])
    }
}

/// What a numeric literal denotes: `None` when the text is not a literal
/// or its value does not fit in an `i64`.
pub open spec fn spec_parse_int(s: Seq<char>) -> Option<i64> {
    let neg = s.len() > 0 && s[0] == '-';
    let ds = if neg {
        s.skip(1)
    } else {
        s
    };
    if ds.len() == 0 || !all_digits(ds) {
        None
    } else {
        let v = digits_val(ds);
        if !neg && v <= i64::MAX {
            Some(v as i64)
        } else if neg && v <= i64::MAX + 1 {
            Some((-v) as i64)
        } else {
            None
        }
    }
}

/// The decimal form of a non-negative number.
pub open spec fn spec_render_nat(v: int) -> Seq<char>
    decreases v,
{
    if v < 10 {
        seq![digit_char(if v >= 0 { v } else { 0 })]
    } else {
        spec_render_nat(v / 10).push(digit_char(v % 10))
    }
}

/// The decimal form of a number, with a leading `-` when it is negative.
pub open spec fn spec_render_int(n: int) -> Seq<char> {
    if n < 0 {
        seq!['-'] + spec_render_nat(-n)
    } else {
        spec_render_nat(n)
    }
}

proof fn lemma_digits_val_nonneg(s: Seq<char>)
    requires
        all_digits(s),
    ensures
        digits_val(s) >= 0,
    decreases s.len(),
{
    if s.len() > 0 {
        assert(all_digits(s.take(s.len() - 1)));
        lemma_digits_val_nonneg(s.take(s.len() - 1));
    }
}

/// A digit string is worth at least any of its prefixes.
proof fn lemma_digits_val_prefix(s: Seq<char>, k: int)
    requires
        all_digits(s),
        0 <= k <= s.len(),
    ensures
        digits_val(s.take(k)) <= digits_val(s),
    decreases s.len() - k,
{
    if k == s.len() {
        assert(s.take(k) =~= s);
    } else {
        lemma_digits_val_prefix(s, k + 1);
        assert(s.take(k + 1).take(k) =~= s.take(k));
        assert(all_digits(s.take(k)));
        lemma_digits_val_nonneg(s.take(k));
        assert(digits_val(s.take(k + 1)) == digits_val(s.take(k)) * 10 + digit_val(s[k]));
    }
}

/// A literal whose digit part is empty or holds a non-digit denotes nothing.
proof fn lemma_parse_int_bad_digits(s: Seq<char>)
    requires
        ({
            let neg = s.len() > 0 && s[0] == '-';
            let ds = if neg {
                s.skip(1)
            } else {
                s
            };
            ds.len() == 0 || !all_digits(ds)
        }),
    ensures
        spec_parse_int(s) is None,
{
}

/// A literal whose value lies outside the 64-bit signed range denotes nothing.
proof fn lemma_parse_int_out_of_range(s: Seq<char>)
    requires
        ({
            let neg = s.len() > 0 && s[0] == '-';
            let ds = if neg {
                s.skip(1)
            } else {
                s
            };
            ds.len() > 0 && all_digits(ds) && digits_val(ds) > i64::MAX + 1
        }),
    ensures
        spec_parse_int(s) is None,
{
}

/// What a well-formed digit part denotes, by its value and sign.
proof fn lemma_parse_int_value(s: Seq<char>)
    requires
        ({
            let neg = s.len() > 0 && s[0] == '-';
            let ds = if neg {
                s.skip(1)
            } else {
                s
            };
            ds.len() > 0 && all_digits(ds)
        }),
    ensures
        spec_parse_int(s) == ({
            let neg = s.len() > 0 && s[0] == '-';
            let ds = if neg {
                s.skip(1)
            } else {
                s
            };
            let v = digits_val(ds);
            if !neg && v <= i64::MAX {
                Some(v as i64)
            } else if neg && v <= i64::MAX + 1 {
                Some((-v) as i64)
            } else {
                None
            }
        }),
{
}

/// Reads a numeric literal; `None` when the text is not one or it overflows.
pub fn parse_int(s: &str) -> (r: Option<i64>)
    ensures
        r == spec_parse_int(s@),
{
    let n = s.unicode_len();
    let ghost neg_spec = s@.len() > 0 && s@[0] == '-';
    let mut i: usize = 0;
    let mut neg = false;
    if n > 0 && s.get_char(0) == '-' {
        neg = true;
        i = 1;
    }
    let ghost ds: Seq<char> = if neg_spec { s@.skip(1) } else { s@ };
    proof {
        assert(neg == neg_spec);
        assert(ds =~= s@.subrange(i as int, n as int));
    }
    if i == n {
        return None;
    }
    let mut acc: u64 = 0;
    proof {
        assert(ds.take(0) =~= Seq::<char>::empty());
        assert(digits_val(ds.take(0)) == 0);
    }
    while i < n
        invariant
            n == s@.len(),
            neg == neg_spec,
            neg_spec == (s@.len() > 0 && s@[0] == '-'),
            ds == (if neg_spec { s@.skip(1) } else { s@ }),
            ds == s@.subrange(if neg { 1int } else { 0int }, n as int),
            (if neg { 1int } else { 0int }) <= i <= n,
            i > 0 || !neg,
            all_digits(ds.take(i - (if neg { 1int } else { 0int }))),
            acc == digits_val(ds.take(i - (if neg { 1int } else { 0int }))),
        decreases n - i,
    {
        let c = s.get_char(i);
        let cv = c as u32;
        if cv < 48 || cv > 57 {
            proof {
                let off = if neg { 1int } else { 0int };
                assert(ds[i - off] == c);
                assert(!is_digit(ds[i - off]));
                assert(!all_digits(ds));
                lemma_parse_int_bad_digits(s@);
            }
            return None;
        }
        let d: u64 = (cv - 48) as u64;
        let ghost off = if neg { 1int } else { 0int };
        let ghost prev = ds.take(i - off);
        proof {
            let ext = ds.take(i - off + 1);
            assert(ds[i - off] == c);
            assert(digit_val(c) == d);
            assert(ext.take(i - off) =~= prev);
            assert(ext[i - off] == c);
            assert(digits_val(ext) == digits_val(prev) * 10 + digit_val(c));
            assert forall|j: int| 0 <= j < ext.len() implies is_digit(#[trigger] ext[j]) by {
                if j < i - off {
                    assert(ext[j] == prev[j]);
                }
            }
        }
        // acc * 10 + d, watching for overflow
        if acc > (u64::MAX - d) / 10 {
            // the value exceeds u64::MAX, so it certainly exceeds the i64 range
            proof {
                assert(acc * 10 + d > u64::MAX) by (nonlinear_arith)
                    requires
                        acc > (u64::MAX - d) / 10,
                        d < 10,
                ;
                if all_digits(ds) {
                    lemma_digits_val_prefix(ds, i - off + 1);
                    assert(digits_val(ds) > u64::MAX);
                    lemma_parse_int_out_of_range(s@);
                } else {
                    lemma_parse_int_bad_digits(s@);
                }
            }
            return None;
        }
        proof {
            assert(acc * 10 + d <= u64::MAX) by (nonlinear_arith)
                requires
                    acc <= (u64::MAX - d) / 10,
                    d < 10,
            ;
        }
        acc = acc * 10 + d;
        i = i + 1;
    }
    proof {
        let off = if neg { 1int } else { 0int };
        assert(ds.take(n - off) =~= ds);
        lemma_parse_int_value(s@);
    }
    if !neg {
        if acc <= i64::MAX as u64 {
            Some(acc as i64)
        } else {
            None
        }
    } else {
        if acc <= i64::MAX as u64 {
            Some(-(acc as i64))
        } else if acc == i64::MAX as u64 + 1 {
            Some(i64::MIN)
        } else {
            None
        }
    }
}

/// All characters that `spec_render_nat` emits are digits.
pub proof fn lemma_render_nat_digits(v: int)
    requires
        v >= 0,
    ensures
        spec_render_nat(v).len() > 0,
        all_digits(spec_render_nat(v)),
    decreases v,
{
    if v >= 10 {
        lemma_render_nat_digits(v / 10);
        let r = spec_render_nat(v);
        let p = spec_render_nat(v / 10);
        assert(r == p.push(digit_char(v % 10)));
        assert(is_digit(digit_char(v % 10)));
        assert forall|i: int| 0 <= i < r.len() implies is_digit(#[trigger] r[i]) by {
            if i < p.len() {
                assert(r[i] == p[i]);
            }
        }
    }
}

/// Rendering then reading a non-negative number gives it back.
proof fn lemma_render_nat_val(v: int)
    requires
        v >= 0,
    ensures
        digits_val(spec_render_nat(v)) == v,
    decreases v,
{
    if v < 10 {
        let r = spec_render_nat(v);
        assert(r.take(0) =~= Seq::<char>::empty());
        assert(digits_val(Seq::<char>::empty()) == 0);
        assert(digits_val(r) == digits_val(r.take(0)) * 10 + digit_val(r[0]));
        assert(digit_val(digit_char(v)) == v);
    } else {
        lemma_render_nat_val(v / 10);
        let p = spec_render_nat(v / 10);
        let r = spec_render_nat(v);
        assert(r.take(r.len() - 1) =~= p);
        assert(digit_val(digit_char(v % 10)) == v % 10);
        assert(digits_val(r) == digits_val(p) * 10 + v % 10);
        assert(v / 10 * 10 + v % 10 == v) by (nonlinear_arith);
    }
}

/// Reading back a rendered number always gives the number itself.
///
/// Evaluating the bare literal written for `n` therefore yields `n`
/// unchanged.
pub proof fn lemma_parse_render_int(n: i64)
    ensures
        spec_parse_int(spec_render_int(n as int)) == Some(n),
{
    if n >= 0 {
        let r = spec_render_int(n as int);
        lemma_render_nat_digits(n as int);
        lemma_render_nat_val(n as int);
        assert(is_digit(r[0]));
        assert(r[0] != '-');
    } else {
        let m = -(n as int);
        lemma_render_nat_digits(m);
        lemma_render_nat_val(m);
        let r = spec_render_int(n as int);
        assert(r[0] == '-');
        assert(r.skip(1) =~= spec_render_nat(m));
        assert(m <= i64::MAX + 1);
    }
}

/// Writes a number in decimal.
pub fn render_int(n: i64) -> (s: String)
    ensures
        s@ == spec_render_int(n as int),
{
    let mut m: i128 = n as i128;
    let mut out: Vec<char> = Vec::new();
    let neg = m < 0;
    if neg {
        m = -m;
    }
    if m < 10 {
        let d: u8 = (m as u8) + 48;
        out.push(d as char);
        proof {
            assert(out@ =~= spec_render_nat(m as int));
        }
    } else {
        let mut rev: Vec<char> = Vec::new();
        let ghost m0 = m as int;
        while m >= 10
            invariant
                0 <= m <= m0,
                spec_render_nat(m0) =~= spec_render_nat(m as int) + rev@.reverse(),
            decreases m,
        {
            let d: u8 = ((m % 10) as u8) + 48;
            let ghost prev_m = m as int;
            let ghost prev_rev = rev@;
            rev.push(d as char);
            m = m / 10;
            proof {
                assert(rev@.reverse() =~= seq![digit_char(prev_m % 10)] + prev_rev.reverse());
                assert(spec_render_nat(prev_m) == spec_render_nat(prev_m / 10).push(
                    digit_char(prev_m % 10),
                ));
                assert(spec_render_nat(m as int) + rev@.reverse() =~= spec_render_nat(prev_m)
                    + prev_rev.reverse());
            }
        }
        let d: u8 = (m as u8) + 48;
        out.push(d as char);
        proof {
            assert(out@ =~= spec_render_nat(m as int));
        }
        let mut k: usize = rev.len();
        while k > 0
            invariant
                k <= rev.len(),
                out@ =~= spec_render_nat(m as int) + rev@.reverse().take(rev.len() - k),
            decreases k,
        {
            k = k - 1;
            out.push(rev[k]);
            proof {
                assert(rev@.reverse()[rev@.len() - k - 1] == rev@[k as int]);
                assert(out@ =~= spec_render_nat(m as int) + rev@.reverse().take(
                    rev.len() - k,
                ));
            }
        }
        proof {
            assert(rev@.reverse().take(rev.len() as int) =~= rev@.reverse());
            assert(out@ =~= spec_render_nat(m0));
        }
    }
    if neg {
        let mut r: Vec<char> = Vec::new();
        r.push('-');
        let mut j: usize = 0;
        while j < out.len()
            invariant
                j <= out.len(),
                r@ =~= seq!['-'] + out@.take(j as int),
            decreases out.len() - j,
        {
            r.push(out[j]);
            j = j + 1;
            proof {
                assert(r@ =~= seq!['-'] + out@.take(j as int));
            }
        }
        proof {
            assert(out@.take(out.len() as int) =~= out@);
        }
        chars_to_string(&r)
    } else {
        chars_to_string(&out)
    }
}

} // verus!
