//! The decisions the line-buffering driver makes while assembling
//! balanced forms: trimming a line, recognising lines to skip, and the
//! running parenthesis depth. The depth counter is deliberately not
//! literal-aware: parentheses inside string literals still count.

use vstd::prelude::*;
use crate::semantics::{is_ws, trim_end_ws};

verus! {

/// A line with its leading whitespace removed.
pub open spec fn trim_start_ws(s: Seq<char>) -> Seq<char>
    decreases s.len(),
{
    if s.len() > 0 && is_ws(s[0]) {
        trim_start_ws(s.subrange(1, s.len() as int))
    } else {
        s
    }
}

/// A line with whitespace removed from both ends.
pub open spec fn spec_trim(s: Seq<char>) -> Seq<char> {
    trim_start_ws(trim_end_ws(s))
}

/// A prefix of whitespace and a non-blank at `k` trim down to the rest.
proof fn lemma_trim_start_at(s: Seq<char>, k: int)
    requires
        0 <= k <= s.len(),
        forall|j: int| 0 <= j < k ==> is_ws(#[trigger] s[j]),
        k < s.len() ==> !is_ws(s[k]),
    ensures
        trim_start_ws(s) == s.subrange(k, s.len() as int),
    decreases k,
{
    if k == 0 {
        assert(s.subrange(0, s.len() as int) =~= s);
    } else {
        let rest = s.subrange(1, s.len() as int);
        assert(is_ws(s[0]));
        assert(forall|j: int| 0 <= j < k - 1 ==> is_ws(#[trigger] rest[j]));
        if k - 1 < rest.len() {
            assert(rest[k - 1] == s[k]);
        }
        lemma_trim_start_at(rest, k - 1);
        assert(rest.subrange(k - 1, rest.len() as int) =~= s.subrange(k, s.len() as int));
    }
}

/// Removes whitespace from both ends of a line.
pub fn trim_ws(line: &str) -> (t: String)
    ensures
        t@ == spec_trim(line@),
{
    let n = line.unicode_len();
    let mut b: usize = n;
    while b > 0
        invariant
            b <= n,
            n == line@.len(),
            forall|j: int| b <= j < line@.len() ==> is_ws(#[trigger] line@[j]),
        ensures
            b <= n,
            forall|j: int| b <= j < line@.len() ==> is_ws(#[trigger] line@[j]),
            b > 0 ==> !is_ws(line@[b - 1]),
        decreases b,
    {
        let c = line.get_char(b - 1);
        if !(c == ' ' || c == '\t' || c == '\n' || c == '\r') {
            break;
        }
        b = b - 1;
    }
    proof {
        crate::semantics::lemma_trim_end_at(line@, b as int);
    }
    let ghost ended = line@.take(b as int);
    let mut a: usize = 0;
    while a < b
        invariant
            a <= b <= n,
            n == line@.len(),
            ended == line@.take(b as int),
            forall|j: int| 0 <= j < a ==> is_ws(#[trigger] ended[j]),
        ensures
            a <= b,
            forall|j: int| 0 <= j < a ==> is_ws(#[trigger] ended[j]),
            a < b ==> !is_ws(ended[a as int]),
        decreases b - a,
    {
        let c = line.get_char(a);
        proof {
            assert(ended[a as int] == line@[a as int]);
        }
        if !(c == ' ' || c == '\t' || c == '\n' || c == '\r') {
            break;
        }
        a = a + 1;
    }
    proof {
        if a == b {
            assert(a as int == ended.len());
        }
        lemma_trim_start_at(ended, a as int);
    }
    let t = line.substring_char(a, b).to_owned();
    proof {
        assert(line@.subrange(a as int, b as int) =~= ended.subrange(a as int, ended.len() as int));
    }
    t
}

/// Whether the driver skips a trimmed line: blank, or a comment.
pub open spec fn spec_skips(t: Seq<char>) -> bool {
    t.len() == 0 || (t.len() >= 2 && t[0] == '/' && t[1] == '/')
}

/// Decides whether a trimmed line is skipped.
pub fn skips_line(t: &str) -> (r: bool)
    ensures
        r == spec_skips(t@),
{
    let n = t.unicode_len();
    if n == 0 {
        return true;
    }
    if n >= 2 && t.get_char(0) == '/' && t.get_char(1) == '/' {
        return true;
    }
    false
}

/// How a line moves the parenthesis depth: one up for each `(`, one
/// down for each `)`, blind to string literals.
pub open spec fn depth_delta(s: Seq<char>) -> int
    decreases s.len(),
{
    if s.len() == 0 {
        0int
    } else {
        (if s[0] == '(' {
            1int
        } else if s[0] == ')' {
            -1int
        } else {
            0int
        }) + depth_delta(s.subrange(1, s.len() as int))
    }
}

/// Counts how a line moves the parenthesis depth.
pub fn scan_depth(line: &str) -> (d: i128)
    ensures
        d == depth_delta(line@),
{
    let n = line.unicode_len();
    let mut acc: i128 = 0;
    let mut i: usize = 0;
    proof {
        assert(line@.subrange(0, n as int) =~= line@);
    }
    while i < n
        invariant
            i <= n,
            n == line@.len(),
            -(i as int) <= acc <= i as int,
            depth_delta(line@) == acc + depth_delta(line@.subrange(i as int, n as int)),
        decreases n - i,
    {
        let ghost tail = line@.subrange(i as int, n as int);
        proof {
            assert(tail[0] == line@[i as int]);
            assert(tail.subrange(1, tail.len() as int) =~= line@.subrange(i + 1, n as int));
        }
        let c = line.get_char(i);
        if c == '(' {
            acc = acc + 1;
        } else if c == ')' {
            acc = acc - 1;
        }
        i = i + 1;
    }
    proof {
        assert(line@.subrange(n as int, n as int).len() == 0);
    }
    acc
}

} // verus!
