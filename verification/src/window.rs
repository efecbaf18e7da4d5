//! Availability windows: the text `"<start-hour>-<end-hour>"`.
//!
//! Each hour is a decimal integer as Rust reads a non-negative `i32`: an
//! optional `+`, then one or more ASCII digits, with a value of at most
//! `i32::MAX`. A window is two such integers with a single `-` between them.

use vstd::prelude::*;

verus! {

/// An ASCII decimal digit.
pub open spec fn is_digit(c: char) -> bool {
    '0' <= c && c <= '9'
}

/// The value of an ASCII decimal digit.
pub open spec fn digit_value(c: char) -> int {
    c as int - '0' as int
}

/// Every character is an ASCII decimal digit.
pub open spec fn all_digits(s: Seq<char>) -> bool {
    forall|i: int| 0 <= i < s.len() ==> is_digit(#[trigger] s[i])
}

/// The number that a run of decimal digits writes; 0 for the empty run.
pub open spec fn decimal(s: Seq<char>) -> int
    decreases s.len(),
{
    if s.len() == 0 {
        0
    } else {
        10 * decimal(s.drop_last()) + digit_value(s.last())
    }
}

/// The text without its leading `+`, if it has one.
pub open spec fn unsigned_part(s: Seq<char>) -> Seq<char> {
    if s.len() > 0 && s[0] == '+' {
        s.skip(1)
    } else {
        s
    }
}

/// The integer that the text writes, if it writes one.
pub open spec fn integer_of(s: Seq<char>) -> Option<int> {
    let d = unsigned_part(s);
    if d.len() > 0 && all_digits(d) && decimal(d) <= i32::MAX {
        Some(decimal(d))
    } else {
        None
    }
}

/// Position `k` holds the only `-` of the text.
pub open spec fn splits_at(s: Seq<char>, k: int) -> bool {
    &&& 0 <= k < s.len()
    &&& s[k] == '-'
    &&& forall|j: int| 0 <= j < s.len() && j != k ==> s[j] != '-'
}

/// The window that the text writes, as (start hour, end hour), if it writes
/// one: exactly one `-`, with an integer on either side of it.
pub open spec fn window_of(s: Seq<char>) -> Option<(int, int)> {
    if exists|k: int| splits_at(s, k) {
        let k = choose|k: int| splits_at(s, k);
        match (integer_of(s.take(k)), integer_of(s.skip(k + 1))) {
            (Some(start), Some(end)) => Some((start, end)),
            _ => None,
        }
    } else {
        None
    }
}

/// A window read from text, as executable values.
pub open spec fn window_value(w: Option<(i32, i32)>) -> Option<(int, int)> {
    match w {
        Some((start, end)) => Some((start as int, end as int)),
        None => None,
    }
}

/// A text without a `-`, or with more than one, writes no window.
pub proof fn lemma_window_needs_one_separator(s: Seq<char>)
    requires
        !s.contains('-') || exists|i: int, j: int|
            0 <= i < j < s.len() && #[trigger] s[i] == '-' && #[trigger] s[j] == '-',
    ensures
        window_of(s) is None,
{
    assert forall|k: int| !splits_at(s, k) by {
        if splits_at(s, k) {
            assert(s.contains('-'));
            let (i, j) = choose|i: int, j: int|
                0 <= i < j < s.len() && #[trigger] s[i] == '-' && #[trigger] s[j] == '-';
            assert(i != k || j != k);
        }
    }
}

/// A window has two hours that are not negative and fit an `i32`.
pub proof fn lemma_window_hours_in_range(s: Seq<char>)
    ensures
        window_of(s) matches Some(window) ==> 0 <= window.0 <= i32::MAX && 0 <= window.1
            <= i32::MAX,
{
    if window_of(s) is Some {
        let k = choose|k: int| splits_at(s, k);
        lemma_decimal_nonnegative(unsigned_part(s.take(k)));
        lemma_decimal_nonnegative(unsigned_part(s.skip(k + 1)));
    }
}

/// A run of digits is worth at least as much as any of its prefixes.
proof fn lemma_decimal_prefix(s: Seq<char>, n: int)
    requires
        all_digits(s),
        0 <= n <= s.len(),
    ensures
        0 <= decimal(s.take(n)) <= decimal(s),
    decreases s.len() - n,
{
    if n == s.len() {
        assert(s.take(n) =~= s);
        lemma_decimal_nonnegative(s);
    } else {
        lemma_decimal_prefix(s, n + 1);
        let t = s.take(n + 1);
        assert(t.drop_last() =~= s.take(n));
        assert(is_digit(s[n]));
        assert(t.last() == s[n]);
        lemma_decimal_nonnegative(s.take(n));
    }
}

/// A run of digits is never worth less than zero.
proof fn lemma_decimal_nonnegative(s: Seq<char>)
    requires
        all_digits(s),
    ensures
        0 <= decimal(s),
    decreases s.len(),
{
    if s.len() > 0 {
        assert(is_digit(s[s.len() - 1]));
        lemma_decimal_nonnegative(s.drop_last());
    }
}

/// The characters of a string, in order.
fn chars_of(s: &str) -> (v: Vec<char>)
    ensures
        v@ == s@,
{
    let mut v: Vec<char> = Vec::new();
    for c in it: s.chars()
        invariant
            v@ == it.seq().take(it.index() as int),
    {
        v.push(c);
    }
    v
}

/// Reads the integer written by `chars[from..to]`.
fn parse_integer(chars: &Vec<char>, from: usize, to: usize) -> (n: Option<i32>)
    requires
        from <= to <= chars.len(),
    ensures
        match n {
            Some(v) => integer_of(chars@.subrange(from as int, to as int)) == Some(v as int),
            None => integer_of(chars@.subrange(from as int, to as int)) is None,
        },
{
    let ghost s = chars@.subrange(from as int, to as int);
    if from == to {
        return None;
    }
    let first: usize = if chars[from] == '+' {
        from + 1
    } else {
        from
    };
    let ghost d = unsigned_part(s);
    assert(d =~= chars@.subrange(first as int, to as int));
    if first == to {
        return None;
    }
    let mut acc: i64 = 0;
    let mut i: usize = first;
    while i < to
        invariant
            from <= first <= i <= to <= chars.len(),
            s == chars@.subrange(from as int, to as int),
            d == unsigned_part(s),
            d == chars@.subrange(first as int, to as int),
            all_digits(d.take(i - first)),
            acc == decimal(d.take(i - first)),
            0 <= acc <= i32::MAX,
        decreases to - i,
    {
        let c: char = chars[i];
        if !(c >= '0' && c <= '9') {
            assert(!is_digit(d[i - first]));
            return None;
        }
        let digit: i64 = (c as u32 - '0' as u32) as i64;
        let next: i64 = acc * 10 + digit;
        proof {
            let t = d.take(i + 1 - first);
            assert(t.drop_last() =~= d.take(i - first));
            assert(t.last() == c);
            assert(next == decimal(t));
            assert forall|j: int| 0 <= j < t.len() implies is_digit(#[trigger] t[j]) by {
                if j < i - first {
                    assert(is_digit(d.take(i - first)[j]));
                }
            }
        }
        if next > 2147483647 {
            proof {
                if all_digits(d) {
                    lemma_decimal_prefix(d, i + 1 - first);
                }
            }
            return None;
        }
        acc = next;
        i = i + 1;
    }
    assert(d.take(i - first) =~= d);
    Some(acc as i32)
}

/// Reads an availability window.
pub fn parse_window(text: &str) -> (w: Option<(i32, i32)>)
    ensures
        window_value(w) == window_of(text@),
{
    let chars = chars_of(text);
    let n: usize = chars.len();
    let mut k: usize = 0;
    while k < n && chars[k] != '-'
        invariant
            k <= n == chars.len(),
            forall|j: int| 0 <= j < k ==> chars@[j] != '-',
        decreases n - k,
    {
        k = k + 1;
    }
    if k == n {
        assert(forall|j: int| !splits_at(chars@, j));
        return None;
    }
    let mut m: usize = k + 1;
    while m < n && chars[m] != '-'
        invariant
            k < m <= n == chars.len(),
            forall|j: int| k < j < m ==> chars@[j] != '-',
        decreases n - m,
    {
        m = m + 1;
    }
    if m < n {
        assert forall|j: int| !splits_at(chars@, j) by {
            if j != k as int {
                assert(chars@[k as int] == '-');
            } else {
                assert(chars@[m as int] == '-');
            }
        }
        return None;
    }
    assert(splits_at(chars@, k as int));
    proof {
        let c = choose|j: int| splits_at(chars@, j);
        assert(c == k);
        assert(chars@.take(k as int) =~= chars@.subrange(0, k as int));
        assert(chars@.skip(k + 1) =~= chars@.subrange(k + 1, n as int));
    }
    let start = parse_integer(&chars, 0, k);
    let end = parse_integer(&chars, k + 1, n);
    match (start, end) {
        (Some(a), Some(b)) => Some((a, b)),
        _ => None,
    }
}

} // verus!
