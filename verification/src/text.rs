//! Building display strings from numbers without formatting machinery.

use crate::note::{all_digits, decimal, digit_char, digits_value, lemma_digits_mono};
use vstd::prelude::*;
use vstd::string::*;

verus! {

/// The one-character string of digit `d`.
pub fn digit_str(d: u32) -> (r: &'static str)
    requires
        d < 10,
    ensures
        r@ == seq![digit_char(d as int)],
{
    proof {
        reveal_strlit("0");
        reveal_strlit("1");
        reveal_strlit("2");
        reveal_strlit("3");
        reveal_strlit("4");
        reveal_strlit("5");
        reveal_strlit("6");
        reveal_strlit("7");
        reveal_strlit("8");
        reveal_strlit("9");
    }
    let r = if d == 0 {
        "0"
    } else if d == 1 {
        "1"
    } else if d == 2 {
        "2"
    } else if d == 3 {
        "3"
    } else if d == 4 {
        "4"
    } else if d == 5 {
        "5"
    } else if d == 6 {
        "6"
    } else if d == 7 {
        "7"
    } else if d == 8 {
        "8"
    } else {
        "9"
    };
    proof {
        assert(r@ =~= seq![digit_char(d as int)]);
    }
    r
}

/// Append the decimal spelling of `n` to `s`.
pub fn append_decimal(s: &mut String, n: u64)
    ensures
        final(s)@ == old(s)@ + decimal(n as nat),
    decreases n,
{
    if n >= 10 {
        append_decimal(s, n / 10);
    }
    let d = (n % 10) as u32;
    s.append(digit_str(d));
    proof {
        if n >= 10 {
            assert(decimal(n as nat) == decimal((n / 10) as nat).push(digit_char((n % 10) as int)));
        } else {
            assert(decimal(n as nat) == seq![digit_char(n as int)]);
        }
        assert(final(s)@ =~= old(s)@ + decimal(n as nat));
    }
}

/// `n` in decimal, zero-padded to at least two digits.
pub open spec fn pad2(n: nat) -> Seq<char> {
    if n < 10 {
        seq!['0'] + decimal(n)
    } else {
        decimal(n)
    }
}

/// Append `n` zero-padded to at least two digits.
pub fn append_pad2(s: &mut String, n: u64)
    ensures
        final(s)@ == old(s)@ + pad2(n as nat),
{
    if n < 10 {
        s.append("0");
        proof {
            reveal_strlit("0");
        }
    }
    let ghost mid = s@;
    append_decimal(s, n);
    proof {
        if n < 10 {
            assert(mid =~= old(s)@ + seq!['0']);
        }
        assert(s@ =~= old(s)@ + pad2(n as nat));
    }
}

/// Decimal spelling of a signed integer (`-` before negatives).
pub open spec fn signed_decimal(v: int) -> Seq<char> {
    if v < 0 {
        seq!['-'] + decimal((-v) as nat)
    } else {
        decimal(v as nat)
    }
}

/// Append the decimal spelling of the signed `v` to `s`.
pub fn append_signed(s: &mut String, v: i64)
    ensures
        final(s)@ == old(s)@ + signed_decimal(v as int),
{
    if v < 0 {
        s.append("-");
        proof {
            reveal_strlit("-");
        }
        let ghost mid = s@;
        let m: u64 = ((-(v + 1)) as u64) + 1;
        append_decimal(s, m);
        proof {
            assert(mid =~= old(s)@ + seq!['-']);
            assert(s@ =~= old(s)@ + signed_decimal(v as int));
        }
    } else {
        append_decimal(s, v as u64);
    }
}

/// What parsing `s` as an unsigned integer of at most `max` gives: an
/// optional `+`, then one or more decimal digits whose value is at most `max`.
pub open spec fn parse_dec_spec(s: Seq<char>, max: int) -> Option<int> {
    let d = if s.len() > 0 && s[0] == '+' {
        s.skip(1)
    } else {
        s
    };
    if d.len() > 0 && all_digits(d) && digits_value(d) <= max {
        Some(digits_value(d))
    } else {
        None
    }
}

/// Parse `s[start..]` as an unsigned decimal of at most `max`, as Rust's
/// integer parsing does for a type whose largest value is `max`.
pub fn parse_dec(s: &str, start: usize, max: u64) -> (r: Option<u64>)
    requires
        start <= s@.len(),
    ensures
        match r {
            Some(v) => parse_dec_spec(s@.skip(start as int), max as int) == Some(v as int),
            None => parse_dec_spec(s@.skip(start as int), max as int) is None,
        },
{
    let n = s.unicode_len();
    let ghost t = s@.skip(start as int);
    let mut i = start;
    if i < n && s.get_char(i) == '+' {
        i = i + 1;
    }
    let ghost d = s@.skip(i as int);
    proof {
        if t.len() > 0 && t[0] == '+' {
            assert(d =~= t.skip(1));
        } else {
            assert(d =~= t);
        }
    }
    if i >= n {
        return None;
    }
    let i0 = i;
    let mut acc: u128 = 0;
    while i < n
        invariant
            i0 <= i <= n,
            n == s@.len(),
            d == s@.skip(i0 as int),
            t == s@.skip(start as int),
            parse_dec_spec(t, max as int) == (if d.len() > 0 && all_digits(d) && digits_value(d) <= max {
                Some(digits_value(d))
            } else {
                None
            }),
            acc <= max,
            all_digits(s@.subrange(i0 as int, i as int)),
            acc == digits_value(s@.subrange(i0 as int, i as int)),
        decreases n - i,
    {
        let c = s.get_char(i);
        proof {
            assert(s@.subrange(i0 as int, i as int + 1).drop_last() =~= s@.subrange(i0 as int, i as int));
            assert(s@.subrange(i0 as int, i as int + 1).last() == c);
        }
        if !(c >= '0' && c <= '9') {
            proof {
                assert(d[i - i0] == c);
            }
            return None;
        }
        acc = acc * 10 + ((c as u32) - ('0' as u32)) as u128;
        if acc > max as u128 {
            proof {
                let k = i - i0 + 1;
                assert(d.take(k) =~= s@.subrange(i0 as int, i as int + 1));
                if all_digits(d) {
                    lemma_digits_mono(d, k);
                }
            }
            return None;
        }
        i = i + 1;
    }
    proof {
        assert(s@.subrange(i0 as int, n as int) =~= d);
    }
    Some(acc as u64)
}

/// Parse `s[start..end]` as [`parse_dec`] does.
pub fn parse_dec_range(s: &str, start: usize, end: usize, max: u64) -> (r: Option<u64>)
    requires
        start <= end <= s@.len(),
    ensures
        match r {
            Some(v) => parse_dec_spec(s@.subrange(start as int, end as int), max as int) == Some(v as int),
            None => parse_dec_spec(s@.subrange(start as int, end as int), max as int) is None,
        },
{
    let ghost t = s@.subrange(start as int, end as int);
    let mut i = start;
    if i < end && s.get_char(i) == '+' {
        i = i + 1;
    }
    let ghost d = s@.subrange(i as int, end as int);
    proof {
        if t.len() > 0 && t[0] == '+' {
            assert(d =~= t.skip(1));
        } else {
            assert(d =~= t);
        }
    }
    if i >= end {
        return None;
    }
    let i0 = i;
    let mut acc: u128 = 0;
    while i < end
        invariant
            i0 <= i <= end,
            end <= s@.len(),
            d == s@.subrange(i0 as int, end as int),
            t == s@.subrange(start as int, end as int),
            parse_dec_spec(t, max as int) == (if d.len() > 0 && all_digits(d) && digits_value(d) <= max {
                Some(digits_value(d))
            } else {
                None
            }),
            acc <= max,
            all_digits(s@.subrange(i0 as int, i as int)),
            acc == digits_value(s@.subrange(i0 as int, i as int)),
        decreases end - i,
    {
        let c = s.get_char(i);
        proof {
            assert(s@.subrange(i0 as int, i as int + 1).drop_last() =~= s@.subrange(i0 as int, i as int));
            assert(s@.subrange(i0 as int, i as int + 1).last() == c);
        }
        if !(c >= '0' && c <= '9') {
            proof {
                assert(d[i - i0] == c);
            }
            return None;
        }
        acc = acc * 10 + ((c as u32) - ('0' as u32)) as u128;
        if acc > max as u128 {
            proof {
                let k = i - i0 + 1;
                assert(d.take(k) =~= s@.subrange(i0 as int, i as int + 1));
                if all_digits(d) {
                    lemma_digits_mono(d, k);
                }
            }
            return None;
        }
        i = i + 1;
    }
    proof {
        assert(s@.subrange(i0 as int, end as int) =~= d);
    }
    Some(acc as u64)
}

/// The first index at or after `from` where `s` holds `c`, or `s.len()`.
pub open spec fn find_spec(s: Seq<char>, from: int, c: char) -> int
    decreases s.len() - from,
{
    if from >= s.len() {
        s.len() as int
    } else if s[from] == c {
        from
    } else {
        find_spec(s, from + 1, c)
    }
}

proof fn lemma_find_bounds(s: Seq<char>, from: int, c: char)
    requires
        0 <= from <= s.len(),
    ensures
        from <= find_spec(s, from, c) <= s.len(),
        find_spec(s, from, c) < s.len() ==> s[find_spec(s, from, c)] == c,
        forall|j: int| from <= j < find_spec(s, from, c) ==> s[j] != c,
    decreases s.len() - from,
{
    if from < s.len() && s[from] != c {
        lemma_find_bounds(s, from + 1, c);
    }
}

/// Compute [`find_spec`].
pub fn find_char(s: &str, from: usize, c: char) -> (r: usize)
    requires
        from <= s@.len(),
    ensures
        r == find_spec(s@, from as int, c),
        from <= r <= s@.len(),
{
    let n = s.unicode_len();
    let mut i = from;
    proof {
        lemma_find_bounds(s@, from as int, c);
    }
    while i < n
        invariant
            from <= i <= n,
            n == s@.len(),
            find_spec(s@, i as int, c) == find_spec(s@, from as int, c),
        decreases n - i,
    {
        if s.get_char(i) == c {
            return i;
        }
        i = i + 1;
    }
    i
}

/// Whether `s[at..]` starts with `p`.
pub fn has_at(s: &str, at: usize, p: &str) -> (r: bool)
    requires
        at <= s@.len(),
    ensures
        r == (at + p@.len() <= s@.len() && s@.subrange(at as int, at + p@.len()) == p@),
{
    let n = p.unicode_len();
    let ls = s.unicode_len();
    if n > ls - at {
        return false;
    }
    let mut i: usize = 0;
    while i < n
        invariant
            i <= n,
            n == p@.len(),
            ls == s@.len(),
            at + n <= s@.len(),
            forall|j: int| 0 <= j < i ==> s@[at + j] == p@[j],
        decreases n - i,
    {
        if s.get_char(at + i) != p.get_char(i) {
            proof {
                assert(s@.subrange(at as int, at + n)[i as int] != p@[i as int]);
            }
            return false;
        }
        i = i + 1;
    }
    proof {
        assert(s@.subrange(at as int, at + n) =~= p@);
    }
    true
}

} // verus!
