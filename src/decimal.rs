//! Unsigned decimal text: the grammar that quantities and identifiers are
//! carried in, and reading it into fixed-width integers.

use vstd::prelude::*;

verus! {

/// Whether `c` is an ASCII decimal digit.
pub open spec fn is_digit(c: char) -> bool {
    '0' <= c && c <= '9'
}

/// Value of a sequence of decimal digits, most significant first.
pub open spec fn digits_value(s: Seq<char>) -> nat
    decreases s.len(),
{
    if s.len() == 0 {
        0
    } else {
        digits_value(s.drop_last()) * 10 + (s.last() as nat - '0' as nat) as nat
    }
}

/// The digits of an unsigned decimal: the text without one leading `+`.
pub open spec fn digits_of(s: Seq<char>) -> Seq<char> {
    if s.len() > 0 && s[0] == '+' {
        s.drop_first()
    } else {
        s
    }
}

/// Whether `s` is an unsigned decimal: an optional `+`, then one or more
/// digits.
pub open spec fn is_unsigned_decimal(s: Seq<char>) -> bool {
    let d = digits_of(s);
    d.len() > 0 && forall|i: int| 0 <= i < d.len() ==> is_digit(#[trigger] d[i])
}

/// The value of an unsigned decimal.
pub open spec fn decimal_value(s: Seq<char>) -> nat {
    digits_value(digits_of(s))
}

proof fn lemma_digits_prefix_le(s: Seq<char>, k: int)
    requires
        0 <= k <= s.len(),
        forall|i: int| 0 <= i < s.len() ==> is_digit(#[trigger] s[i]),
    ensures
        digits_value(s.take(k)) <= digits_value(s),
    decreases s.len() - k,
{
    if k < s.len() {
        lemma_digits_prefix_le(s, k + 1);
        assert(s.take(k + 1).drop_last() =~= s.take(k));
        assert(is_digit(s[k]));
    } else {
        assert(s.take(k) =~= s);
    }
}

/// Read an unsigned decimal into a `u128`: `None` when the text is not an
/// unsigned decimal or its value does not fit.
pub fn parse_u128(s: &str) -> (r: Option<u128>)
    ensures
        r matches Some(v) ==> is_unsigned_decimal(s@) && v == decimal_value(s@),
        r is None ==> !is_unsigned_decimal(s@) || decimal_value(s@) > u128::MAX,
{
    let n = s.unicode_len();
    let start: usize = if n > 0 && s.get_char(0) == '+' {
        1
    } else {
        0
    };
    let ghost d = digits_of(s@);
    proof {
        if start == 1 {
            assert(d =~= s@.subrange(1, n as int));
        } else {
            assert(d =~= s@);
        }
    }
    if start == n {
        return None;
    }
    let mut v: u128 = 0;
    let mut i: usize = start;
    while i < n
        invariant
            n == s@.len(),
            start <= i <= n,
            start < n,
            d == digits_of(s@),
            d.len() == n - start,
            forall|k: int| 0 <= k < d.len() ==> d[k] == s@[start + k],
            forall|k: int| 0 <= k < i - start ==> is_digit(#[trigger] d[k]),
            v == digits_value(d.take(i - start)),
        decreases n - i,
    {
        let c = s.get_char(i);
        proof {
            assert(d.take(i - start + 1).drop_last() =~= d.take(i - start));
            assert(d[i - start] == c);
        }
        if c < '0' || c > '9' {
            proof {
                assert(!is_digit(d[i - start]));
            }
            return None;
        }
        let digit = (c as u32 - '0' as u32) as u128;
        proof {
            assert(digits_value(d.take(i - start + 1)) == v * 10 + digit);
            if is_unsigned_decimal(s@) {
                assert(forall|k: int| 0 <= k < d.len() ==> is_digit(#[trigger] d[k]));
                lemma_digits_prefix_le(d, i - start + 1);
            }
        }
        let w = match v.checked_mul(10) {
            None => {
                return None;
            },
            Some(m) => match m.checked_add(digit) {
                None => {
                    return None;
                },
                Some(w) => w,
            },
        };
        v = w;
        i = i + 1;
    }
    proof {
        assert(d.take(n - start) =~= d);
    }
    Some(v)
}

/// Read an unsigned decimal into a `u64`: `None` when the text is not an
/// unsigned decimal or its value does not fit.
pub fn parse_u64(s: &str) -> (r: Option<u64>)
    ensures
        r matches Some(v) ==> is_unsigned_decimal(s@) && v == decimal_value(s@),
        r is None ==> !is_unsigned_decimal(s@) || decimal_value(s@) > u64::MAX,
{
    match parse_u128(s) {
        Some(v) => if v <= u64::MAX as u128 {
            Some(v as u64)
        } else {
            None
        },
        None => None,
    }
}

/// Read an unsigned decimal into a `u16`: `None` when the text is not an
/// unsigned decimal or its value does not fit.
pub fn parse_u16(s: &str) -> (r: Option<u16>)
    ensures
        r matches Some(v) ==> is_unsigned_decimal(s@) && v == decimal_value(s@),
        r is None ==> !is_unsigned_decimal(s@) || decimal_value(s@) > u16::MAX,
{
    match parse_u128(s) {
        Some(v) => if v <= u16::MAX as u128 {
            Some(v as u16)
        } else {
            None
        },
        None => None,
    }
}

} // verus!
