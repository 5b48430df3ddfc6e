//! Unsigned integers below 2^256, as four 64-bit limbs: reading them from
//! decimal or hexadecimal text, comparing them, and splitting them into
//! 128-bit halves.

use vstd::prelude::*;
use vstd::arithmetic::div_mod::lemma_fundamental_div_mod_converse;
use crate::decimal::{decimal_value, digits_of, digits_value, is_digit, is_unsigned_decimal};

verus! {

/// An unsigned integer below 2^256; `w0` is the least significant limb.
#[derive(Debug, Clone, Copy, PartialEq, Eq)]
pub struct Wide {
    pub w0: u64,
    pub w1: u64,
    pub w2: u64,
    pub w3: u64,
}

/// 2^64, the base of a limb.
pub open spec fn limb_base() -> int {
    0x1_0000_0000_0000_0000
}

/// 2^128.
pub open spec fn half_base() -> int {
    limb_base() * limb_base()
}

/// 2^256, the first value a `Wide` cannot hold.
pub open spec fn wide_limit() -> int {
    half_base() * half_base()
}

/// The value of a `Wide`.
pub open spec fn wide_value(w: Wide) -> int {
    w.w0 + limb_base() * (w.w1 + limb_base() * (w.w2 + limb_base() * w.w3))
}

/// Whether `c` is a digit in base `radix` (10 or 16; hexadecimal letters in
/// either case).
pub open spec fn is_radix_digit(c: char, radix: nat) -> bool {
    ('0' <= c && c <= '9') || (radix == 16 && (('a' <= c && c <= 'f') || ('A' <= c && c <= 'F')))
}

/// The value of a digit.
pub open spec fn radix_digit_value(c: char) -> nat {
    if '0' <= c && c <= '9' {
        (c as nat - '0' as nat) as nat
    } else if 'a' <= c && c <= 'f' {
        (c as nat - 'a' as nat + 10) as nat
    } else {
        (c as nat - 'A' as nat + 10) as nat
    }
}

/// The value of a sequence of digits in base `radix`, most significant
/// first.
pub open spec fn radix_value(s: Seq<char>, radix: nat) -> nat
    decreases s.len(),
{
    if s.len() == 0 {
        0
    } else {
        radix_value(s.drop_last(), radix) * radix + radix_digit_value(s.last())
    }
}

/// Whether `s` is a non-empty sequence of digits in base `radix`.
pub open spec fn all_radix_digits(s: Seq<char>, radix: nat) -> bool {
    s.len() > 0 && forall|i: int| 0 <= i < s.len() ==> is_radix_digit(#[trigger] s[i], radix)
}

proof fn lemma_carry_chain(
    w0: int,
    w1: int,
    w2: int,
    w3: int,
    m: int,
    d: int,
    r0: int,
    r1: int,
    r2: int,
    r3: int,
    c0: int,
    c1: int,
    c2: int,
    c3: int,
    b: int,
)
    requires
        w0 * m + d == r0 + c0 * b,
        w1 * m + c0 == r1 + c1 * b,
        w2 * m + c1 == r2 + c2 * b,
        w3 * m + c2 == r3 + c3 * b,
    ensures
        (w0 + b * (w1 + b * (w2 + b * w3))) * m + d == r0 + b * (r1 + b * (r2 + b * (r3 + b
            * c3))),
{
    let x2 = w2 * m + b * (w3 * m);
    let x1 = w1 * m + b * x2;
    assert((w2 + b * w3) * m == x2) by (nonlinear_arith)
        requires
            x2 == w2 * m + b * (w3 * m),
    ;
    assert((w1 + b * (w2 + b * w3)) * m == x1) by (nonlinear_arith)
        requires
            x1 == w1 * m + b * x2,
            (w2 + b * w3) * m == x2,
    ;
    assert((w0 + b * (w1 + b * (w2 + b * w3))) * m + d == r0 + b * (c0 + x1)) by (nonlinear_arith)
        requires
            (w1 + b * (w2 + b * w3)) * m == x1,
            w0 * m + d == r0 + c0 * b,
    ;
    assert(c0 + x1 == r1 + b * (c1 + x2)) by (nonlinear_arith)
        requires
            x1 == w1 * m + b * x2,
            w1 * m + c0 == r1 + c1 * b,
    ;
    assert(c1 + x2 == r2 + b * (c2 + w3 * m)) by (nonlinear_arith)
        requires
            x2 == w2 * m + b * (w3 * m),
            w2 * m + c1 == r2 + c2 * b,
    ;
    assert(c2 + w3 * m == r3 + b * c3);
}

proof fn lemma_wide_bounds(w: Wide)
    ensures
        0 <= wide_value(w) < wide_limit(),
{
    let b = limb_base();
    let (a0, a1, a2, a3) = (w.w0 as int, w.w1 as int, w.w2 as int, w.w3 as int);
    assert(0 <= a0 + b * (a1 + b * (a2 + b * a3)) < (b * b) * (b * b)) by (nonlinear_arith)
        requires
            0 <= a0 < b,
            0 <= a1 < b,
            0 <= a2 < b,
            0 <= a3 < b,
            b == 0x1_0000_0000_0000_0000int,
    ;
}

/// Step `(hi, lo)` in base `k`: order of the pair is order of the value.
proof fn lemma_lex(ah: int, al: int, bh: int, bl: int, k: int)
    requires
        0 <= al < k,
        0 <= bl < k,
    ensures
        ah < bh ==> al + k * ah < bl + k * bh,
        ah > bh ==> al + k * ah > bl + k * bh,
        ah == bh ==> (al + k * ah < bl + k * bh <==> al < bl),
{
    assert(ah < bh ==> al + k * ah < bl + k * bh) by (nonlinear_arith)
        requires
            0 <= al < k,
            0 <= bl < k,
    ;
    assert(ah > bh ==> al + k * ah > bl + k * bh) by (nonlinear_arith)
        requires
            0 <= al < k,
            0 <= bl < k,
    ;
}

proof fn lemma_tail_bounds(x: int, y: int, z: int)
    requires
        0 <= x < limb_base(),
        0 <= y < limb_base(),
        0 <= z < limb_base(),
    ensures
        0 <= y + limb_base() * z < limb_base() * limb_base(),
        0 <= x + limb_base() * (y + limb_base() * z) < limb_base() * (limb_base() * limb_base()),
{
    let b = limb_base();
    assert(0 <= y + b * z < b * b) by (nonlinear_arith)
        requires
            0 <= y < b,
            0 <= z < b,
    ;
    assert(0 <= x + b * (y + b * z) < b * (b * b)) by (nonlinear_arith)
        requires
            0 <= x < b,
            0 <= y + b * z < b * b,
    ;
}

/// `w * m + d`, or `None` when that reaches 2^256.
pub fn mul_add(w: Wide, m: u64, d: u64) -> (r: Option<Wide>)
    requires
        2 <= m <= 16,
        d < m,
    ensures
        r matches Some(v) ==> wide_value(v) == wide_value(w) * m + d,
        r is None ==> wide_value(w) * m + d >= wide_limit(),
{
    let b: u128 = 0x1_0000_0000_0000_0000;
    assert((w.w0 as u128) * (m as u128) <= 0xffff_ffff_ffff_ffff * 16) by (nonlinear_arith)
        requires
            m <= 16,
            w.w0 <= 0xffff_ffff_ffff_ffffu64,
    ;
    let t0: u128 = (w.w0 as u128) * (m as u128) + d as u128;
    let c0 = t0 / b;
    let r0 = (t0 % b) as u64;
    assert((w.w1 as u128) * (m as u128) <= 0xffff_ffff_ffff_ffff * 16) by (nonlinear_arith)
        requires
            m <= 16,
            w.w1 <= 0xffff_ffff_ffff_ffffu64,
    ;
    assert(c0 <= 16);
    let t1: u128 = (w.w1 as u128) * (m as u128) + c0;
    let c1 = t1 / b;
    let r1 = (t1 % b) as u64;
    assert((w.w2 as u128) * (m as u128) <= 0xffff_ffff_ffff_ffff * 16) by (nonlinear_arith)
        requires
            m <= 16,
            w.w2 <= 0xffff_ffff_ffff_ffffu64,
    ;
    assert(c1 <= 16);
    let t2: u128 = (w.w2 as u128) * (m as u128) + c1;
    let c2 = t2 / b;
    let r2 = (t2 % b) as u64;
    assert((w.w3 as u128) * (m as u128) <= 0xffff_ffff_ffff_ffff * 16) by (nonlinear_arith)
        requires
            m <= 16,
            w.w3 <= 0xffff_ffff_ffff_ffffu64,
    ;
    assert(c2 <= 16);
    let t3: u128 = (w.w3 as u128) * (m as u128) + c2;
    let c3 = t3 / b;
    let r3 = (t3 % b) as u64;
    proof {
        lemma_fundamental_div_mod_converse(t0 as int, b as int, c0 as int, r0 as int);
        lemma_fundamental_div_mod_converse(t1 as int, b as int, c1 as int, r1 as int);
        lemma_fundamental_div_mod_converse(t2 as int, b as int, c2 as int, r2 as int);
        lemma_fundamental_div_mod_converse(t3 as int, b as int, c3 as int, r3 as int);
        lemma_carry_chain(
            w.w0 as int,
            w.w1 as int,
            w.w2 as int,
            w.w3 as int,
            m as int,
            d as int,
            r0 as int,
            r1 as int,
            r2 as int,
            r3 as int,
            c0 as int,
            c1 as int,
            c2 as int,
            c3 as int,
            b as int,
        );
        let bb = b as int;
        if c3 > 0 {
            assert(r0 + bb * (r1 + bb * (r2 + bb * (r3 + bb * c3))) >= (bb * bb) * (bb * bb))
                by (nonlinear_arith)
                requires
                    c3 >= 1,
                    r0 >= 0,
                    r1 >= 0,
                    r2 >= 0,
                    r3 >= 0,
                    bb > 0,
            ;
        } else {
            assert(r3 + bb * c3 == r3);
        }
    }
    if c3 > 0 {
        None
    } else {
        Some(Wide { w0: r0, w1: r1, w2: r2, w3: r3 })
    }
}

/// Whether `a` is below `b`.
pub fn wide_less(a: &Wide, b: &Wide) -> (r: bool)
    ensures
        r == (wide_value(*a) < wide_value(*b)),
{
    proof {
        let k = limb_base();
        lemma_tail_bounds(a.w1 as int, a.w2 as int, a.w3 as int);
        lemma_tail_bounds(b.w1 as int, b.w2 as int, b.w3 as int);
        lemma_lex(a.w2 as int, a.w1 as int, b.w2 as int, b.w1 as int, k);
        lemma_lex(a.w3 as int, a.w2 as int, b.w3 as int, b.w2 as int, k);
        lemma_lex(
            a.w3 as int,
            a.w2 as int,
            b.w3 as int,
            b.w2 as int,
            k,
        );
        let ar2 = a.w2 + k * a.w3;
        let br2 = b.w2 + k * b.w3;
        lemma_lex(ar2, a.w1 as int, br2, b.w1 as int, k);
        let ar1 = a.w1 + k * ar2;
        let br1 = b.w1 + k * br2;
        lemma_lex(ar1, a.w0 as int, br1, b.w0 as int, k);
    }
    if a.w3 != b.w3 {
        a.w3 < b.w3
    } else if a.w2 != b.w2 {
        a.w2 < b.w2
    } else if a.w1 != b.w1 {
        a.w1 < b.w1
    } else {
        a.w0 < b.w0
    }
}

/// The low and high 128-bit halves of `w`: `(w mod 2^128, w / 2^128)`.
pub fn halves(w: &Wide) -> (r: (u128, u128))
    ensures
        r.0 == wide_value(*w) % half_base(),
        r.1 == wide_value(*w) / half_base(),
{
    let low: u128 = (w.w1 as u128) * 0x1_0000_0000_0000_0000 + w.w0 as u128;
    let high: u128 = (w.w3 as u128) * 0x1_0000_0000_0000_0000 + w.w2 as u128;
    proof {
        let b = limb_base();
        assert(low == w.w0 + b * w.w1);
        assert(high == w.w2 + b * w.w3);
        lemma_tail_bounds(w.w0 as int, w.w1 as int, 0);
        lemma_tail_bounds(w.w2 as int, w.w3 as int, 0);
        assert(wide_value(*w) == high * (b * b) + low) by (nonlinear_arith)
            requires
                low == w.w0 + b * w.w1,
                high == w.w2 + b * w.w3,
                wide_value(*w) == w.w0 + b * (w.w1 + b * (w.w2 + b * w.w3)),
        ;
        lemma_fundamental_div_mod_converse(wide_value(*w), b * b, high as int, low as int);
    }
    (low, high)
}

/// The digits of a hexadecimal numeral: the text without a leading `0x`
/// (or `0X`).
pub open spec fn hex_digits_of(s: Seq<char>) -> Seq<char> {
    if s.len() >= 2 && s[0] == '0' && (s[1] == 'x' || s[1] == 'X') {
        s.subrange(2, s.len() as int)
    } else {
        s
    }
}

/// Whether `s` is a hexadecimal numeral: an optional `0x`, then one or more
/// hexadecimal digits.
pub open spec fn is_hex_numeral(s: Seq<char>) -> bool {
    all_radix_digits(hex_digits_of(s), 16)
}

/// The value of a hexadecimal numeral.
pub open spec fn hex_numeral_value(s: Seq<char>) -> nat {
    radix_value(hex_digits_of(s), 16)
}

proof fn lemma_radix_prefix_le(s: Seq<char>, radix: nat, k: int)
    requires
        0 <= k <= s.len(),
        radix >= 1,
    ensures
        radix_value(s.take(k), radix) <= radix_value(s, radix),
    decreases s.len() - k,
{
    if k < s.len() {
        lemma_radix_prefix_le(s, radix, k + 1);
        assert(s.take(k + 1).drop_last() =~= s.take(k));
        let v = radix_value(s.take(k), radix);
        let dv = radix_digit_value(s[k]);
        assert(v * radix + dv >= v) by (nonlinear_arith)
            requires
                radix >= 1,
                v >= 0,
                dv >= 0,
        ;
    } else {
        assert(s.take(k) =~= s);
    }
}

proof fn lemma_decimal_radix(s: Seq<char>)
    requires
        forall|i: int| 0 <= i < s.len() ==> is_digit(#[trigger] s[i]),
    ensures
        digits_value(s) == radix_value(s, 10),
    decreases s.len(),
{
    if s.len() > 0 {
        lemma_decimal_radix(s.drop_last());
        assert(is_digit(s[s.len() - 1]));
    }
}

fn digit_of(c: char, radix: u64) -> (r: Option<u64>)
    requires
        radix == 10 || radix == 16,
    ensures
        r matches Some(v) ==> is_radix_digit(c, radix as nat) && v == radix_digit_value(c) && v
            < radix,
        r is None ==> !is_radix_digit(c, radix as nat),
{
    if '0' <= c && c <= '9' {
        Some((c as u32 - '0' as u32) as u64)
    } else if radix == 16 && 'a' <= c && c <= 'f' {
        Some((c as u32 - 'a' as u32 + 10) as u64)
    } else if radix == 16 && 'A' <= c && c <= 'F' {
        Some((c as u32 - 'A' as u32 + 10) as u64)
    } else {
        None
    }
}

/// Read the digits `s[start..]` in base `radix`.
fn parse_radix(s: &str, start: usize, radix: u64) -> (r: Option<Wide>)
    requires
        radix == 10 || radix == 16,
        start <= s@.len(),
    ensures
        r matches Some(w) ==> all_radix_digits(s@.subrange(start as int, s@.len() as int), radix as nat)
            && wide_value(w) == radix_value(s@.subrange(start as int, s@.len() as int), radix as nat),
        r is None ==> !all_radix_digits(s@.subrange(start as int, s@.len() as int), radix as nat)
            || radix_value(s@.subrange(start as int, s@.len() as int), radix as nat) >= wide_limit(),
{
    let n = s.unicode_len();
    let ghost d = s@.subrange(start as int, n as int);
    if start == n {
        return None;
    }
    let mut v = Wide { w0: 0, w1: 0, w2: 0, w3: 0 };
    let mut i: usize = start;
    while i < n
        invariant
            n == s@.len(),
            start <= i <= n,
            start < n,
            radix == 10 || radix == 16,
            d == s@.subrange(start as int, n as int),
            forall|k: int| 0 <= k < i - start ==> is_radix_digit(#[trigger] d[k], radix as nat),
            wide_value(v) == radix_value(d.take(i - start), radix as nat),
        decreases n - i,
    {
        let c = s.get_char(i);
        proof {
            assert(d.take(i - start + 1).drop_last() =~= d.take(i - start));
            assert(d[i - start] == c);
        }
        let dv = match digit_of(c, radix) {
            Some(dv) => dv,
            None => {
                return None;
            },
        };
        proof {
            lemma_radix_prefix_le(d, radix as nat, i - start + 1);
        }
        v = match mul_add(v, radix, dv) {
            Some(w) => w,
            None => {
                return None;
            },
        };
        i = i + 1;
    }
    proof {
        assert(d.take(n - start) =~= d);
    }
    Some(v)
}

/// Read an unsigned decimal below 2^256.
pub fn parse_decimal_wide(s: &str) -> (r: Option<Wide>)
    ensures
        r matches Some(w) ==> is_unsigned_decimal(s@) && wide_value(w) == decimal_value(s@),
        r is None ==> !is_unsigned_decimal(s@) || decimal_value(s@) >= wide_limit(),
{
    let n = s.unicode_len();
    let start: usize = if n > 0 && s.get_char(0) == '+' {
        1
    } else {
        0
    };
    let ghost d = digits_of(s@);
    proof {
        if start == 1 {
            assert(d =~= s@.subrange(1, n as int));
        } else {
            assert(d =~= s@.subrange(0, n as int));
        }
        if is_unsigned_decimal(s@) {
            lemma_decimal_radix(d);
            assert(all_radix_digits(d, 10));
        }
        if all_radix_digits(d, 10) {
            assert forall|i: int| 0 <= i < d.len() implies is_digit(#[trigger] d[i]) by {
                assert(is_radix_digit(d[i], 10));
            }
            lemma_decimal_radix(d);
        }
    }
    parse_radix(s, start, 10)
}

/// Read a hexadecimal numeral below 2^256.
pub fn parse_hex_wide(s: &str) -> (r: Option<Wide>)
    ensures
        r matches Some(w) ==> is_hex_numeral(s@) && wide_value(w) == hex_numeral_value(s@),
        r is None ==> !is_hex_numeral(s@) || hex_numeral_value(s@) >= wide_limit(),
{
    let n = s.unicode_len();
    let start: usize = if n >= 2 && s.get_char(0) == '0' && (s.get_char(1) == 'x' || s.get_char(1)
        == 'X') {
        2
    } else {
        0
    };
    proof {
        if start == 0 {
            assert(s@.subrange(0, n as int) =~= s@);
        }
    }
    parse_radix(s, start, 16)
}

/// Whether nonce `a` is below nonce `b` by value: both must be hexadecimal
/// numerals below 2^256.
pub open spec fn nonce_below(a: Seq<char>, b: Seq<char>) -> bool {
    &&& is_hex_numeral(a) && hex_numeral_value(a) < wide_limit()
    &&& is_hex_numeral(b) && hex_numeral_value(b) < wide_limit()
    &&& hex_numeral_value(a) < hex_numeral_value(b)
}

/// Compare two nonces by value.
pub fn nonce_less(a: &str, b: &str) -> (r: bool)
    ensures
        r == nonce_below(a@, b@),
{
    match (parse_hex_wide(a), parse_hex_wide(b)) {
        (Some(x), Some(y)) => {
            proof {
                lemma_wide_bounds(x);
                lemma_wide_bounds(y);
            }
            wide_less(&x, &y)
        },
        _ => false,
    }
}

} // verus!
