//! Text encodings used by the canonical order message: JSON string escaping,
//! decimal text of integers, and hexadecimal text of 32-byte values.

use vstd::prelude::*;
use vstd::string::*;
use crate::text::push_char;

verus! {

/// Hexadecimal digit (lowercase) for a value below 16.
pub open spec fn hex_digit(v: nat) -> char {
    if v < 10 {
        (('0' as nat) + v) as char
    } else {
        (('a' as nat) + v - 10) as char
    }
}

/// The JSON escape of one character: quote, backslash and control
/// characters are escaped, the rest stand for themselves.
pub open spec fn escape_char(c: char) -> Seq<char> {
    if c == '"' {
        seq!['\\', '"']
    } else if c == '\\' {
        seq!['\\', '\\']
    } else if (c as u32) < 0x20 {
        seq!['\\', 'u', '0', '0', hex_digit((c as u32 / 16) as nat), hex_digit((c as u32 % 16) as nat)]
    } else {
        seq![c]
    }
}

/// The JSON escape of a string's content.
pub open spec fn escape_json(s: Seq<char>) -> Seq<char>
    decreases s.len(),
{
    if s.len() == 0 {
        Seq::empty()
    } else {
        escape_json(s.drop_last()) + escape_char(s.last())
    }
}

/// A JSON string literal holding `s`.
pub open spec fn json_string(s: Seq<char>) -> Seq<char> {
    seq!['"'] + escape_json(s) + seq!['"']
}

/// Decimal text of `n`, without leading zeros.
pub open spec fn decimal_text(n: nat) -> Seq<char>
    decreases n,
{
    if n < 10 {
        seq![hex_digit(n)]
    } else {
        decimal_text(n / 10).push(hex_digit(n % 10))
    }
}

/// Lowercase hexadecimal text of bytes, two digits per byte.
pub open spec fn hex_text(b: Seq<u8>) -> Seq<char>
    decreases b.len(),
{
    if b.len() == 0 {
        Seq::empty()
    } else {
        hex_text(b.drop_last()) + seq![
            hex_digit((b.last() / 16) as nat),
            hex_digit((b.last() % 16) as nat),
        ]
    }
}

fn digit_char(v: u32) -> (c: char)
    requires
        v < 16,
    ensures
        c == hex_digit(v as nat),
{
    if v < 10 {
        char_of(0x30 + v)
    } else {
        char_of(0x61 + v - 10)
    }
}

fn char_of(v: u32) -> (c: char)
    requires
        (0x30 <= v < 0x3a) || (0x61 <= v <= 0x66),
    ensures
        c as u32 == v,
{
    if v < 0x3a {
        let digits = ['0', '1', '2', '3', '4', '5', '6', '7', '8', '9'];
        digits[(v - 0x30) as usize]
    } else {
        let letters = ['a', 'b', 'c', 'd', 'e', 'f'];
        letters[(v - 0x61) as usize]
    }
}

/// Append the JSON escape of `s` to `out`.
pub fn push_escaped(out: &mut String, s: &str)
    ensures
        final(out)@ == old(out)@ + escape_json(s@),
{
    let n = s.unicode_len();
    let mut i: usize = 0;
    while i < n
        invariant
            n == s@.len(),
            i <= n,
            out@ == old(out)@ + escape_json(s@.take(i as int)),
        decreases n - i,
    {
        let c = s.get_char(i);
        proof {
            assert(s@.take(i + 1).drop_last() =~= s@.take(i as int));
        }
        let ghost before = out@;
        if c == '"' {
            push_char(out, '\\');
            push_char(out, '"');
        } else if c == '\\' {
            push_char(out, '\\');
            push_char(out, '\\');
        } else if (c as u32) < 0x20 {
            push_char(out, '\\');
            push_char(out, 'u');
            push_char(out, '0');
            push_char(out, '0');
            push_char(out, digit_char(c as u32 / 16));
            push_char(out, digit_char(c as u32 % 16));
        } else {
            push_char(out, c);
        }
        proof {
            assert(out@ =~= before + escape_char(c));
            assert(old(out)@ + escape_json(s@.take(i + 1)) =~= old(out)@ + escape_json(
                s@.take(i as int),
            ) + escape_char(c));
        }
        i = i + 1;
    }
    proof {
        assert(s@.take(n as int) =~= s@);
    }
}

/// Append a JSON string literal holding `s` to `out`.
pub fn push_json_string(out: &mut String, s: &str)
    ensures
        final(out)@ == old(out)@ + json_string(s@),
{
    push_char(out, '"');
    push_escaped(out, s);
    push_char(out, '"');
    proof {
        assert(out@ =~= old(out)@ + json_string(s@));
    }
}

/// Decimal text of `n`, without leading zeros.
pub fn to_decimal(n: u128) -> (r: String)
    ensures
        r@ == decimal_text(n as nat),
    decreases n,
{
    if n < 10 {
        let mut s = String::new();
        push_char(&mut s, digit_char(n as u32));
        proof {
            assert(s@ =~= decimal_text(n as nat));
        }
        s
    } else {
        let mut s = to_decimal(n / 10);
        push_char(&mut s, digit_char((n % 10) as u32));
        s
    }
}

/// Lowercase hexadecimal text of a 32-byte value, prefixed with `0x`.
pub fn hex_of_bytes(b: &[u8; 32]) -> (r: String)
    ensures
        r@ == seq!['0', 'x'] + hex_text(b@),
        r@.len() == 66,
{
    let mut s = String::new();
    push_char(&mut s, '0');
    push_char(&mut s, 'x');
    let mut i: usize = 0;
    while i < 32
        invariant
            b@.len() == 32,
            i <= 32,
            s@ == seq!['0', 'x'] + hex_text(b@.take(i as int)),
            hex_text(b@.take(i as int)).len() == 2 * i,
        decreases 32 - i,
    {
        proof {
            assert(b@.take(i + 1).drop_last() =~= b@.take(i as int));
        }
        let v = b[i];
        push_char(&mut s, digit_char((v / 16) as u32));
        push_char(&mut s, digit_char((v % 16) as u32));
        proof {
            assert(s@ =~= seq!['0', 'x'] + hex_text(b@.take(i + 1)));
        }
        i = i + 1;
    }
    proof {
        assert(b@.take(32) =~= b@);
    }
    s
}

} // verus!
