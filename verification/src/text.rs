//! Rendering numbers as text, for error messages and status lines.

use vstd::prelude::*;
use vstd::string::*;
use crate::wire::same_range;

verus! {

/// The hexadecimal digit for a value below sixteen, in lower case.
pub open spec fn digit_char(d: int) -> char {
    if d == 0 {
        '0'
    } else if d == 1 {
        '1'
    } else if d == 2 {
        '2'
    } else if d == 3 {
        '3'
    } else if d == 4 {
        '4'
    } else if d == 5 {
        '5'
    } else if d == 6 {
        '6'
    } else if d == 7 {
        '7'
    } else if d == 8 {
        '8'
    } else if d == 9 {
        '9'
    } else if d == 10 {
        'a'
    } else if d == 11 {
        'b'
    } else if d == 12 {
        'c'
    } else if d == 13 {
        'd'
    } else if d == 14 {
        'e'
    } else {
        'f'
    }
}

/// The digits of `n` in the given base, most significant first, without leading zeros.
pub open spec fn digits(n: nat, base: nat) -> Seq<char>
    recommends
        2 <= base <= 16,
    decreases n,
{
    if base < 2 || n < base {
        seq![digit_char(n as int)]
    } else {
        proof {
            assert(n / base < n) by (nonlinear_arith)
                requires
                    base >= 2,
                    n >= base,
            ;
        }
        digits(n / base, base).push(digit_char((n % base) as int))
    }
}

/// `n` in decimal.
pub open spec fn dec(n: nat) -> Seq<char> {
    digits(n, 10)
}

/// `b` as exactly two hexadecimal digits.
pub open spec fn hex2(b: u8) -> Seq<char> {
    seq![digit_char(b as int / 16), digit_char(b as int % 16)]
}

/// `v` as exactly sixteen hexadecimal digits.
pub open spec fn hex16(v: u64) -> Seq<char> {
    Seq::new(16, |i: int| digit_char(v as int / pow16(15 - i) % 16))
}

/// The value of the digit with `n` digits behind it.
pub open spec fn pow16(n: int) -> int
    decreases n,
{
    if n <= 0 {
        1
    } else {
        16 * pow16(n - 1)
    }
}

/// The one-character string of a digit.
pub fn digit_text(d: u8) -> (s: &'static str)
    requires
        d < 16,
    ensures
        s@ == seq![digit_char(d as int)],
{
    proof {
        reveal_strlit("0");
        reveal_strlit("1");
        reveal_strlit("2");
        reveal_strlit("3");
        reveal_strlit("4");
        reveal_strlit("5");
        reveal_strlit("6");
        reveal_strlit("7");
        reveal_strlit("8");
        reveal_strlit("9");
        reveal_strlit("a");
        reveal_strlit("b");
        reveal_strlit("c");
        reveal_strlit("d");
        reveal_strlit("e");
        reveal_strlit("f");
    }
    if d == 0 {
        "0"
    } else if d == 1 {
        "1"
    } else if d == 2 {
        "2"
    } else if d == 3 {
        "3"
    } else if d == 4 {
        "4"
    } else if d == 5 {
        "5"
    } else if d == 6 {
        "6"
    } else if d == 7 {
        "7"
    } else if d == 8 {
        "8"
    } else if d == 9 {
        "9"
    } else if d == 10 {
        "a"
    } else if d == 11 {
        "b"
    } else if d == 12 {
        "c"
    } else if d == 13 {
        "d"
    } else if d == 14 {
        "e"
    } else {
        "f"
    }
}

/// Renders `n` in the given base.
pub fn digits_text(n: u64, base: u64) -> (s: String)
    requires
        2 <= base <= 16,
    ensures
        s@ == digits(n as nat, base as nat),
    decreases n,
{
    if n < base {
        digit_text(n as u8).to_owned()
    } else {
        assert(n / base < n) by (nonlinear_arith)
            requires
                base >= 2,
                n >= base,
        ;
        assert(n % base < base);
        let mut s = digits_text(n / base, base);
        let ghost head = s@;
        s.append(digit_text((n % base) as u8));
        proof {
            let c = digit_char((n % base) as int);
            assert(head + seq![c] =~= head.push(c));
        }
        s
    }
}

/// Appends `n` in decimal.
pub fn push_dec(s: &mut String, n: u64)
    ensures
        final(s)@ == old(s)@ + dec(n as nat),
{
    let d = digits_text(n, 10);
    s.append(d.as_str());
}

/// Appends a byte as two hexadecimal digits.
pub fn push_hex2(s: &mut String, b: u8)
    ensures
        final(s)@ == old(s)@ + hex2(b),
{
    let ghost before = s@;
    s.append(digit_text(b / 16));
    s.append(digit_text(b % 16));
    assert(s@ =~= before + hex2(b));
}

/// A digit has a value.
proof fn lemma_pow16_positive(n: int)
    ensures
        pow16(n) >= 1,
    decreases n,
{
    if n > 0 {
        lemma_pow16_positive(n - 1);
    }
}

/// Appends a number as sixteen hexadecimal digits.
pub fn push_hex16(s: &mut String, v: u64)
    ensures
        final(s)@ == old(s)@ + hex16(v),
{
    let ghost before = s@;
    let mut unit: u64 = 0x1000_0000_0000_0000;
    let mut i: usize = 0;
    proof {
        reveal_with_fuel(pow16, 16);
    }
    while i < 16
        invariant
            i <= 16,
            before == old(s)@,
            i < 16 ==> unit == pow16(15 - i),
            s@ == before + hex16(v).take(i as int),
        decreases 16 - i,
    {
        proof {
            lemma_pow16_positive(15 - i);
        }
        let d: u64 = v / unit % 16;
        s.append(digit_text(d as u8));
        proof {
            assert(hex16(v)[i as int] == digit_char(d as int));
            assert(s@ =~= before + hex16(v).take(i + 1));
            if i < 15 {
                assert(pow16(15 - i) == 16 * pow16(14 - i));
            }
        }
        unit = unit / 16;
        i += 1;
    }
    assert(hex16(v).take(16) =~= hex16(v));
}

/// Whether two strings are the same.
pub fn same_text(a: &str, b: &str) -> (r: bool)
    ensures
        r == (a@ == b@),
{
    let x = a.as_bytes();
    let y = b.as_bytes();
    proof {
        vstd::utf8::encode_utf8_decode_utf8(a@);
        vstd::utf8::encode_utf8_decode_utf8(b@);
    }
    if x.len() != y.len() {
        return false;
    }
    let r: bool = same_range(x, y, 0, x.len());
    proof {
        assert(x@.subrange(0, x@.len() as int) =~= x@);
        assert(y@.subrange(0, y@.len() as int) =~= y@);
    }
    r
}

/// What a character stands for as a digit.
pub open spec fn digit_value(c: char) -> int {
    if c as int >= 97 {
        c as int - 97 + 10
    } else {
        c as int - 48
    }
}

/// The number that digits stand for, the most significant first.
pub open spec fn value(s: Seq<char>, base: nat) -> nat
    decreases s.len(),
{
    if s.len() == 0 {
        0
    } else {
        (base * value(s.drop_last(), base) + digit_value(s.last())) as nat
    }
}

/// One digit reads back.
proof fn lemma_digit_reads_back(d: int)
    requires
        0 <= d < 16,
    ensures
        digit_value(digit_char(d)) == d,
{
}

/// The digits of a number read back as the number, and there is no zero in front.
pub proof fn law_digits_read_back(n: nat, base: nat)
    requires
        2 <= base <= 16,
    ensures
        value(digits(n, base), base) == n,
        digits(n, base).len() >= 1,
        n > 0 ==> digits(n, base)[0] != '0',
    decreases n,
{
    let s = digits(n, base);
    if n < base {
        lemma_digit_reads_back(n as int);
        assert(s.drop_last() =~= Seq::<char>::empty());
        assert(base * 0 == 0) by (nonlinear_arith);
        assert(value(s.drop_last(), base) == 0);
    } else {
        assert(0 < n / base < n) by (nonlinear_arith)
            requires
                base >= 2,
                n >= base,
        ;
        assert(0 <= n % base < base) by (nonlinear_arith)
            requires
                base >= 2,
        ;
        law_digits_read_back(n / base, base);
        lemma_digit_reads_back((n % base) as int);
        assert(s.drop_last() =~= digits(n / base, base));
        assert(base * (n / base) + n % base == n) by (nonlinear_arith)
            requires
                base >= 2,
        ;
    }
}

/// A byte is written with two digits to the base sixteen, which read back as the byte.
pub proof fn law_hex2_reads_back(b: u8)
    ensures
        hex2(b).len() == 2,
        value(hex2(b), 16) == b,
{
    let s = hex2(b);
    reveal_with_fuel(value, 3);
    lemma_digit_reads_back(b as int / 16);
    lemma_digit_reads_back(b as int % 16);
    assert(s.drop_last().drop_last().len() == 0);
    assert(s.drop_last().last() == s[0]);
}

/// The first `k` digits to the base sixteen.
proof fn lemma_hex16_prefix(v: u64, k: int)
    requires
        0 <= k <= 16,
    ensures
        value(hex16(v).take(k), 16) == v as int / pow16(16 - k),
    decreases k,
{
    let s = hex16(v).take(k);
    reveal_with_fuel(pow16, 18);
    assert(pow16(0) == 1);
    assert(pow16(16) == 0x1_0000_0000_0000_0000);
    if k == 0 {
        assert(s.len() == 0);
    } else {
        lemma_hex16_prefix(v, k - 1);
        assert(s.drop_last() =~= hex16(v).take(k - 1));
        let p = pow16(16 - k);
        assert(p >= 1) by {
            lemma_pow16_pos(16 - k);
        }
        let d = v as int / p;
        assert(pow16(16 - (k - 1)) == 16 * p);
        vstd::arithmetic::div_mod::lemma_div_denominator(v as int, p, 16);
        assert(p * 16 == 16 * p);
        assert(v as int / (16 * p) == d / 16);
        assert(s.last() == digit_char(v as int / pow16(15 - (k - 1)) % 16));
        lemma_digit_reads_back(d % 16);
        assert(16 * (d / 16) + d % 16 == d);
    }
}

/// Powers of sixteen are positive.
proof fn lemma_pow16_pos(n: int)
    ensures
        pow16(n) >= 1,
    decreases n,
{
    if n > 0 {
        lemma_pow16_pos(n - 1);
    }
}

/// A number of eight bytes is written with sixteen digits to the base sixteen, which read back as
/// the number.
pub proof fn law_hex16_reads_back(v: u64)
    ensures
        hex16(v).len() == 16,
        value(hex16(v), 16) == v,
{
    lemma_hex16_prefix(v, 16);
    assert(hex16(v).take(16) =~= hex16(v));
    assert(v as int / 1 == v);
}

} // verus!
