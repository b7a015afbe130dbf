//! Text formatting: decimal numbers, byte sizes, padding and truncation.

use vstd::prelude::*;
use vstd::arithmetic::power2::*;

verus! {

/// `String::push` appends one character.
pub assume_specification[ String::push ](s: &mut String, ch: char)
    ensures
        final(s)@ == old(s)@.push(ch),
;

/// The ASCII digit for `d`, where `d < 10`.
pub open spec fn digit_char(d: nat) -> char {
    if d == 0 { '0' }
    else if d == 1 { '1' }
    else if d == 2 { '2' }
    else if d == 3 { '3' }
    else if d == 4 { '4' }
    else if d == 5 { '5' }
    else if d == 6 { '6' }
    else if d == 7 { '7' }
    else if d == 8 { '8' }
    else { '9' }
}

/// The decimal representation of `n`, without leading zeros ("0" for zero).
pub open spec fn decimal(n: nat) -> Seq<char>
    decreases n,
{
    if n < 10 {
        seq![digit_char(n)]
    } else {
        decimal(n / 10).push(digit_char(n % 10))
    }
}

fn digit(d: u64) -> (c: char)
    requires
        d < 10,
    ensures
        c == digit_char(d as nat),
{
    if d == 0 { '0' }
    else if d == 1 { '1' }
    else if d == 2 { '2' }
    else if d == 3 { '3' }
    else if d == 4 { '4' }
    else if d == 5 { '5' }
    else if d == 6 { '6' }
    else if d == 7 { '7' }
    else if d == 8 { '8' }
    else { '9' }
}

/// Appends the decimal representation of `n` to `s`.
pub fn push_decimal(s: &mut String, n: u64)
    ensures
        final(s)@ == old(s)@ + decimal(n as nat),
    decreases n,
{
    if n >= 10 {
        push_decimal(s, n / 10);
    }
    s.push(digit(n % 10));
    proof {
        assert(old(s)@ + decimal(n as nat) =~= s@);
    }
}


/// The number a string of ASCII digits spells, read left to right.
pub open spec fn digits_value(s: Seq<char>) -> int
    decreases s.len(),
{
    if s.len() == 0 {
        0
    } else {
        digits_value(s.drop_last()) * 10 + ((s.last() as u32) - 48)
    }
}

/// The digit for `d` is the character with code 48 + `d`.
proof fn lemma_digit_code(d: nat)
    requires
        d < 10,
    ensures
        digit_char(d) as u32 == 48 + d,
{
    if d == 0 {} else if d == 1 {} else if d == 2 {} else if d == 3 {} else if d == 4 {}
    else if d == 5 {} else if d == 6 {} else if d == 7 {} else if d == 8 {} else {}
}

/// Decimal text is ASCII digits, and reading it back gives the number: the
/// digit for `d` is the character with code 48 + `d`, and `decimal(n)`
/// spells `n`.
pub proof fn lemma_decimal_reads_back(n: nat)
    ensures
        digits_value(decimal(n)) == n,
        forall|i: int| 0 <= i < decimal(n).len() ==> 48 <= (#[trigger] decimal(n)[i] as u32) <= 57,
        decimal(n).len() >= 1,
    decreases n,
{
    if n >= 10 {
        lemma_decimal_reads_back(n / 10);
        let s = decimal(n);
        assert(s.drop_last() =~= decimal(n / 10));
        assert(digits_value(s) == digits_value(decimal(n / 10)) * 10 + (n % 10)) by {
            assert(s.last() == digit_char(n % 10));
            lemma_digit_code(n % 10);
        }
        assert((n / 10) * 10 + n % 10 == n) by (nonlinear_arith);
        assert(digits_value(s) == n);
        assert forall|i: int| 0 <= i < s.len() implies 48 <= (#[trigger] s[i] as u32) <= 57 by {
            if i < s.len() - 1 {
                assert(s[i] == decimal(n / 10)[i]);
            } else {
                lemma_digit_code(n % 10);
            }
        }
    } else {
        let s = decimal(n);
        assert(s.drop_last() =~= Seq::<char>::empty());
        assert(digits_value(s.drop_last()) == 0);
        lemma_digit_code(n);
        assert(digits_value(s) == n);
    }
}

/// Rounding to the nearest integer lands within half a unit: `q * d` is no
/// more than `d / 2` away from `x`.
pub proof fn lemma_round_half_even_nearest(x: nat, d: nat)
    requires
        d > 0,
    ensures
        2 * round_half_even(x, d) * d <= 2 * x + d,
        2 * x <= 2 * round_half_even(x, d) * d + d,
{
    let q = x / d;
    let r = x % d;
    assert(x == q * d + r && 0 <= r < d) by (nonlinear_arith)
        requires d > 0, q == x / d, r == x % d;
    let k = round_half_even(x, d);
    if 2 * r > d || (2 * r == d && q % 2 == 1) {
        assert(k == q + 1);
        assert(2 * k * d <= 2 * x + d && 2 * x <= 2 * k * d + d) by (nonlinear_arith)
            requires k == q + 1, x == q * d + r, 2 * r >= d, r < d;
    } else {
        assert(k == q);
        assert(2 * k * d <= 2 * x + d && 2 * x <= 2 * k * d + d) by (nonlinear_arith)
            requires k == q, x == q * d + r, 2 * r <= d, r >= 0;
    }
}

/// `x / d` rounded to the nearest integer, ties to the even neighbour.
pub open spec fn round_half_even(x: nat, d: nat) -> nat {
    let q = x / d;
    let r = x % d;
    if 2 * r > d || (2 * r == d && q % 2 == 1) {
        q + 1
    } else {
        q
    }
}

/// The number of binary digits of `n` (zero for zero).
pub open spec fn bit_length(n: nat) -> nat
    decreases n,
{
    if n == 0 {
        0
    } else {
        1 + bit_length(n / 2)
    }
}

/// The value of the double-precision float nearest to `n` (ties to even):
/// what converting the integer `n` to `f64` yields.
pub open spec fn nearest_f64(n: nat) -> nat {
    if bit_length(n) <= 53 {
        n
    } else {
        let scale = pow2((bit_length(n) - 53) as nat);
        round_half_even(n, scale) * scale
    }
}

/// `value / unit` written with exactly one decimal place, rounded to the
/// nearest tenth with ties to even.
pub open spec fn one_decimal(value: nat, unit: nat) -> Seq<char> {
    let tenths = round_half_even(value * 10, unit);
    decimal(tenths / 10) + seq!['.', digit_char(tenths % 10)]
}

pub open spec fn kib() -> nat { 1024 }
pub open spec fn mib() -> nat { 1048576 }
pub open spec fn gib() -> nat { 1073741824 }
pub open spec fn tib() -> nat { 1099511627776 }

/// The human-readable size of `bytes`: the largest binary unit (KB, MB, GB,
/// TB) not above it, with one decimal place, or the plain count in bytes.
pub open spec fn format_bytes_spec(bytes: nat) -> Seq<char> {
    if bytes >= tib() {
        one_decimal(nearest_f64(bytes), tib()) + seq![' ', 'T', 'B']
    } else if bytes >= gib() {
        one_decimal(bytes, gib()) + seq![' ', 'G', 'B']
    } else if bytes >= mib() {
        one_decimal(bytes, mib()) + seq![' ', 'M', 'B']
    } else if bytes >= kib() {
        one_decimal(bytes, kib()) + seq![' ', 'K', 'B']
    } else {
        decimal(bytes) + seq![' ', 'B']
    }
}

/// Sizes take their unit by the binary thresholds: bytes below 1024, KB
/// below 1024 KiB, MB below 1024 MiB, GB below 1024 GiB, TB from there on.
pub proof fn lemma_format_bytes_units(bytes: nat)
    ensures
        bytes < 1024 ==> format_bytes_spec(bytes) == decimal(bytes) + seq![' ', 'B'],
        1024 <= bytes < 1024 * 1024 ==> format_bytes_spec(bytes).last() == 'B'
            && format_bytes_spec(bytes)[format_bytes_spec(bytes).len() - 2] == 'K',
        1024 * 1024 <= bytes < 1024 * 1024 * 1024 ==> format_bytes_spec(bytes).last() == 'B'
            && format_bytes_spec(bytes)[format_bytes_spec(bytes).len() - 2] == 'M',
        1024 * 1024 * 1024 <= bytes < 1024 * 1024 * 1024 * 1024 ==> format_bytes_spec(bytes).last() == 'B'
            && format_bytes_spec(bytes)[format_bytes_spec(bytes).len() - 2] == 'G',
        1024 * 1024 * 1024 * 1024 <= bytes ==> format_bytes_spec(bytes).last() == 'B'
            && format_bytes_spec(bytes)[format_bytes_spec(bytes).len() - 2] == 'T',
{
}

proof fn lemma_below_pow2_bit_length(n: nat)
    ensures
        n < pow2(bit_length(n)),
    decreases n,
{
    lemma2_to64();
    if n > 0 {
        lemma_below_pow2_bit_length(n / 2);
        lemma_pow2_unfold(bit_length(n));
    }
}

proof fn lemma_bit_length_at_most(n: nat, k: nat)
    requires
        n < pow2(k),
    ensures
        bit_length(n) <= k,
    decreases k,
{
    lemma2_to64();
    if n > 0 {
        if k == 0 {
            assert(false);
        } else {
            lemma_pow2_unfold(k);
            lemma_bit_length_at_most(n / 2, (k - 1) as nat);
        }
    }
}

fn bit_length_u64(n: u64) -> (r: u32)
    ensures
        r == bit_length(n as nat),
        r <= 64,
{
    proof {
        lemma2_to64();
        lemma_bit_length_at_most(n as nat, 64);
    }
    let mut m: u64 = n;
    let mut r: u32 = 0;
    while m > 0
        invariant
            r + bit_length(m as nat) == bit_length(n as nat),
            bit_length(n as nat) <= 64,
        decreases m,
    {
        m = m / 2;
        r = r + 1;
    }
    r
}

fn pow2_u128(e: u32) -> (r: u128)
    requires
        e <= 64,
    ensures
        r == pow2(e as nat),
{
    proof {
        lemma2_to64();
    }
    let mut r: u128 = 1;
    let mut i: u32 = 0;
    while i < e
        invariant
            i <= e <= 64,
            r == pow2(i as nat),
        decreases e - i,
    {
        proof {
            lemma2_to64();
            lemma_pow2_unfold((i + 1) as nat);
            if i + 1 < 64 {
                lemma_pow2_strictly_increases((i + 1) as nat, 64);
            }
        }
        r = r * 2;
        i = i + 1;
    }
    r
}

fn round_half_even_u128(x: u128, d: u128) -> (r: u128)
    requires
        0 < d < 0x8000_0000_0000_0000_0000_0000_0000_0000,
    ensures
        r == round_half_even(x as nat, d as nat),
        r <= x / d + 1,
{
    let q = x / d;
    let rem = x % d;
    if 2 * rem > d || (2 * rem == d && q % 2 == 1) {
        assert(q < 0xffff_ffff_ffff_ffff_ffff_ffff_ffff_ffff) by (nonlinear_arith)
            requires
                q == x / d,
                rem == x % d,
                rem > 0,
                d > 0,
        ;
        q + 1
    } else {
        q
    }
}

fn nearest_f64_u64(n: u64) -> (f: u128)
    ensures
        f == nearest_f64(n as nat),
        f <= 0x1_0000_0000_0000_0000,
{
    let bl = bit_length_u64(n);
    if bl <= 53 {
        n as u128
    } else {
        let s = bl - 53;
        let scale = pow2_u128(s);
        proof {
            lemma2_to64();
            lemma_below_pow2_bit_length(n as nat);
            lemma_pow2_adds(53, s as nat);
            lemma_pow2_pos(s as nat);
            if s < 11 {
                lemma_pow2_strictly_increases(s as nat, 11);
            }
            lemma_pow2_strictly_increases(53, 64);
            if bl < 64 {
                lemma_pow2_strictly_increases(bl as nat, 64);
            }
        }
        let q = round_half_even_u128(n as u128, scale);
        proof {
            let p53 = pow2(53);
            let ps = pow2(s as nat);
            assert((n as nat) < p53 * ps);
            assert((n as nat) / ps < p53) by (nonlinear_arith)
                requires
                    (n as nat) < p53 * ps,
                    ps > 0,
            ;
            assert(q * scale <= p53 * ps) by (nonlinear_arith)
                requires
                    q <= p53,
                    scale == ps,
                    ps > 0,
            ;
        }
        q * scale
    }
}

/// Formats a byte count as a human-readable size, such as "16.0 GB".
pub fn format_bytes(bytes: u64) -> (s: String)
    ensures
        s@ == format_bytes_spec(bytes as nat),
{
    let mut s = String::new();
    if bytes < 1024 {
        push_decimal(&mut s, bytes);
        s.push(' ');
        s.push('B');
        return s;
    }
    let (value, unit, letter): (u128, u128, char) = if bytes >= 1099511627776 {
        (nearest_f64_u64(bytes), 1099511627776, 'T')
    } else if bytes >= 1073741824 {
        (bytes as u128, 1073741824, 'G')
    } else if bytes >= 1048576 {
        (bytes as u128, 1048576, 'M')
    } else {
        (bytes as u128, 1024, 'K')
    };
    let tenths = round_half_even_u128(value * 10, unit);
    proof {
        let v10 = (value * 10) as int;
        assert(v10 / (unit as int) <= v10 / 1024) by (nonlinear_arith)
            requires
                unit >= 1024,
                v10 >= 0,
        ;
    }
    let whole = (tenths / 10) as u64;
    let frac = (tenths % 10) as u64;
    push_decimal(&mut s, whole);
    s.push('.');
    s.push(digit(frac));
    s.push(' ');
    s.push(letter);
    s.push('B');
    s
}


/// `n` spaces.
pub open spec fn spaces(n: nat) -> Seq<char> {
    Seq::new(n, |i: int| ' ')
}

/// `s` right-aligned in a field of `width` characters.
pub open spec fn pad_left(s: Seq<char>, width: nat) -> Seq<char> {
    if s.len() >= width {
        s
    } else {
        spaces((width - s.len()) as nat) + s
    }
}

/// `s` left-aligned in a field of `width` characters.
pub open spec fn pad_right(s: Seq<char>, width: nat) -> Seq<char> {
    if s.len() >= width {
        s
    } else {
        s + spaces((width - s.len()) as nat)
    }
}

/// Appends `n` spaces.
pub fn push_spaces(out: &mut String, n: usize)
    ensures
        final(out)@ == old(out)@ + spaces(n as nat),
{
    let mut i: usize = 0;
    while i < n
        invariant
            i <= n,
            out@ == old(out)@ + spaces(i as nat),
        decreases n - i,
    {
        out.push(' ');
        i = i + 1;
        assert(out@ =~= old(out)@ + spaces(i as nat));
    }
}

/// Appends `s` right-aligned in a field of `width` characters.
pub fn push_padded_left(out: &mut String, s: &str, width: usize)
    ensures
        final(out)@ == old(out)@ + pad_left(s@, width as nat),
{
    let n = s.unicode_len();
    if n < width {
        push_spaces(out, width - n);
    }
    out.append(s);
    assert(out@ =~= old(out)@ + pad_left(s@, width as nat));
}

/// Appends `s` left-aligned in a field of `width` characters.
pub fn push_padded_right(out: &mut String, s: &str, width: usize)
    ensures
        final(out)@ == old(out)@ + pad_right(s@, width as nat),
{
    let n = s.unicode_len();
    out.append(s);
    if n < width {
        push_spaces(out, width - n);
    }
    assert(out@ =~= old(out)@ + pad_right(s@, width as nat));
}

} // verus!
