//! Decimal and hexadecimal text of integers: formatting and strict parsing.

use vstd::prelude::*;
use crate::text::push_char;

verus! {

/// Value of an ASCII digit in `radix` 10 or 16, if `c` is one.
pub open spec fn digit_value(c: char, radix: nat) -> Option<nat> {
    if '0' <= c && c <= '9' {
        Some((c as int - '0' as int) as nat)
    } else if radix == 16 && 'a' <= c && c <= 'f' {
        Some((c as int - 'a' as int + 10) as nat)
    } else if radix == 16 && 'A' <= c && c <= 'F' {
        Some((c as int - 'A' as int + 10) as nat)
    } else {
        None
    }
}

/// Every character of `s` is a digit in `radix`.
pub open spec fn all_digits(s: Seq<char>, radix: nat) -> bool {
    forall|i: int| 0 <= i < s.len() ==> #[trigger] digit_value(s[i], radix) is Some
}

/// Value of a digit string in `radix`, most significant digit first.
pub open spec fn digits_value(s: Seq<char>, radix: nat) -> nat
    decreases s.len(),
{
    if s.len() == 0 {
        0
    } else {
        digits_value(s.drop_last(), radix) * radix + match digit_value(s.last(), radix) {
            Some(d) => d,
            None => 0,
        }
    }
}

/// The integer that `s` denotes under Rust's `from_str_radix` rules: an optional
/// `+` (or `-` when `signed`), then at least one digit; `None` when malformed
/// or outside `[min, max]`.
pub open spec fn parse_int_spec(s: Seq<char>, radix: nat, signed: bool, min: int, max: int) -> Option<int> {
    let negative = s.len() > 0 && s[0] == '-' && signed;
    let body = if s.len() > 0 && (s[0] == '+' || (s[0] == '-' && signed)) { s.drop_first() } else { s };
    if body.len() == 0 || !all_digits(body, radix) {
        None
    } else {
        let v = if negative { -(digits_value(body, radix) as int) } else { digits_value(body, radix) as int };
        if min <= v && v <= max {
            Some(v)
        } else {
            None
        }
    }
}

proof fn lemma_digits_value_monotone(s: Seq<char>, radix: nat, i: int)
    requires
        0 <= i <= s.len(),
        radix >= 1,
    ensures
        digits_value(s.subrange(0, i), radix) <= digits_value(s, radix),
    decreases s.len() - i,
{
    if i < s.len() {
        lemma_digits_value_monotone(s, radix, i + 1);
        assert(s.subrange(0, i + 1).drop_last() =~= s.subrange(0, i));
        let a = digits_value(s.subrange(0, i), radix);
        assert(a * radix >= a) by (nonlinear_arith)
            requires radix >= 1;
    } else {
        assert(s.subrange(0, i) =~= s);
    }
}

fn exec_digit_value(c: char, radix: u64) -> (r: Option<u64>)
    requires
        radix == 10 || radix == 16,
    ensures
        match r {
            Some(d) => digit_value(c, radix as nat) == Some(d as nat) && d < radix,
            None => digit_value(c, radix as nat) is None,
        },
{
    if '0' <= c && c <= '9' {
        Some((c as u32 - '0' as u32) as u64)
    } else if radix == 16 && 'a' <= c && c <= 'f' {
        Some((c as u32 - 'a' as u32 + 10) as u64)
    } else if radix == 16 && 'A' <= c && c <= 'F' {
        Some((c as u32 - 'A' as u32 + 10) as u64)
    } else {
        None
    }
}

/// Magnitude of the digits `s[from..]`, if they are all digits in `radix`, none
/// is missing, and the magnitude is at most `limit`.
fn parse_magnitude(s: &[char], from: usize, radix: u64, limit: u64) -> (r: Option<u64>)
    requires
        radix == 10 || radix == 16,
        from <= s.len(),
        limit <= 0x8000_0000_0000_0000u64,
    ensures
        match r {
            Some(v) => s@.subrange(from as int, s.len() as int).len() > 0
                && all_digits(s@.subrange(from as int, s.len() as int), radix as nat)
                && v == digits_value(s@.subrange(from as int, s.len() as int), radix as nat)
                && v <= limit,
            None => s@.subrange(from as int, s.len() as int).len() == 0
                || !all_digits(s@.subrange(from as int, s.len() as int), radix as nat)
                || digits_value(s@.subrange(from as int, s.len() as int), radix as nat) > limit,
        },
{
    let ghost body = s@.subrange(from as int, s.len() as int);
    if from >= s.len() {
        return None;
    }
    let mut acc: u64 = 0;
    let mut i = from;
    while i < s.len()
        invariant
            from <= i <= s.len(),
            body == s@.subrange(from as int, s.len() as int),
            radix == 10 || radix == 16,
            limit <= 0x8000_0000_0000_0000u64,
            all_digits(s@.subrange(from as int, i as int), radix as nat),
            acc == digits_value(s@.subrange(from as int, i as int), radix as nat),
            acc <= limit,
        decreases s.len() - i,
    {
        let d = match exec_digit_value(s[i], radix) {
            Some(d) => d,
            None => {
                assert(body[i - from] == s@[i as int]);
                return None;
            },
        };
        let ghost prefix = s@.subrange(from as int, i + 1);
        assert(prefix.drop_last() =~= s@.subrange(from as int, i as int));
        assert(all_digits(prefix, radix as nat)) by {
            assert forall|k: int| 0 <= k < prefix.len() implies #[trigger] digit_value(prefix[k], radix as nat) is Some by {
                if k < prefix.len() - 1 {
                    assert(prefix[k] == s@.subrange(from as int, i as int)[k]);
                }
            }
        }
        if d > limit || acc > (limit - d) / radix {
            proof {
                if d <= limit {
                    assert(acc * radix + d > limit) by (nonlinear_arith)
                        requires acc > (limit - d) / (radix as int), radix >= 10, d <= limit;
                }
                lemma_digits_value_monotone(body, radix as nat, i + 1 - from);
                assert(body.subrange(0, i + 1 - from) =~= prefix);
            }
            return None;
        }
        proof {
            assert(acc * radix + d <= limit) by (nonlinear_arith)
                requires acc <= (limit - d) / (radix as int), radix >= 10, d <= limit;
        }
        acc = acc * radix + d;
        i = i + 1;
    }
    Some(acc)
}

/// Parse `s` as Rust's `from_str_radix` does for a type whose range is
/// `[min, max]`, with `min` either zero (unsigned) or `-(max + 1)` (signed).
fn parse_int(s: &[char], radix: u64, signed: bool, max: u64) -> (r: Option<i128>)
    requires
        radix == 10 || radix == 16,
        0 < max < 0x8000_0000_0000_0000u64 || (!signed && max == 0xffff_ffff_ffff_ffffu64),
    ensures
        match r {
            Some(v) => parse_int_spec(s@, radix as nat, signed, if signed { -(max + 1) } else { 0 }, max as int) == Some(v as int),
            None => parse_int_spec(s@, radix as nat, signed, if signed { -(max + 1) } else { 0 }, max as int) is None,
        },
{
    let negative = s.len() > 0 && s[0] == '-' && signed;
    let from: usize = if s.len() > 0 && (s[0] == '+' || (s[0] == '-' && signed)) { 1 } else { 0 };
    let ghost body = if s@.len() > 0 && (s@[0] == '+' || (s@[0] == '-' && signed)) { s@.drop_first() } else { s@ };
    assert(body =~= s@.subrange(from as int, s.len() as int));
    if !signed && max == 0xffff_ffff_ffff_ffffu64 {
        // Full unsigned 64-bit range: parse in two halves of the limit.
        return parse_u64_full(s, from, radix);
    }
    let limit: u64 = if negative { max + 1 } else { max };
    match parse_magnitude(s, from, radix, limit) {
        Some(v) => {
            if negative {
                Some(-(v as i128))
            } else {
                Some(v as i128)
            }
        },
        None => None,
    }
}

/// Parse the unsigned digits `s[from..]` into the full `u64` range.
fn parse_u64_full(s: &[char], from: usize, radix: u64) -> (r: Option<i128>)
    requires
        radix == 10 || radix == 16,
        from <= s.len(),
    ensures
        match r {
            Some(v) => s@.subrange(from as int, s.len() as int).len() > 0
                && all_digits(s@.subrange(from as int, s.len() as int), radix as nat)
                && v == digits_value(s@.subrange(from as int, s.len() as int), radix as nat)
                && v <= 0xffff_ffff_ffff_ffffu64,
            None => s@.subrange(from as int, s.len() as int).len() == 0
                || !all_digits(s@.subrange(from as int, s.len() as int), radix as nat)
                || digits_value(s@.subrange(from as int, s.len() as int), radix as nat) > 0xffff_ffff_ffff_ffffu64,
        },
{
    let ghost body = s@.subrange(from as int, s.len() as int);
    if from >= s.len() {
        return None;
    }
    let mut acc: u128 = 0;
    let mut i = from;
    while i < s.len()
        invariant
            from <= i <= s.len(),
            body == s@.subrange(from as int, s.len() as int),
            radix == 10 || radix == 16,
            all_digits(s@.subrange(from as int, i as int), radix as nat),
            acc == digits_value(s@.subrange(from as int, i as int), radix as nat),
            acc <= 0xffff_ffff_ffff_ffffu64,
        decreases s.len() - i,
    {
        let d = match exec_digit_value(s[i], radix) {
            Some(d) => d,
            None => {
                assert(body[i - from] == s@[i as int]);
                return None;
            },
        };
        let ghost prefix = s@.subrange(from as int, i + 1);
        assert(prefix.drop_last() =~= s@.subrange(from as int, i as int));
        assert(all_digits(prefix, radix as nat)) by {
            assert forall|k: int| 0 <= k < prefix.len() implies #[trigger] digit_value(prefix[k], radix as nat) is Some by {
                if k < prefix.len() - 1 {
                    assert(prefix[k] == s@.subrange(from as int, i as int)[k]);
                }
            }
        }
        assert(acc * (radix as u128) + (d as u128) <= 0xffff_ffff_ffff_ffffu128 * 16 + 16) by (nonlinear_arith)
            requires acc <= 0xffff_ffff_ffff_ffffu64, radix <= 16, d < radix;
        let next = acc * (radix as u128) + (d as u128);
        if next > 0xffff_ffff_ffff_ffffu128 {
            proof {
                lemma_digits_value_monotone(body, radix as nat, i + 1 - from);
                assert(body.subrange(0, i + 1 - from) =~= prefix);
            }
            return None;
        }
        acc = next;
        i = i + 1;
    }
    Some(acc as i128)
}

/// Parse a decimal `i32` as `str::parse::<i32>` does.
pub fn parse_i32(s: &[char]) -> (r: Option<i32>)
    ensures
        match r {
            Some(v) => parse_int_spec(s@, 10, true, i32::MIN as int, i32::MAX as int) == Some(v as int),
            None => parse_int_spec(s@, 10, true, i32::MIN as int, i32::MAX as int) is None,
        },
{
    match parse_int(s, 10, true, 0x7fff_ffff) {
        Some(v) => Some(v as i32),
        None => None,
    }
}

/// Parse a decimal `i64` as `str::parse::<i64>` does.
pub fn parse_i64(s: &[char]) -> (r: Option<i64>)
    ensures
        match r {
            Some(v) => parse_int_spec(s@, 10, true, i64::MIN as int, i64::MAX as int) == Some(v as int),
            None => parse_int_spec(s@, 10, true, i64::MIN as int, i64::MAX as int) is None,
        },
{
    match parse_int(s, 10, true, 0x7fff_ffff_ffff_ffff) {
        Some(v) => Some(v as i64),
        None => None,
    }
}

/// Parse hexadecimal digits as `i64::from_str_radix(s, 16)`.
pub fn parse_hex_i64_signed(s: &[char]) -> (r: Option<i64>)
    ensures
        match r {
            Some(v) => parse_int_spec(s@, 16, true, i64::MIN as int, i64::MAX as int) == Some(v as int),
            None => parse_int_spec(s@, 16, true, i64::MIN as int, i64::MAX as int) is None,
        },
{
    match parse_int(s, 16, true, 0x7fff_ffff_ffff_ffff) {
        Some(v) => Some(v as i64),
        None => None,
    }
}

/// Parse hexadecimal digits as `u64::from_str_radix(s, 16)`.
pub fn parse_hex_u64(s: &[char]) -> (r: Option<u64>)
    ensures
        match r {
            Some(v) => parse_int_spec(s@, 16, false, 0, u64::MAX as int) == Some(v as int),
            None => parse_int_spec(s@, 16, false, 0, u64::MAX as int) is None,
        },
{
    match parse_int(s, 16, false, 0xffff_ffff_ffff_ffff) {
        Some(v) => Some(v as u64),
        None => None,
    }
}

/// Decimal digits of `n`, most significant first, without leading zeros.
pub open spec fn decimal(n: nat) -> Seq<char>
    decreases n,
{
    if n < 10 {
        seq![(('0' as int) + n) as char]
    } else {
        decimal(n / 10).push((('0' as int) + (n % 10)) as char)
    }
}

proof fn lemma_decimal_len(n: nat)
    ensures
        decimal(n).len() >= 1,
        n >= 10 ==> decimal(n).len() >= 2,
    decreases n,
{
    if n >= 10 {
        lemma_decimal_len(n / 10);
    }
}

/// Distinct numbers have distinct decimal text.
pub proof fn lemma_decimal_injective(a: nat, b: nat)
    requires
        decimal(a) == decimal(b),
    ensures
        a == b,
    decreases a,
{
    lemma_decimal_len(a);
    lemma_decimal_len(b);
    if a < 10 && b < 10 {
        assert(decimal(a)[0] == decimal(b)[0]);
        assert(decimal(a)[0] as int == '0' as int + a);
        assert(decimal(b)[0] as int == '0' as int + b);
    } else if a >= 10 && b >= 10 {
        assert(decimal(a).last() == decimal(b).last());
        assert(decimal(a).last() as int == '0' as int + a % 10);
        assert(decimal(b).last() as int == '0' as int + b % 10);
        assert(decimal(a).drop_last() =~= decimal(a / 10));
        assert(decimal(b).drop_last() =~= decimal(b / 10));
        lemma_decimal_injective(a / 10, b / 10);
    } else {
        assert(decimal(a).len() != decimal(b).len());
    }
}

/// Decimal text of an integer, with `-` before a negative one.
pub open spec fn signed_decimal(v: int) -> Seq<char> {
    if v < 0 {
        seq!['-'] + decimal((-v) as nat)
    } else {
        decimal(v as nat)
    }
}

/// `s` left-padded with zeros to at least `width` characters.
pub open spec fn zero_pad(s: Seq<char>, width: nat) -> Seq<char> {
    if s.len() >= width {
        s
    } else {
        Seq::new((width - s.len()) as nat, |i: int| '0') + s
    }
}

fn digit_char(d: u64) -> (c: char)
    requires
        d < 10,
    ensures
        c == (('0' as int) + d) as char,
{
    if d == 0 { '0' } else if d == 1 { '1' } else if d == 2 { '2' } else if d == 3 { '3' } else if d == 4 { '4' }
    else if d == 5 { '5' } else if d == 6 { '6' } else if d == 7 { '7' } else if d == 8 { '8' } else { '9' }
}

/// Append the decimal digits of `n`.
pub fn push_u64(s: &mut String, n: u64)
    ensures
        final(s)@ == old(s)@ + decimal(n as nat),
    decreases n,
{
    if n < 10 {
        push_char(s, digit_char(n));
        assert(decimal(n as nat) =~= seq![(('0' as int) + n) as char]);
    } else {
        push_u64(s, n / 10);
        push_char(s, digit_char(n % 10));
        assert(old(s)@ + decimal(n as nat) =~= old(s)@ + decimal((n / 10) as nat) + seq![(('0' as int) + (n % 10)) as char]);
    }
}

/// Append the decimal text of `v`, with `-` when negative.
pub fn push_i64(s: &mut String, v: i64)
    ensures
        final(s)@ == old(s)@ + signed_decimal(v as int),
{
    if v < 0 {
        push_char(s, '-');
        let m: u64 = if v == i64::MIN { 0x8000_0000_0000_0000u64 } else { (-v) as u64 };
        push_u64(s, m);
        assert(old(s)@ + signed_decimal(v as int) =~= old(s)@ + seq!['-'] + decimal(m as nat));
    } else {
        push_u64(s, v as u64);
    }
}

/// Ten to the power `k`.
pub open spec fn pow10(k: nat) -> nat
    decreases k,
{
    if k == 0 {
        1
    } else {
        10 * pow10((k - 1) as nat)
    }
}

proof fn lemma_decimal_len_bound(n: nat, k: nat)
    requires
        k >= 1,
        n < pow10(k),
    ensures
        decimal(n).len() <= k,
    decreases k,
{
    if n >= 10 {
        let p = pow10((k - 1) as nat);
        if k == 1 {
            assert(pow10(0) == 1);
        }
        assert(n / 10 < p) by (nonlinear_arith)
            requires n < 10 * p;
        lemma_decimal_len_bound(n / 10, (k - 1) as nat);
    }
}

/// Number of decimal digits of `n`.
pub fn decimal_len(n: u64) -> (r: usize)
    ensures
        r == decimal(n as nat).len(),
        1 <= r <= 20,
    decreases n,
{
    proof {
        assert(pow10(20) == 100000000000000000000nat) by { reveal_with_fuel(pow10, 21); }
        lemma_decimal_len_bound(n as nat, 20);
    }
    if n < 10 {
        1
    } else {
        decimal_len(n / 10) + 1
    }
}

/// Append the decimal digits of `n`, left-padded with zeros to `width`.
pub fn push_u64_padded(s: &mut String, n: u64, width: usize)
    ensures
        final(s)@ == old(s)@ + zero_pad(decimal(n as nat), width as nat),
{
    let len = decimal_len(n);
    let ghost start = s@;
    if len < width {
        let mut k: usize = 0;
        while k < width - len
            invariant
                0 <= k <= width - len,
                len < width,
                s@ == start + Seq::new(k as nat, |i: int| '0'),
            decreases width - len - k,
        {
            push_char(s, '0');
            k = k + 1;
            assert(s@ =~= start + Seq::new(k as nat, |i: int| '0'));
        }
    }
    let ghost mid = s@;
    push_u64(s, n);
    assert(s@ =~= start + zero_pad(decimal(n as nat), width as nat));
}

} // verus!
