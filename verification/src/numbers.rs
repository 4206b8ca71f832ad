//! Decimal and hexadecimal text for the wire format: unsigned and signed
//! decimal fields, and the `#RRGGBB` color form, each with an encoder, a
//! parser, and the round-trip facts the codec's proofs rest on.

use vstd::arithmetic::div_mod::lemma_fundamental_div_mod;
use vstd::prelude::*;

use crate::bytes::sep_free;
use crate::Color;

verus! {

pub open spec fn is_digit(b: u8) -> bool {
    48 <= b && b <= 57
}

pub open spec fn all_digits(s: Seq<u8>) -> bool {
    forall|i: int| 0 <= i < s.len() ==> is_digit(s[i])
}

/// The shortest decimal numeral of `n`, most significant digit first.
pub open spec fn spec_dec_digits(n: nat) -> Seq<u8>
    decreases n,
{
    if n < 10 {
        seq![(48 + n) as u8]
    } else {
        spec_dec_digits(n / 10).push((48 + n % 10) as u8)
    }
}

/// The value of a digit string, most significant digit first.
pub open spec fn spec_dec_val(s: Seq<u8>) -> nat
    decreases s.len(),
{
    if s.len() == 0 {
        0
    } else {
        spec_dec_val(s.drop_last()) * 10 + (s.last() - 48) as nat
    }
}

pub proof fn lemma_dec_digits_wf(n: nat)
    ensures
        spec_dec_digits(n).len() >= 1,
        all_digits(spec_dec_digits(n)),
    decreases n,
{
    if n < 10 {
    } else {
        lemma_dec_digits_wf(n / 10);
        assert(0 <= n % 10 < 10) by {
            lemma_fundamental_div_mod(n as int, 10);
        }
    }
}

/// Digit strings hold no wire delimiter: no `:`, `,`, `-` or `#`.
pub proof fn lemma_digits_sep_free(s: Seq<u8>)
    requires
        all_digits(s),
    ensures
        sep_free(s, 58),
        sep_free(s, 44),
        sep_free(s, 45),
        sep_free(s, 35),
{
}

/// Reading back the numeral of `n` yields `n`.
pub proof fn lemma_dec_digits_val(n: nat)
    ensures
        spec_dec_val(spec_dec_digits(n)) == n,
    decreases n,
{
    if n < 10 {
        let s = seq![(48 + n) as u8];
        assert(s.drop_last() =~= Seq::<u8>::empty());
        assert(spec_dec_val(Seq::<u8>::empty()) == 0);
        assert(s.last() == (48 + n) as u8);
        assert(spec_dec_val(s) == spec_dec_val(s.drop_last()) * 10 + (s.last() - 48) as nat);
    } else {
        lemma_dec_digits_val(n / 10);
        let prefix = spec_dec_digits(n / 10);
        let s = prefix.push((48 + n % 10) as u8);
        assert(s.drop_last() =~= prefix);
        assert(0 <= n % 10 < 10) by {
            lemma_fundamental_div_mod(n as int, 10);
        }
        assert((n / 10) * 10 + n % 10 == n) by {
            lemma_fundamental_div_mod(n as int, 10);
        }
    }
}

/// The value of a digit string bounds the value of each of its prefixes.
pub proof fn lemma_dec_val_prefix(s: Seq<u8>, i: int)
    requires
        0 <= i <= s.len(),
    ensures
        spec_dec_val(s.take(i)) <= spec_dec_val(s),
    decreases s.len(),
{
    if i == s.len() {
        assert(s.take(i) =~= s);
    } else {
        assert(s.take(i) =~= s.drop_last().take(i));
        lemma_dec_val_prefix(s.drop_last(), i);
        assert(spec_dec_val(s.drop_last()) * 10 >= spec_dec_val(s.drop_last()));
    }
}

/// A nonempty all-digit string whose value fits in `u64`, and nothing else.
pub open spec fn spec_parse_u64(s: Seq<u8>) -> Option<u64> {
    if s.len() > 0 && all_digits(s) && spec_dec_val(s) <= u64::MAX {
        Some(spec_dec_val(s) as u64)
    } else {
        None
    }
}

/// Appends the decimal numeral of `n`.
pub fn push_u64_dec(out: &mut Vec<u8>, n: u64)
    ensures
        final(out)@ == old(out)@ + spec_dec_digits(n as nat),
    decreases n,
{
    let ghost prev = out@;
    if n >= 10 {
        push_u64_dec(out, n / 10);
    }
    let digit: u8 = (n % 10) as u8 + 48;
    out.push(digit);
    proof {
        lemma_fundamental_div_mod(n as int, 10);
        if n < 10 {
            assert(n % 10 == n as int);
            assert(out@ =~= prev + spec_dec_digits(n as nat));
        } else {
            assert(out@ =~= prev + spec_dec_digits(n as nat));
        }
    }
}

pub fn parse_u64(s: &Vec<u8>) -> (r: Option<u64>)
    ensures
        r == spec_parse_u64(s@),
{
    if s.len() == 0 {
        return None;
    }
    let mut acc: u64 = 0;
    let mut i: usize = 0;
    while i < s.len()
        invariant
            0 <= i <= s@.len(),
            s@.len() > 0,
            all_digits(s@.take(i as int)),
            acc == spec_dec_val(s@.take(i as int)),
        decreases s@.len() - i,
    {
        let b = s[i];
        if b < 48 || b > 57 {
            proof {
                assert(!is_digit(s@[i as int]));
            }
            return None;
        }
        let d: u64 = (b - 48) as u64;
        proof {
            assert(s@.take(i + 1).drop_last() =~= s@.take(i as int));
            assert(s@.take(i + 1).last() == s@[i as int]);
        }
        if acc > (u64::MAX - d) / 10 {
            proof {
                let m = u64::MAX as int;
                lemma_fundamental_div_mod(m - d, 10);
                assert(acc * 10 >= ((m - d) / 10) * 10 + 10);
                assert(spec_dec_val(s@.take(i + 1)) > u64::MAX);
                lemma_dec_val_prefix(s@, i + 1);
            }
            return None;
        }
        proof {
            let m = u64::MAX as int;
            lemma_fundamental_div_mod(m - d, 10);
            assert(acc * 10 <= ((m - d) / 10) * 10);
        }
        acc = acc * 10 + d;
        i = i + 1;
    }
    proof {
        assert(s@.take(s@.len() as int) =~= s@);
    }
    Some(acc)
}

/// The signed decimal numeral of `x`: a `-` sign when negative, then the
/// numeral of the magnitude.
pub open spec fn spec_i32_digits(x: i32) -> Seq<u8> {
    if x >= 0 {
        spec_dec_digits(x as nat)
    } else {
        seq![45u8] + spec_dec_digits((0 - x as int) as nat)
    }
}

/// An optional `-` sign, then a nonempty all-digit magnitude in `i32` range,
/// and nothing else.
pub open spec fn spec_parse_i32(s: Seq<u8>) -> Option<i32> {
    if s.len() > 0 && s[0] == 45 {
        let mag = s.skip(1);
        if mag.len() > 0 && all_digits(mag) && spec_dec_val(mag) <= 0x8000_0000 {
            Some((0 - spec_dec_val(mag) as int) as i32)
        } else {
            None
        }
    } else if s.len() > 0 && all_digits(s) && spec_dec_val(s) <= 0x7fff_ffff {
        Some(spec_dec_val(s) as i32)
    } else {
        None
    }
}

/// Appends the signed decimal numeral of `x`.
pub fn push_i32_dec(out: &mut Vec<u8>, x: i32)
    ensures
        final(out)@ == old(out)@ + spec_i32_digits(x),
{
    let ghost prev = out@;
    if x >= 0 {
        push_u64_dec(out, x as u64);
    } else {
        out.push(45);
        let mag: u64 = (-(x as i64)) as u64;
        push_u64_dec(out, mag);
        proof {
            assert(out@ =~= prev + (seq![45u8] + spec_dec_digits(mag as nat)));
        }
    }
}

pub fn parse_i32(s: &Vec<u8>) -> (r: Option<i32>)
    ensures
        r == spec_parse_i32(s@),
{
    if s.len() == 0 {
        return None;
    }
    let neg = s[0] == 45;
    let start: usize = if neg {
        1
    } else {
        0
    };
    if s.len() == start {
        return None;
    }
    let limit: u64 = if neg {
        0x8000_0000
    } else {
        0x7fff_ffff
    };
    let ghost mag = if neg {
        s@.skip(1)
    } else {
        s@
    };
    let mut acc: u64 = 0;
    let mut i: usize = start;
    while i < s.len()
        invariant
            start <= i <= s@.len(),
            s@.len() > start,
            start == if neg { 1int } else { 0int },
            limit == if neg { 0x8000_0000u64 } else { 0x7fff_ffffu64 },
            neg ==> s@[0] == 45,
            !neg ==> s@.len() > 0 && s@[0] != 45,
            mag == if neg { s@.skip(1) } else { s@ },
            all_digits(mag.take(i - start)),
            acc == spec_dec_val(mag.take(i - start)),
            acc <= limit,
        decreases s@.len() - i,
    {
        let b = s[i];
        proof {
            assert(mag[i - start] == s@[i as int]);
        }
        if b < 48 || b > 57 {
            proof {
                assert(!is_digit(mag[i - start]));
            }
            return None;
        }
        let d: u64 = (b - 48) as u64;
        proof {
            assert(mag.take(i + 1 - start).drop_last() =~= mag.take(i - start));
            assert(mag.take(i + 1 - start).last() == mag[i - start]);
        }
        acc = acc * 10 + d;
        if acc > limit {
            proof {
                lemma_dec_val_prefix(mag, i + 1 - start);
            }
            return None;
        }
        i = i + 1;
    }
    proof {
        assert(mag.take(s@.len() - start) =~= mag);
    }
    if neg {
        if acc == 0x8000_0000 {
            Some(i32::MIN)
        } else {
            Some(-(acc as i32))
        }
    } else {
        Some(acc as i32)
    }
}

/// Reading back the signed numeral of `x` yields `x`.
pub proof fn lemma_i32_round_trip(x: i32)
    ensures
        spec_parse_i32(spec_i32_digits(x)) == Some(x),
{
    if x >= 0 {
        lemma_dec_digits_wf(x as nat);
        lemma_dec_digits_val(x as nat);
        let s = spec_dec_digits(x as nat);
        assert(is_digit(s[0]));
    } else {
        let mag = (0 - x as int) as nat;
        lemma_dec_digits_wf(mag);
        lemma_dec_digits_val(mag);
        let s = seq![45u8] + spec_dec_digits(mag);
        assert(s[0] == 45);
        assert(s.skip(1) =~= spec_dec_digits(mag));
    }
}

/// The signed numeral holds no wire delimiter: no `:`, `,` or `#`.
pub proof fn lemma_i32_digits_sep_free(x: i32)
    ensures
        sep_free(spec_i32_digits(x), 58),
        sep_free(spec_i32_digits(x), 44),
        sep_free(spec_i32_digits(x), 35),
{
    if x >= 0 {
        lemma_dec_digits_wf(x as nat);
    } else {
        lemma_dec_digits_wf((0 - x as int) as nat);
        let s = seq![45u8] + spec_dec_digits((0 - x as int) as nat);
        assert(forall|i: int| 1 <= i < s.len() ==> is_digit(s[i]));
    }
}

/// One hexadecimal digit, upper case.
pub open spec fn spec_hex_digit(d: nat) -> u8 {
    if d < 10 {
        (48 + d) as u8
    } else {
        (55 + d) as u8
    }
}

/// Two hexadecimal digits for one byte, upper case.
pub open spec fn spec_hex_byte(n: u8) -> Seq<u8> {
    seq![spec_hex_digit((n as nat) / 16), spec_hex_digit((n as nat) % 16)]
}

/// The value of one hexadecimal digit, either case.
pub open spec fn spec_hex_val(b: u8) -> Option<nat> {
    if 48 <= b && b <= 57 {
        Some((b - 48) as nat)
    } else if 65 <= b && b <= 70 {
        Some((b - 55) as nat)
    } else if 97 <= b && b <= 102 {
        Some((b - 87) as nat)
    } else {
        None
    }
}

/// The byte written as two hexadecimal digits, high digit first.
pub open spec fn spec_hex_pair(a: u8, b: u8) -> Option<u8> {
    match (spec_hex_val(a), spec_hex_val(b)) {
        (Some(x), Some(y)) => if x < 16 && y < 16 {
            Some((x * 16 + y) as u8)
        } else {
            None
        },
        _ => None,
    }
}

/// The `#RRGGBB` form of a color.
pub open spec fn spec_color_hex(c: Color) -> Seq<u8> {
    seq![35u8] + spec_hex_byte(c.r) + spec_hex_byte(c.g) + spec_hex_byte(c.b)
}

/// Six hexadecimal digits after at most one optional `#`, and nothing else.
pub open spec fn spec_parse_color(s: Seq<u8>) -> Option<Color> {
    let t = if s.len() > 0 && s[0] == 35 {
        s.skip(1)
    } else {
        s
    };
    if t.len() == 6 {
        match (spec_hex_pair(t[0], t[1]), spec_hex_pair(t[2], t[3]), spec_hex_pair(t[4], t[5])) {
            (Some(r), Some(g), Some(b)) => Some(Color { r, g, b }),
            _ => None,
        }
    } else {
        None
    }
}

proof fn lemma_u8_div_mod_16(n: u8)
    ensures
        (n as nat) / 16 < 16,
        (n as nat) % 16 < 16,
{
    lemma_fundamental_div_mod(n as int, 16);
}

fn hex_digit(d: u8) -> (b: u8)
    requires
        d < 16,
    ensures
        b == spec_hex_digit(d as nat),
{
    if d < 10 {
        48 + d
    } else {
        55 + d
    }
}

fn hex_val(b: u8) -> (r: Option<u8>)
    ensures
        r is Some <==> spec_hex_val(b) is Some,
        r matches Some(v) ==> spec_hex_val(b) == Some(v as nat) && v < 16,
{
    if 48 <= b && b <= 57 {
        Some(b - 48)
    } else if 65 <= b && b <= 70 {
        Some(b - 55)
    } else if 97 <= b && b <= 102 {
        Some(b - 87)
    } else {
        None
    }
}

/// Appends the `#RRGGBB` form of `c`.
pub fn push_color_hex(out: &mut Vec<u8>, c: Color)
    ensures
        final(out)@ == old(out)@ + spec_color_hex(c),
{
    let ghost prev = out@;
    proof {
        lemma_u8_div_mod_16(c.r);
        lemma_u8_div_mod_16(c.g);
        lemma_u8_div_mod_16(c.b);
    }
    out.push(35);
    out.push(hex_digit(c.r / 16));
    out.push(hex_digit(c.r % 16));
    out.push(hex_digit(c.g / 16));
    out.push(hex_digit(c.g % 16));
    out.push(hex_digit(c.b / 16));
    out.push(hex_digit(c.b % 16));
    proof {
        assert(out@ =~= prev + spec_color_hex(c));
    }
}

pub fn parse_color(s: &Vec<u8>) -> (r: Option<Color>)
    ensures
        r == spec_parse_color(s@),
{
    let start: usize = if s.len() > 0 && s[0] == 35 {
        1
    } else {
        0
    };
    let ghost t = if s@.len() > 0 && s@[0] == 35 {
        s@.skip(1)
    } else {
        s@
    };
    proof {
        assert(t.len() == s@.len() - start);
        assert(forall|i: int| 0 <= i < t.len() ==> t[i] == s@[i + start]);
    }
    if s.len() != start + 6 {
        return None;
    }
    let v0 = hex_val(s[start]);
    let v1 = hex_val(s[start + 1]);
    let v2 = hex_val(s[start + 2]);
    let v3 = hex_val(s[start + 3]);
    let v4 = hex_val(s[start + 4]);
    let v5 = hex_val(s[start + 5]);
    match (v0, v1, v2, v3, v4, v5) {
        (Some(a), Some(b), Some(c), Some(d), Some(e), Some(f)) => {
            let red: u8 = a * 16 + b;
            let green: u8 = c * 16 + d;
            let blue: u8 = e * 16 + f;
            Some(Color { r: red, g: green, b: blue })
        },
        _ => None,
    }
}

proof fn lemma_hex_digit_val(d: nat)
    requires
        d < 16,
    ensures
        spec_hex_val(spec_hex_digit(d)) == Some(d),
{
}

/// Reading back the `#RRGGBB` form of `c` yields `c`.
pub proof fn lemma_color_round_trip(c: Color)
    ensures
        spec_parse_color(spec_color_hex(c)) == Some(c),
{
    let s = spec_color_hex(c);
    let t = s.skip(1);
    lemma_u8_div_mod_16(c.r);
    lemma_u8_div_mod_16(c.g);
    lemma_u8_div_mod_16(c.b);
    assert(s[0] == 35);
    assert(t =~= spec_hex_byte(c.r) + spec_hex_byte(c.g) + spec_hex_byte(c.b));
    assert(t[0] == spec_hex_digit((c.r as nat) / 16));
    assert(t[1] == spec_hex_digit((c.r as nat) % 16));
    assert(t[2] == spec_hex_digit((c.g as nat) / 16));
    assert(t[3] == spec_hex_digit((c.g as nat) % 16));
    assert(t[4] == spec_hex_digit((c.b as nat) / 16));
    assert(t[5] == spec_hex_digit((c.b as nat) % 16));
    lemma_hex_digit_val((c.r as nat) / 16);
    lemma_hex_digit_val((c.r as nat) % 16);
    lemma_hex_digit_val((c.g as nat) / 16);
    lemma_hex_digit_val((c.g as nat) % 16);
    lemma_hex_digit_val((c.b as nat) / 16);
    lemma_hex_digit_val((c.b as nat) % 16);
    assert(((c.r as nat) / 16) * 16 + (c.r as nat) % 16 == c.r) by {
        lemma_fundamental_div_mod(c.r as int, 16);
    }
    assert(((c.g as nat) / 16) * 16 + (c.g as nat) % 16 == c.g) by {
        lemma_fundamental_div_mod(c.g as int, 16);
    }
    assert(((c.b as nat) / 16) * 16 + (c.b as nat) % 16 == c.b) by {
        lemma_fundamental_div_mod(c.b as int, 16);
    }
}

/// The color text holds no wire delimiter: no `:` or `,`.
pub proof fn lemma_color_hex_sep_free(c: Color)
    ensures
        sep_free(spec_color_hex(c), 58),
        sep_free(spec_color_hex(c), 44),
{
    let s = spec_color_hex(c);
    lemma_u8_div_mod_16(c.r);
    lemma_u8_div_mod_16(c.g);
    lemma_u8_div_mod_16(c.b);
    assert(s =~= seq![
        35u8,
        spec_hex_digit((c.r as nat) / 16),
        spec_hex_digit((c.r as nat) % 16),
        spec_hex_digit((c.g as nat) / 16),
        spec_hex_digit((c.g as nat) % 16),
        spec_hex_digit((c.b as nat) / 16),
        spec_hex_digit((c.b as nat) % 16),
    ]);
}

} // verus!
