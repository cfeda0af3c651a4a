//! Parsing catalog ids: a catalog map id is a hex numeral, and the index
//! stores it as the number it denotes. The parser accepts both digit
//! cases, rejects empty or non-hex text and values that do not fit in 32
//! bits, and is proved to return exactly the denoted value.

use vstd::prelude::*;

verus! {

/// The value of one hex digit, either case; `None` for any other
/// character.
pub open spec fn hex_digit_val(c: char) -> Option<u32> {
    let v = c as u32;
    if 48 <= v <= 57 {
        Some((v - 48) as u32)
    } else if 97 <= v <= 102 {
        Some((v - 97 + 10) as u32)
    } else if 65 <= v <= 70 {
        Some((v - 65 + 10) as u32)
    } else {
        None
    }
}

/// The number a sequence of hex digits denotes, most significant first;
/// `None` as soon as any character is not a hex digit. The empty
/// sequence denotes zero.
pub open spec fn hex_value(s: Seq<char>) -> Option<nat>
    decreases s.len(),
{
    if s.len() == 0 {
        Some(0)
    } else {
        match (hex_value(s.drop_last()), hex_digit_val(s.last())) {
            (Some(v), Some(d)) => Some((v * 16 + d) as nat),
            _ => None,
        }
    }
}

/// What parsing a hex numeral into 32 bits yields: the denoted value,
/// unless the text is empty, holds a non-digit, or denotes a value of 33
/// bits or more.
pub open spec fn parse_hex_u32_spec(s: Seq<char>) -> Option<u32> {
    if s.len() == 0 {
        None
    } else {
        match hex_value(s) {
            Some(v) => if v < 0x1_0000_0000 {
                Some(v as u32)
            } else {
                None
            },
            None => None,
        }
    }
}

/// Sixteen to the `n`-th.
pub open spec fn pow16(n: nat) -> nat
    decreases n,
{
    if n == 0 {
        1
    } else {
        16 * pow16((n - 1) as nat)
    }
}

proof fn lemma_pow16_mono(a: nat, b: nat)
    requires
        a <= b,
    ensures
        pow16(a) <= pow16(b),
        pow16(b) >= 1,
    decreases b,
{
    if b > 0 {
        if a == b {
            lemma_pow16_mono((a - 1) as nat, (b - 1) as nat);
        } else {
            lemma_pow16_mono(a, (b - 1) as nat);
        }
    }
}

/// A sequence of valid digits denotes some value.
proof fn lemma_all_valid_some(s: Seq<char>)
    requires
        forall|k: int| 0 <= k < s.len() ==> hex_digit_val(s[k]) is Some,
    ensures
        hex_value(s) is Some,
    decreases s.len(),
{
    if s.len() > 0 {
        assert(forall|k: int| 0 <= k < s.drop_last().len() ==> hex_digit_val(
            s.drop_last()[k],
        ) is Some);
        lemma_all_valid_some(s.drop_last());
    }
}

/// A sequence with an invalid digit denotes nothing.
proof fn lemma_invalid_none(s: Seq<char>, k: int)
    requires
        0 <= k < s.len(),
        hex_digit_val(s[k]) is None,
    ensures
        hex_value(s) is None,
    decreases s.len(),
{
    if k == s.len() - 1 {
    } else {
        lemma_invalid_none(s.drop_last(), k);
    }
}

/// `n` valid digits denote less than `16^n`.
proof fn lemma_value_upper(s: Seq<char>)
    requires
        hex_value(s) is Some,
    ensures
        hex_value(s).unwrap() < pow16(s.len() as nat),
    decreases s.len(),
{
    if s.len() > 0 {
        lemma_value_upper(s.drop_last());
        assert(hex_digit_val(s.last()).unwrap() <= 15);
    }
}

/// Digits led by a nonzero one denote at least `16^(n-1)`.
proof fn lemma_value_lower(s: Seq<char>)
    requires
        hex_value(s) is Some,
        s.len() > 0,
        hex_digit_val(s.first()) is Some,
        hex_digit_val(s.first()).unwrap() >= 1,
    ensures
        hex_value(s).unwrap() >= pow16((s.len() - 1) as nat),
    decreases s.len(),
{
    if s.len() == 1 {
        assert(s.drop_last().len() == 0);
    } else {
        assert(s.drop_last().first() == s.first());
        lemma_value_lower(s.drop_last());
    }
}

/// Leading zero digits do not change the denoted value.
proof fn lemma_skip_leading_zeros(s: Seq<char>, z: int)
    requires
        0 <= z <= s.len(),
        forall|k: int| 0 <= k < z ==> hex_digit_val(s[k]) == Some(0u32),
    ensures
        hex_value(s) == hex_value(s.skip(z)),
    decreases s.len(),
{
    if z == 0 {
        assert(s.skip(0) =~= s);
    } else {
        if z == s.len() {
            // all of s is zero digits: both sides denote 0
            lemma_all_zeros_value(s);
            assert(s.skip(z) =~= Seq::<char>::empty());
        } else {
            assert(s.drop_last().len() == s.len() - 1);
            assert(forall|k: int| 0 <= k < z ==> hex_digit_val(s.drop_last()[k]) == Some(
                0u32,
            ));
            lemma_skip_leading_zeros(s.drop_last(), z);
            assert(s.skip(z).drop_last() =~= s.drop_last().skip(z));
            assert(s.skip(z).last() == s.last());
        }
    }
}

/// A sequence of zero digits denotes zero.
proof fn lemma_all_zeros_value(s: Seq<char>)
    requires
        forall|k: int| 0 <= k < s.len() ==> hex_digit_val(s[k]) == Some(0u32),
    ensures
        hex_value(s) == Some(0nat),
    decreases s.len(),
{
    if s.len() > 0 {
        assert(forall|k: int| 0 <= k < s.drop_last().len() ==> hex_digit_val(
            s.drop_last()[k],
        ) == Some(0u32));
        lemma_all_zeros_value(s.drop_last());
    }
}

/// The lowercase hex digit character for a value below sixteen.
pub open spec fn hex_digit_char(d: u32) -> char {
    if d == 0 {
        '0'
    } else if d == 1 {
        '1'
    } else if d == 2 {
        '2'
    } else if d == 3 {
        '3'
    } else if d == 4 {
        '4'
    } else if d == 5 {
        '5'
    } else if d == 6 {
        '6'
    } else if d == 7 {
        '7'
    } else if d == 8 {
        '8'
    } else if d == 9 {
        '9'
    } else if d == 10 {
        'a'
    } else if d == 11 {
        'b'
    } else if d == 12 {
        'c'
    } else if d == 13 {
        'd'
    } else if d == 14 {
        'e'
    } else {
        'f'
    }
}

/// The shortest lowercase hex numeral of a value, most significant digit
/// first.
pub open spec fn hex_digits(n: u32) -> Seq<char>
    decreases n,
{
    if n < 16 {
        seq![hex_digit_char(n)]
    } else {
        hex_digits(n / 16).push(hex_digit_char(n % 16))
    }
}

proof fn lemma_hex_digit_char_val(d: u32)
    requires
        d < 16,
    ensures
        hex_digit_val(hex_digit_char(d)) == Some(d),
{
}

proof fn lemma_hex_digits_value(n: u32)
    ensures
        hex_value(hex_digits(n)) == Some(n as nat),
        hex_digits(n).len() >= 1,
        hex_digits(n).len() <= 8,
    decreases n,
{
    reveal_with_fuel(hex_value, 3);
    assert(pow16(8) == 0x1_0000_0000) by {
        reveal_with_fuel(pow16, 9);
    }
    lemma_hex_len_le(n, 8);
    if n < 16 {
        lemma_hex_digit_char_val(n);
        assert(hex_digits(n) == seq![hex_digit_char(n)]);
        assert(hex_digits(n).drop_last() =~= Seq::<char>::empty());
        assert(hex_value(Seq::<char>::empty()) == Some(0nat));
        assert(hex_digits(n).last() == hex_digit_char(n));
    } else {
        lemma_hex_digits_value(n / 16);
        lemma_hex_digit_char_val(n % 16);
        assert(hex_digits(n).drop_last() =~= hex_digits(n / 16));
        assert(hex_digits(n).last() == hex_digit_char(n % 16));
        assert((n / 16) * 16 + (n % 16) == n);
    }
}

proof fn lemma_hex_len_le(n: u32, k: nat)
    requires
        k >= 1,
        (n as nat) < pow16(k),
    ensures
        hex_digits(n).len() <= k,
    decreases n,
{
    if n >= 16 {
        if k == 1 {
            assert(pow16(1) == 16) by {
                reveal_with_fuel(pow16, 2);
            }
            assert(false);
        }
        assert(pow16(k) == 16 * pow16((k - 1) as nat));
        assert(((n / 16) as nat) < pow16((k - 1) as nat)) by (nonlinear_arith)
            requires
                (n as nat) < pow16(k),
                pow16(k) == 16 * pow16((k - 1) as nat),
        ;
        lemma_hex_len_le(n / 16, (k - 1) as nat);
    }
}

/// Writing a value as its shortest hex numeral and reading it back gives
/// the value: the numeral is nonempty, all digits, and denotes the value
/// itself, which fits in 32 bits.
pub proof fn lemma_hex_round_trip(n: u32)
    ensures
        parse_hex_u32_spec(hex_digits(n)) == Some(n),
{
    lemma_hex_digits_value(n);
    lemma_value_upper(hex_digits(n));
    lemma_pow16_mono(hex_digits(n).len() as nat, 8);
    assert(pow16(8) == 0x1_0000_0000) by {
        reveal_with_fuel(pow16, 9);
    }
}

/// Renders a value as its shortest lowercase hex numeral.
pub fn to_hex_digits(n: u32) -> (r: Vec<char>)
    ensures
        r@ == hex_digits(n),
    decreases n,
{
    let d = n % 16;
    let c: char = if d == 0 {
        '0'
    } else if d == 1 {
        '1'
    } else if d == 2 {
        '2'
    } else if d == 3 {
        '3'
    } else if d == 4 {
        '4'
    } else if d == 5 {
        '5'
    } else if d == 6 {
        '6'
    } else if d == 7 {
        '7'
    } else if d == 8 {
        '8'
    } else if d == 9 {
        '9'
    } else if d == 10 {
        'a'
    } else if d == 11 {
        'b'
    } else if d == 12 {
        'c'
    } else if d == 13 {
        'd'
    } else if d == 14 {
        'e'
    } else {
        'f'
    };
    if n < 16 {
        proof {
            assert(n % 16 == n);
        }
        let mut v: Vec<char> = Vec::new();
        v.push(c);
        proof {
            assert(v@ =~= seq![hex_digit_char(n)]);
        }
        v
    } else {
        let mut v = to_hex_digits(n / 16);
        v.push(c);
        v
    }
}

/// The value of one hex digit character, either case.
pub fn hex_digit(c: char) -> (r: Option<u32>)
    ensures
        r == hex_digit_val(c),
{
    let v = c as u32;
    if 48 <= v && v <= 57 {
        Some(v - 48)
    } else if 97 <= v && v <= 102 {
        Some(v - 97 + 10)
    } else if 65 <= v && v <= 70 {
        Some(v - 65 + 10)
    } else {
        None
    }
}

/// Parses a hex numeral into 32 bits: exactly the denoted value, and
/// `None` on empty text, a non-digit, or a value too large.
pub fn parse_hex_u32(chars: &Vec<char>) -> (r: Option<u32>)
    ensures
        r == parse_hex_u32_spec(chars@),
{
    let n = chars.len();
    if n == 0 {
        return None;
    }
    // reject any non-digit
    let mut i: usize = 0;
    while i < n
        invariant
            n == chars@.len(),
            i <= n,
            forall|k: int| 0 <= k < i as int ==> hex_digit_val(chars@[k]) is Some,
        decreases n - i,
    {
        if hex_digit(chars[i]).is_none() {
            proof {
                lemma_invalid_none(chars@, i as int);
            }
            return None;
        }
        i = i + 1;
    }
    proof {
        lemma_all_valid_some(chars@);
    }
    // skip leading zeros
    let mut z: usize = 0;
    while z < n && (chars[z] as u32) == 48
        invariant
            n == chars@.len(),
            z <= n,
            forall|k: int| 0 <= k < z as int ==> hex_digit_val(chars@[k]) == Some(0u32),
        decreases n - z,
    {
        z = z + 1;
    }
    proof {
        lemma_skip_leading_zeros(chars@, z as int);
    }
    if z == n {
        proof {
            assert(chars@.skip(n as int) =~= Seq::<char>::empty());
        }
        return Some(0);
    }
    let m = n - z;
    if m > 8 {
        proof {
            assert(forall|k: int| 0 <= k < chars@.skip(z as int).len() ==> hex_digit_val(
                chars@.skip(z as int)[k],
            ) is Some);
            lemma_all_valid_some(chars@.skip(z as int));
            assert(chars@.skip(z as int).first() == chars@[z as int]);
            assert(hex_digit_val(chars@[z as int]).unwrap() >= 1);
            lemma_value_lower(chars@.skip(z as int));
            lemma_pow16_mono(8, (m - 1) as nat);
            assert(pow16(8) == 0x1_0000_0000) by {
                reveal_with_fuel(pow16, 9);
            }
        }
        return None;
    }
    // accumulate the at most eight significant digits
    let mut acc: u32 = 0;
    let mut j: usize = z;
    while j < n
        invariant
            n == chars@.len(),
            z <= j <= n,
            n - z <= 8,
            forall|k: int| 0 <= k < n as int ==> hex_digit_val(chars@[k]) is Some,
            hex_value(chars@.subrange(z as int, j as int)) == Some(acc as nat),
            acc < pow16((j - z) as nat),
        decreases n - j,
    {
        let d = hex_digit(chars[j]).unwrap();
        proof {
            let prefix = chars@.subrange(z as int, j as int);
            let next = chars@.subrange(z as int, j as int + 1);
            assert(next.drop_last() =~= prefix);
            assert(next.last() == chars@[j as int]);
            lemma_pow16_mono((j - z + 1) as nat, 8);
            assert(pow16(8) == 0x1_0000_0000) by {
                reveal_with_fuel(pow16, 9);
            }
            assert(acc * 16 + d < pow16((j - z + 1) as nat));
        }
        acc = acc * 16 + d;
        j = j + 1;
    }
    proof {
        assert(chars@.subrange(z as int, n as int) =~= chars@.skip(z as int));
        lemma_value_upper(chars@.skip(z as int));
        lemma_pow16_mono((n - z) as nat, 8);
        assert(pow16(8) == 0x1_0000_0000) by {
            reveal_with_fuel(pow16, 9);
        }
    }
    Some(acc)
}

} // verus!
