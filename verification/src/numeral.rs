//! Numerals: reading and writing numbers in decimal and hexadecimal.

use vstd::prelude::*;
use vstd::string::*;

verus! {

/// Why a numeral was not read.
#[derive(Debug, Clone, Copy, PartialEq, Eq, Structural)]
pub enum NumeralError {
    /// The text is empty or holds a character that is no digit.
    Malformed,
    /// The text is a numeral, and its value is beyond the limit.
    TooLarge,
}

/// The digit for a value below 16, in lower case.
pub open spec fn digit_char(d: int) -> char {
    if d == 0 {
        '0'
    } else if d == 1 {
        '1'
    } else if d == 2 {
        '2'
    } else if d == 3 {
        '3'
    } else if d == 4 {
        '4'
    } else if d == 5 {
        '5'
    } else if d == 6 {
        '6'
    } else if d == 7 {
        '7'
    } else if d == 8 {
        '8'
    } else if d == 9 {
        '9'
    } else if d == 10 {
        'a'
    } else if d == 11 {
        'b'
    } else if d == 12 {
        'c'
    } else if d == 13 {
        'd'
    } else if d == 14 {
        'e'
    } else {
        'f'
    }
}

/// The numeral of `n` without leading zeros: decimal, or hexadecimal for `hex`.
pub open spec fn numeral(n: nat, hex: bool) -> Seq<char>
    decreases n,
{
    if hex {
        if n < 16 {
            seq![digit_char(n as int)]
        } else {
            numeral(n / 16, hex).push(digit_char((n % 16) as int))
        }
    } else {
        if n < 10 {
            seq![digit_char(n as int)]
        } else {
            numeral(n / 10, hex).push(digit_char((n % 10) as int))
        }
    }
}

/// The decimal numeral of `v`, with a minus sign when `v` is negative.
pub open spec fn signed_decimal(v: int) -> Seq<char> {
    if v < 0 {
        seq!['-'] + numeral((-v) as nat, false)
    } else {
        numeral(v as nat, false)
    }
}

/// The text of one digit.
fn digit_text(d: u64) -> (t: &'static str)
    requires
        d < 16,
    ensures
        t@ == seq![digit_char(d as int)],
{
    proof {
        reveal_strlit("0");
        reveal_strlit("1");
        reveal_strlit("2");
        reveal_strlit("3");
        reveal_strlit("4");
        reveal_strlit("5");
        reveal_strlit("6");
        reveal_strlit("7");
        reveal_strlit("8");
        reveal_strlit("9");
        reveal_strlit("a");
        reveal_strlit("b");
        reveal_strlit("c");
        reveal_strlit("d");
        reveal_strlit("e");
        reveal_strlit("f");
    }
    let t = match d {
        0 => "0",
        1 => "1",
        2 => "2",
        3 => "3",
        4 => "4",
        5 => "5",
        6 => "6",
        7 => "7",
        8 => "8",
        9 => "9",
        10 => "a",
        11 => "b",
        12 => "c",
        13 => "d",
        14 => "e",
        _ => "f",
    };
    assert(t@ =~= seq![digit_char(d as int)]);
    t
}

/// Appends the numeral of `n` to `out`: decimal, or hexadecimal for `hex`.
pub fn append_numeral(out: &mut String, n: u64, hex: bool)
    ensures
        final(out)@ == old(out)@ + numeral(n as nat, hex),
    decreases n,
{
    let radix: u64 = if hex {
        16
    } else {
        10
    };
    if n >= radix {
        append_numeral(out, n / radix, hex);
        out.append(digit_text(n % radix));
        assert(out@ =~= old(out)@ + numeral(n as nat, hex));
    } else {
        out.append(digit_text(n));
    }
}

/// Appends the decimal numeral of `v` to `out`.
pub fn append_signed(out: &mut String, v: i32)
    ensures
        final(out)@ == old(out)@ + signed_decimal(v as int),
{
    if v < 0 {
        proof {
            reveal_strlit("-");
        }
        out.append("-");
        let magnitude = (-(v as i64)) as u64;
        append_numeral(out, magnitude, false);
        assert(out@ =~= old(out)@ + signed_decimal(v as int));
    } else {
        append_numeral(out, v as u64, false);
    }
}

/// The value of a digit: `0`-`9`, `a`-`f` or `A`-`F`. Any other character
/// has the value 16, which no base here reaches.
pub open spec fn digit_value(c: char) -> int {
    if '0' <= c <= '9' {
        c as int - '0' as int
    } else if 'a' <= c <= 'f' {
        c as int - 'a' as int + 10
    } else if 'A' <= c <= 'F' {
        c as int - 'A' as int + 10
    } else {
        16
    }
}

/// The base of a numeral: ten, or sixteen for `hex`.
pub open spec fn base(hex: bool) -> int {
    if hex {
        16
    } else {
        10
    }
}

/// `s` is a numeral: not empty, and made of digits of its base only.
pub open spec fn is_numeral(s: Seq<char>, hex: bool) -> bool {
    &&& s.len() > 0
    &&& forall|i: int| 0 <= i < s.len() ==> digit_value(#[trigger] s[i]) < base(hex)
}

/// The value of a numeral, most significant digit first.
pub open spec fn numeral_value(s: Seq<char>, hex: bool) -> int
    decreases s.len(),
{
    if s.len() == 0 {
        0
    } else if hex {
        16 * numeral_value(s.drop_last(), hex) + digit_value(s.last())
    } else {
        10 * numeral_value(s.drop_last(), hex) + digit_value(s.last())
    }
}

/// Each digit below 16 has itself as its value.
pub proof fn lemma_digit_round_trip(d: int)
    requires
        0 <= d < 16,
    ensures
        digit_value(digit_char(d)) == d,
{
}

/// The numeral written for a number reads back as that number.
pub proof fn lemma_numeral_round_trip(n: nat, hex: bool)
    ensures
        is_numeral(numeral(n, hex), hex),
        numeral_value(numeral(n, hex), hex) == n,
    decreases n,
{
    let all = numeral(n, hex);
    if (hex && n < 16) || (!hex && n < 10) {
        lemma_digit_round_trip(n as int);
        assert(all.drop_last() =~= Seq::<char>::empty());
        assert(numeral_value(all.drop_last(), hex) == 0);
    } else {
        let head = if hex {
            numeral(n / 16, hex)
        } else {
            numeral(n / 10, hex)
        };
        if hex {
            lemma_numeral_round_trip(n / 16, hex);
            lemma_digit_round_trip((n % 16) as int);
        } else {
            lemma_numeral_round_trip(n / 10, hex);
            lemma_digit_round_trip((n % 10) as int);
        }
        assert(all.drop_last() =~= head);
        assert(numeral_value(all.drop_last(), hex) == numeral_value(head, hex));
        assert forall|i: int| 0 <= i < all.len() implies digit_value(#[trigger] all[i]) < base(
            hex,
        ) by {
            if i < head.len() {
                assert(all[i] == head[i]);
            }
        }
    }
}

/// What reading `s` as a numeral of at most `max` gives: its value, or why
/// it has none.
pub open spec fn read_numeral(s: Seq<char>, hex: bool, max: int) -> Result<u64, NumeralError> {
    if !is_numeral(s, hex) {
        Err(NumeralError::Malformed)
    } else if numeral_value(s, hex) > max {
        Err(NumeralError::TooLarge)
    } else {
        Ok(numeral_value(s, hex) as u64)
    }
}

/// The text starts with `0x`.
pub open spec fn has_hex_prefix(tok: Seq<char>) -> bool {
    tok.len() >= 2 && tok[0] == '0' && tok[1] == 'x'
}

/// The address that a text stands for: a hexadecimal numeral after `0x`,
/// or else a decimal numeral, of at most 32 bits.
pub open spec fn addr_spec(tok: Seq<char>) -> Result<u32, NumeralError> {
    let r = if has_hex_prefix(tok) {
        read_numeral(tok.skip(2), true, u32::MAX as int)
    } else {
        read_numeral(tok, false, u32::MAX as int)
    };
    match r {
        Ok(v) => Ok(v as u32),
        Err(e) => Err(e),
    }
}

/// The value of a numeral is not below the value of any of its prefixes.
pub proof fn lemma_prefix_value(s: Seq<char>, hex: bool, k: int)
    requires
        0 <= k <= s.len(),
    ensures
        0 <= numeral_value(s.take(k), hex) <= numeral_value(s, hex),
    decreases s.len() - k,
{
    if k == s.len() {
        assert(s.take(k) =~= s);
        lemma_value_nonnegative(s, hex);
    } else {
        lemma_prefix_value(s, hex, k + 1);
        assert(s.take(k + 1).drop_last() =~= s.take(k));
        lemma_value_nonnegative(s.take(k), hex);
    }
}

/// The value of a numeral is not negative.
pub proof fn lemma_value_nonnegative(s: Seq<char>, hex: bool)
    ensures
        0 <= numeral_value(s, hex),
    decreases s.len(),
{
    if s.len() > 0 {
        lemma_value_nonnegative(s.drop_last(), hex);
    }
}

/// The value of a character as a digit.
fn digit_of(c: char) -> (d: u64)
    ensures
        d == digit_value(c),
        d <= 16,
{
    if '0' <= c && c <= '9' {
        (c as u64) - ('0' as u64)
    } else if 'a' <= c && c <= 'f' {
        (c as u64) - ('a' as u64) + 10
    } else if 'A' <= c && c <= 'F' {
        (c as u64) - ('A' as u64) + 10
    } else {
        16
    }
}

/// Reads a numeral of at most `max`: decimal, or hexadecimal for `hex`.
pub fn parse_numeral(s: &[char], hex: bool, max: u64) -> (r: Result<u64, NumeralError>)
    ensures
        r == read_numeral(s@, hex, max as int),
        r matches Ok(v) ==> v == numeral_value(s@, hex) && v <= max,
{
    let radix: u64 = if hex {
        16
    } else {
        10
    };
    if s.len() == 0 {
        return Err(NumeralError::Malformed);
    }
    let mut i: usize = 0;
    while i < s.len()
        invariant
            i <= s.len(),
            radix == base(hex),
            forall|j: int| 0 <= j < i ==> digit_value(#[trigger] s@[j]) < base(hex),
        decreases s.len() - i,
    {
        if digit_of(s[i]) >= radix {
            return Err(NumeralError::Malformed);
        }
        i += 1;
    }
    let mut acc: u64 = 0;
    let mut k: usize = 0;
    while k < s.len()
        invariant
            k <= s.len(),
            radix == base(hex),
            is_numeral(s@, hex),
            acc == numeral_value(s@.take(k as int), hex),
            acc <= max,
        decreases s.len() - k,
    {
        let d = digit_of(s[k]);
        proof {
            assert(s@.take(k + 1).drop_last() =~= s@.take(k as int));
            lemma_prefix_value(s@, hex, k + 1);
        }
        if d > max || acc > (max - d) / radix {
            return Err(NumeralError::TooLarge);
        }
        acc = radix * acc + d;
        k += 1;
    }
    assert(s@.take(k as int) =~= s@);
    Ok(acc)
}

/// Reads an address from its characters: decimal, or hexadecimal after `0x`.
pub fn read_addr(tok: &[char]) -> (r: Result<u32, NumeralError>)
    ensures
        r == addr_spec(tok@),
{
    let r = if tok.len() >= 2 && tok[0] == '0' && tok[1] == 'x' {
        let digits = &tok[2..tok.len()];
        assert(digits@ =~= tok@.skip(2));
        parse_numeral(digits, true, u32::MAX as u64)
    } else {
        parse_numeral(tok, false, u32::MAX as u64)
    };
    match r {
        Ok(v) => Ok(v as u32),
        Err(e) => Err(e),
    }
}

} // verus!
