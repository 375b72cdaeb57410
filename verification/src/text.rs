//! Numbers as text.
use vstd::prelude::*;
use vstd::string::StringExecFns;

verus! {

/// The character of a digit: `0` to `9`, then `A` to `F`.
pub open spec fn digit_char(d: nat) -> char
    recommends
        d < 16,
{
    if d < 10 {
        (48 + d) as char
    } else {
        (55 + d) as char
    }
}

/// A number in decimal, without leading zeros.
pub open spec fn decimal(n: nat) -> Seq<char>
    decreases n,
{
    if n < 10 {
        seq![digit_char(n)]
    } else {
        decimal(n / 10).push(digit_char(n % 10))
    }
}

/// A word as four hexadecimal digits in upper case.
pub open spec fn hex4(n: u16) -> Seq<char> {
    seq![
        digit_char((n / 4096) as nat),
        digit_char(((n / 256) % 16) as nat),
        digit_char(((n / 16) % 16) as nat),
        digit_char((n % 16) as nat),
    ]
}

/// The text of one digit.
fn digit_text(d: u8) -> (text: &'static str)
    requires
        d < 16,
    ensures
        text@ == seq![digit_char(d as nat)],
{
    proof {
        reveal_strlit("0");
        reveal_strlit("1");
        reveal_strlit("2");
        reveal_strlit("3");
        reveal_strlit("4");
        reveal_strlit("5");
        reveal_strlit("6");
        reveal_strlit("7");
        reveal_strlit("8");
        reveal_strlit("9");
        reveal_strlit("A");
        reveal_strlit("B");
        reveal_strlit("C");
        reveal_strlit("D");
        reveal_strlit("E");
        reveal_strlit("F");
    }
    match d {
        0 => "0",
        1 => "1",
        2 => "2",
        3 => "3",
        4 => "4",
        5 => "5",
        6 => "6",
        7 => "7",
        8 => "8",
        9 => "9",
        10 => "A",
        11 => "B",
        12 => "C",
        13 => "D",
        14 => "E",
        _ => "F",
    }
}

/// Writes a number in decimal.
pub fn decimal_text(n: usize) -> (text: String)
    ensures
        text@ == decimal(n as nat),
    decreases n,
{
    let mut text: String = if n < 10 {
        String::new()
    } else {
        decimal_text(n / 10)
    };
    let ghost before = text@;
    text.append(digit_text((n % 10) as u8));
    assert(text@ =~= before.push(digit_char((n % 10) as nat)));
    text
}

/// Writes a word as four hexadecimal digits.
pub fn hex4_text(n: u16) -> (text: String)
    ensures
        text@ == hex4(n),
{
    let mut text: String = String::new();
    text.append(digit_text((n / 4096) as u8));
    text.append(digit_text(((n / 256) % 16) as u8));
    text.append(digit_text(((n / 16) % 16) as u8));
    text.append(digit_text((n % 16) as u8));
    assert(text@ =~= hex4(n));
    text
}


/// The number that decimal digits spell.
pub open spec fn spelled(digits: Seq<char>) -> int
    decreases digits.len(),
{
    if digits.len() == 0 {
        0
    } else {
        10 * spelled(digits.drop_last()) + (digits.last() as int - '0' as int)
    }
}

/// A number in decimal is made of the digits `0` to `9`, begins with `0` only where it is zero, and
/// reads back as the number.
pub proof fn law_decimal_reads_back(n: nat)
    ensures
        decimal(n).len() > 0,
        forall|i: int| 0 <= i < decimal(n).len() ==> '0' <= #[trigger] decimal(n)[i] <= '9',
        decimal(n)[0] == '0' <==> n == 0,
        spelled(decimal(n)) == n,
    decreases n,
{
    reveal_with_fuel(spelled, 2);
    if n >= 10 {
        law_decimal_reads_back(n / 10);
        let before = decimal(n / 10);
        assert(decimal(n).drop_last() =~= before);
        assert(decimal(n)[0] == before[0]);
    }
}

/// Writing a digit behind a number in decimal writes ten times the number and the digit.
pub proof fn law_decimal_grows_by_a_digit(n: nat, d: nat)
    requires
        n > 0,
        d < 10,
    ensures
        decimal(10 * n + d) == decimal(n).push(('0' as int + d) as char),
        decimal(d) == seq![('0' as int + d) as char],
{
}

/// A word has four hexadecimal digits, each of which is `0` to `9` or `A` to `F` by its value, and
/// the values of the digits add up to the word.
pub proof fn law_hex_reads_back(n: u16, a: int, b: int, c: int, d: int)
    requires
        0 <= a < 16,
        0 <= b < 16,
        0 <= c < 16,
        0 <= d < 16,
        n == 4096 * a + 256 * b + 16 * c + d,
    ensures
        hex4(n).len() == 4,
        hex4(n)[0] as int == if a < 10 { '0' as int + a } else { 'A' as int + (a - 10) },
        hex4(n)[1] as int == if b < 10 { '0' as int + b } else { 'A' as int + (b - 10) },
        hex4(n)[2] as int == if c < 10 { '0' as int + c } else { 'A' as int + (c - 10) },
        hex4(n)[3] as int == if d < 10 { '0' as int + d } else { 'A' as int + (d - 10) },
{
    assert(n / 4096 == a);
    assert(n / 256 == 16 * a + b);
    assert(n / 16 == 256 * a + 16 * b + c);
    assert((n / 256) % 16 == b);
    assert((n / 16) % 16 == c);
    assert(n % 16 == d);
}

} // verus!
